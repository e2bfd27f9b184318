//! What the library takes from outside: fresh identifiers, the clock, and the two
//! editing operations of `String`.
use vstd::prelude::*;
use crate::model::Timestamp;

verus! {

/// Relies on uuid's `Uuid::new_v4` for a random version-4 identifier, read as one
/// 128-bit number by `Uuid::as_u128`. Nothing is promised of its value.
#[verifier::external_body]
pub(crate) fn new_id() -> (r: u128) {
    uuid::Uuid::new_v4().as_u128()
}

/// Relies on time's `OffsetDateTime::now_utc` for the current instant, read by
/// `unix_timestamp_nanos`. Nothing is promised of its value.
#[verifier::external_body]
pub(crate) fn now_utc() -> (r: Timestamp) {
    Timestamp { unix_nanos: time::OffsetDateTime::now_utc().unix_timestamp_nanos() }
}

/// Relies on `String::push`: appends one character.
#[verifier::external_body]
pub(crate) fn push_char(s: &mut String, c: char)
    ensures
        final(s)@ == old(s)@.push(c),
{
    s.push(c)
}

/// Relies on `String::pop`: removes and gives the last character, if any.
#[verifier::external_body]
pub(crate) fn pop_char(s: &mut String) -> (r: Option<char>)
    ensures
        old(s)@.len() == 0 ==> r is None && final(s)@ == old(s)@,
        old(s)@.len() > 0 ==> r == Some(old(s)@.last()) && final(s)@ == old(s)@.drop_last(),
{
    s.pop()
}

} // verus!
