//! Properties that relate several operations of the ledger, stated over the outcomes
//! that the operations' contracts give.
use vstd::prelude::*;
use crate::ledger::{
    LedgerView, all_bumped, category_created, creation_error, has_account, has_category,
    has_category_name, requested_splits, split_error, split_total, splits_for,
    transaction_created,
};
use crate::model::{CreateTransaction, LedgerError, Timestamp, Transaction};
use crate::notifier::bumped;

verus! {

/// Atomicity: a transaction that names an unknown category is refused, and nothing of
/// it is written: no transaction, no split, no balance change, no signal.
pub proof fn law_unknown_category_writes_nothing(
    before: LedgerView,
    after: LedgerView,
    input: CreateTransaction,
    id: u128,
    now: Timestamp,
    r: Result<Transaction, LedgerError>,
    k: int,
)
    requires
        transaction_created(before, after, input, id, now, r),
        0 <= k < requested_splits(input).len(),
        !has_category(before.categories, requested_splits(input)[k].category_id),
    ensures
        r is Err,
        after == before,
{
    let splits = splits_for(id, requested_splits(input));
    assert(splits[k].category_id == requested_splits(input)[k].category_id);
    assert(split_error(before.categories, splits, input.amount) is Some);
}

/// Split-sum violation: a transaction whose splits add up to more than its amount is
/// refused with a validation error and changes nothing, whatever its account and
/// categories.
pub proof fn law_split_overflow_is_rejected(
    before: LedgerView,
    after: LedgerView,
    input: CreateTransaction,
    id: u128,
    now: Timestamp,
    r: Result<Transaction, LedgerError>,
)
    requires
        transaction_created(before, after, input, id, now, r),
        input.amount >= 0,
        has_account(before.accounts, input.account_id),
        forall|k: int|
            0 <= k < requested_splits(input).len() ==> (#[trigger] requested_splits(input)[k]).amount
                >= 0 && has_category(before.categories, requested_splits(input)[k].category_id),
        split_total(splits_for(id, requested_splits(input))) > input.amount,
    ensures
        r == Err::<Transaction, LedgerError>(LedgerError::Validation),
        after == before,
{
    let splits = splits_for(id, requested_splits(input));
    assert forall|k: int| 0 <= k < splits.len() implies (#[trigger] splits[k]).amount >= 0
        && has_category(before.categories, splits[k].category_id) by {
        assert(requested_splits(input)[k].amount >= 0);
    }
    assert(split_error(before.categories, splits, input.amount) == Some(LedgerError::Validation));
}

/// Uniqueness: creating two categories with the same name, where the name is new and
/// the first id unused, gives one success and then a conflict.
pub proof fn law_duplicate_category_conflicts(
    v0: LedgerView,
    v1: LedgerView,
    v2: LedgerView,
    name: String,
    second_name: String,
    id1: u128,
    id2: u128,
    now1: Timestamp,
    now2: Timestamp,
    r1: Result<crate::model::Category, LedgerError>,
    r2: Result<crate::model::Category, LedgerError>,
)
    requires
        second_name@ == name@,
        !has_category_name(v0.categories, name@),
        !has_category(v0.categories, id1),
        category_created(v0, v1, name, id1, now1, r1),
        category_created(v1, v2, second_name, id2, now2, r2),
    ensures
        r1 is Ok,
        r2 == Err::<crate::model::Category, LedgerError>(LedgerError::Conflict),
        v2 == v1,
{
    let c = r1->Ok_0;
    let p = choose|p: int| crate::ledger::category_slot(v0.categories, p, c.name@) && v1.categories == v0.categories.insert(p, c);
    v0.categories.insert_ensures(p, c);
    assert(v1.categories[p].name@ == name@);
}

/// Notification fan-out: a recorded transaction hands every observer exactly one
/// signal (dropped only for an observer whose count is already at its maximum).
pub proof fn law_one_signal_per_change(
    before: LedgerView,
    after: LedgerView,
    input: CreateTransaction,
    id: u128,
    now: Timestamp,
    r: Result<Transaction, LedgerError>,
)
    requires
        transaction_created(before, after, input, id, now, r),
        r is Ok,
    ensures
        after.subscribers.len() == before.subscribers.len(),
        forall|i: int|
            0 <= i < before.subscribers.len() ==> (#[trigger] after.subscribers[i]).id
                == before.subscribers[i].id,
        forall|i: int|
            0 <= i < before.subscribers.len() && before.subscribers[i].pending < u64::MAX
                ==> (#[trigger] after.subscribers[i]).pending == before.subscribers[i].pending + 1,
{
    assert(after.subscribers == all_bumped(before.subscribers));
    assert forall|i: int| 0 <= i < before.subscribers.len() implies #[trigger] after.subscribers[i] == bumped(before.subscribers[i]) by {}
}

/// A refused transaction sends no signal and writes nothing.
pub proof fn law_refusal_is_silent(
    before: LedgerView,
    after: LedgerView,
    input: CreateTransaction,
    id: u128,
    now: Timestamp,
    r: Result<Transaction, LedgerError>,
)
    requires
        transaction_created(before, after, input, id, now, r),
        r is Err,
    ensures
        after == before,
        creation_error(before, input, id) is Some,
{
}

} // verus!
