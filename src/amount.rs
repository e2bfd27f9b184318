//! Reading a money amount typed as text into whole cents.
use vstd::prelude::*;

verus! {

pub open spec fn is_digit(c: char) -> bool {
    48 <= (c as u32) <= 57
}

pub open spec fn digit_value(c: char) -> int {
    (c as u32) - 48
}

pub open spec fn all_digits(s: Seq<char>) -> bool {
    forall|i: int| 0 <= i < s.len() ==> is_digit(#[trigger] s[i])
}

/// The number that a run of decimal digits writes.
pub open spec fn digits_value(s: Seq<char>) -> int
    decreases s.len(),
{
    if s.len() == 0 {
        0
    } else {
        digits_value(s.drop_last()) * 10 + digit_value(s.last())
    }
}

/// The place of the first decimal point, or the length when there is none.
pub open spec fn first_dot(s: Seq<char>) -> int
    decreases s.len(),
{
    if s.len() == 0 {
        0
    } else if s[0] == '.' {
        0
    } else {
        1 + first_dot(s.subrange(1, s.len() as int))
    }
}

/// The cents that an amount text writes: digits, then optionally a point and at most
/// two more digits, with at least one digit in all ("12", "12.5", "0.05", ".5", "3.").
pub open spec fn amount_cents(s: Seq<char>) -> Option<int> {
    let d = first_dot(s);
    let whole = s.subrange(0, d);
    let frac = if d < s.len() { s.subrange(d + 1, s.len() as int) } else { Seq::<char>::empty() };
    if all_digits(whole) && all_digits(frac) && frac.len() <= 2 && whole.len() + frac.len() > 0 {
        Some(digits_value(whole) * 100 + digits_value(frac) * (if frac.len() == 1 { 10int } else { 1int }))
    } else {
        None
    }
}

proof fn lemma_first_dot(s: Seq<char>, i: int)
    requires
        0 <= i <= s.len(),
        forall|k: int| 0 <= k < i ==> s[k] != '.',
        i == s.len() || s[i] == '.',
    ensures
        first_dot(s) == i,
    decreases s.len(),
{
    if s.len() > 0 && i > 0 {
        let t = s.subrange(1, s.len() as int);
        assert forall|k: int| 0 <= k < i - 1 implies t[k] != '.' by {
            assert(t[k] == s[k + 1]);
        }
        if i < s.len() {
            assert(t[i - 1] == s[i]);
        }
        lemma_first_dot(t, i - 1);
    }
}

proof fn lemma_digits_grow(s: Seq<char>, i: int)
    requires
        0 <= i <= s.len(),
        all_digits(s),
    ensures
        digits_value(s.subrange(0, i)) <= digits_value(s),
        0 <= digits_value(s),
    decreases s.len(),
{
    if s.len() > 0 {
        assert(all_digits(s.drop_last()));
        if i < s.len() {
            lemma_digits_grow(s.drop_last(), i);
            assert(s.drop_last().subrange(0, i) =~= s.subrange(0, i));
        } else {
            lemma_digits_grow(s.drop_last(), 0);
            assert(s.subrange(0, i) =~= s);
        }
    } else {
        assert(s.subrange(0, i) =~= s);
    }
}

proof fn lemma_digits_small(s: Seq<char>)
    requires
        all_digits(s),
        s.len() <= 2,
    ensures
        0 <= digits_value(s) <= 99,
{
    if s.len() >= 1 {
        assert(is_digit(s.last()));
        let d = s.drop_last();
        if d.len() == 1 {
            assert(is_digit(d.last()));
            assert(digits_value(d.drop_last()) == 0);
            assert(digits_value(d) == digit_value(d.last()));
        } else {
            assert(digits_value(d) == 0);
        }
        assert(digits_value(s) == digits_value(d) * 10 + digit_value(s.last()));
    }
}

/// The value of digits `s[from..to]`, or `None` past `limit`.
fn digits_upto(s: &str, from: usize, to: usize, limit: i128) -> (r: Option<i128>)
    requires
        from <= to <= s@.len(),
        all_digits(s@.subrange(from as int, to as int)),
        0 <= limit <= i64::MAX,
    ensures
        r matches Some(v) ==> v == digits_value(s@.subrange(from as int, to as int)) && 0 <= v <= limit,
        r is None ==> digits_value(s@.subrange(from as int, to as int)) > limit,
{
    let ghost w = s@.subrange(from as int, to as int);
    let mut v: i128 = 0;
    let mut i: usize = from;
    while i < to
        invariant
            from <= i <= to,
            to <= s@.len(),
            w == s@.subrange(from as int, to as int),
            all_digits(w),
            0 <= limit <= i64::MAX,
            v == digits_value(w.subrange(0, i - from)),
            0 <= v <= limit,
        decreases to - i,
    {
        let c = s.get_char(i);
        assert(c == w[i - from]);
        assert(w.subrange(0, i + 1 - from).drop_last() =~= w.subrange(0, i - from));
        v = v * 10 + (c as u32 - 48) as i128;
        i = i + 1;
        if v > limit {
            proof { lemma_digits_grow(w, i - from); }
            return None;
        }
    }
    assert(w.subrange(0, to - from) =~= w);
    Some(v)
}

/// Reads an amount text into cents; `None` for malformed text or a value beyond the
/// range of `i64`.
pub fn parse_amount(s: &str) -> (r: Option<i64>)
    ensures
        r matches Some(v) ==> amount_cents(s@) == Some(v as int),
        r is None ==> amount_cents(s@) is None || amount_cents(s@)->Some_0 > i64::MAX,
{
    let n = s.unicode_len();
    let mut d: usize = 0;
    while d < n && s.get_char(d) != '.'
        invariant
            n == s@.len(),
            d <= n,
            forall|k: int| 0 <= k < d ==> s@[k] != '.',
        decreases n - d,
    {
        d = d + 1;
    }
    proof { lemma_first_dot(s@, d as int); }
    let frac_start: usize = if d < n { d + 1 } else { n };
    let ghost whole = s@.subrange(0, d as int);
    let ghost frac = s@.subrange(frac_start as int, n as int);
    assert(frac =~= (if d < n { s@.subrange(d + 1, n as int) } else { Seq::<char>::empty() }));
    let mut i: usize = 0;
    while i < n
        invariant
            n == s@.len(),
            d <= n,
            frac_start <= n,
            d < n ==> frac_start == d + 1,
            d == n ==> frac_start == n,
            i <= n,
            forall|k: int| 0 <= k < i && k < d ==> is_digit(s@[k]),
            forall|k: int| frac_start <= k < i ==> is_digit(s@[k]),
            whole == s@.subrange(0, d as int),
            frac == s@.subrange(frac_start as int, n as int),
            first_dot(s@) == d,
            frac =~= (if d < n { s@.subrange(d + 1, n as int) } else { Seq::<char>::empty() }),
        decreases n - i,
    {
        if i != d {
            let c = s.get_char(i);
            if !((c as u32) >= 48 && (c as u32) <= 57) {
                proof {
                    if i < d {
                        assert(whole[i as int] == c);
                    } else {
                        assert(frac[i - frac_start] == c);
                    }
                }
                return None;
            }
        }
        i = i + 1;
    }
    assert(all_digits(whole));
    assert(all_digits(frac)) by {
        assert forall|k: int| 0 <= k < frac.len() implies is_digit(#[trigger] frac[k]) by {
            assert(frac[k] == s@[frac_start + k]);
        }
    }
    let frac_len = n - frac_start;
    if frac_len > 2 || d + frac_len == 0 {
        return None;
    }
    let max: i128 = i64::MAX as i128;
    let whole_value = match digits_upto(s, 0, d, max / 100) {
        Some(v) => v,
        None => {
            proof { lemma_digits_grow(frac, 0); }
            return None;
        },
    };
    let frac_value = match digits_upto(s, frac_start, n, 99) {
        Some(v) => v,
        None => {
            proof { lemma_digits_small(frac); }
            return None;
        },
    };
    proof { lemma_digits_grow(frac, 0); }
    assert(0 <= whole_value * 100 <= max) by (nonlinear_arith)
        requires 0 <= whole_value <= max / 100, max == i64::MAX;
    let cents = whole_value * 100 + if frac_len == 1 { frac_value * 10 } else { frac_value };
    if cents > max {
        return None;
    }
    Some(cents as i64)
}

} // verus!
