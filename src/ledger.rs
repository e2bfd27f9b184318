//! The ledger repository: the only writer of accounts, categories, transactions and
//! splits. Every operation validates first and then commits as a whole, or fails and
//! leaves the ledger exactly as it was. Each committed change is broadcast once.
use vstd::prelude::*;
use crate::model::{
    Account, AccountKind, Category, CreateSplit, CreateTransaction, LedgerError, Timestamp,
    Transaction, TransactionDirection, TransactionSplit, TransactionView, copy_text_option,
};
use crate::outside::{new_id, now_utc};
use crate::notifier::{ChangeNotifier, Subscriber, bumped};
use crate::text::{is_blank, seq_less, text_is_blank, text_less, text_equals};
use crate::text::{lemma_less_irreflexive, lemma_less_transitive, lemma_less_total};

verus! {

/// The ledger as values: accounts newest first, categories by name, transactions by
/// business date, latest first, and the observers of change signals.
pub struct LedgerView {
    pub accounts: Seq<Account>,
    pub categories: Seq<Category>,
    pub transactions: Seq<TransactionView>,
    pub subscribers: Seq<Subscriber>,
}

/// The effect of a transaction on its own account's balance; a transfer has none.
pub open spec fn signed_amount(t: TransactionView) -> int {
    direction_delta(t.direction, t.amount)
}

pub open spec fn direction_delta(direction: TransactionDirection, amount: i64) -> int {
    match direction {
        TransactionDirection::Income => amount as int,
        TransactionDirection::Expense => -(amount as int),
        TransactionDirection::Transfer => 0,
    }
}

pub open spec fn contribution(t: TransactionView, account_id: u128) -> int {
    if t.account_id == account_id {
        signed_amount(t)
    } else {
        0
    }
}

/// An account's balance as its transaction history gives it: incomes minus expenses.
pub open spec fn derived_balance(ts: Seq<TransactionView>, account_id: u128) -> int
    decreases ts.len(),
{
    if ts.len() == 0 {
        0
    } else {
        derived_balance(ts.drop_last(), account_id) + contribution(ts.last(), account_id)
    }
}

pub open spec fn split_total(ss: Seq<TransactionSplit>) -> int
    decreases ss.len(),
{
    if ss.len() == 0 {
        0
    } else {
        split_total(ss.drop_last()) + ss.last().amount
    }
}

/// Whether `a` may be listed before `b`: a later business date, or the same one and a
/// creation that is not earlier.
pub open spec fn precedes(a: TransactionView, b: TransactionView) -> bool {
    a.occurred_at.unix_nanos > b.occurred_at.unix_nanos || (a.occurred_at.unix_nanos
        == b.occurred_at.unix_nanos && a.created_at.unix_nanos >= b.created_at.unix_nanos)
}

pub open spec fn strictly_precedes(a: TransactionView, b: TransactionView) -> bool {
    a.occurred_at.unix_nanos > b.occurred_at.unix_nanos || (a.occurred_at.unix_nanos
        == b.occurred_at.unix_nanos && a.created_at.unix_nanos > b.created_at.unix_nanos)
}

pub open spec fn transactions_ordered(ts: Seq<TransactionView>) -> bool {
    forall|i: int, j: int| 0 <= i < j < ts.len() ==> precedes(#[trigger] ts[i], #[trigger] ts[j])
}

pub open spec fn accounts_ordered(accounts: Seq<Account>) -> bool {
    forall|i: int, j: int|
        0 <= i < j < accounts.len() ==> (#[trigger] accounts[i]).created_at.unix_nanos >= (
        #[trigger] accounts[j]).created_at.unix_nanos
}

pub open spec fn categories_ordered(categories: Seq<Category>) -> bool {
    forall|i: int, j: int|
        0 <= i < j < categories.len() ==> seq_less(
            (#[trigger] categories[i]).name@,
            (#[trigger] categories[j]).name@,
        )
}

pub open spec fn has_account(accounts: Seq<Account>, id: u128) -> bool {
    exists|i: int| 0 <= i < accounts.len() && (#[trigger] accounts[i]).id == id
}

pub open spec fn has_category(categories: Seq<Category>, id: u128) -> bool {
    exists|i: int| 0 <= i < categories.len() && (#[trigger] categories[i]).id == id
}

pub open spec fn has_category_name(categories: Seq<Category>, name: Seq<char>) -> bool {
    exists|i: int| 0 <= i < categories.len() && (#[trigger] categories[i]).name@ == name
}

pub open spec fn has_transaction(ts: Seq<TransactionView>, id: u128) -> bool {
    exists|i: int| 0 <= i < ts.len() && (#[trigger] ts[i]).id == id
}

pub open spec fn split_ok(s: TransactionSplit, transaction_id: u128, categories: Seq<Category>) -> bool {
    s.transaction_id == transaction_id && s.amount >= 0 && has_category(categories, s.category_id)
}

/// A stored transaction: a non-negative amount on an existing account, whose splits
/// name existing categories and do not add up to more than the amount.
pub open spec fn transaction_ok(
    t: TransactionView,
    accounts: Seq<Account>,
    categories: Seq<Category>,
) -> bool {
    &&& t.amount >= 0
    &&& has_account(accounts, t.account_id)
    &&& split_total(t.splits) <= t.amount
    &&& forall|k: int| 0 <= k < t.splits.len() ==> split_ok(#[trigger] t.splits[k], t.id, categories)
}

pub open spec fn account_ids_unique(accounts: Seq<Account>) -> bool {
    forall|i: int, j: int|
        0 <= i < j < accounts.len() ==> (#[trigger] accounts[i]).id != (#[trigger] accounts[j]).id
}

pub open spec fn category_ids_unique(categories: Seq<Category>) -> bool {
    forall|i: int, j: int|
        0 <= i < j < categories.len() ==> (#[trigger] categories[i]).id != (#[trigger] categories[j]).id
}

pub open spec fn transaction_ids_unique(ts: Seq<TransactionView>) -> bool {
    forall|i: int, j: int| 0 <= i < j < ts.len() ==> (#[trigger] ts[i]).id != (#[trigger] ts[j]).id
}

impl LedgerView {
    /// Every account's balance equals the balance its transactions give it.
    pub open spec fn balances_consistent(self) -> bool {
        forall|i: int|
            0 <= i < self.accounts.len() ==> (#[trigger] self.accounts[i]).balance
                == derived_balance(self.transactions, self.accounts[i].id)
    }

    pub open spec fn wf(self) -> bool {
        &&& accounts_ordered(self.accounts)
        &&& categories_ordered(self.categories)
        &&& transactions_ordered(self.transactions)
        &&& forall|i: int, j: int|
            0 <= i < j < self.accounts.len() ==> (#[trigger] self.accounts[i]).id != (
            #[trigger] self.accounts[j]).id
        &&& category_ids_unique(self.categories)
        &&& transaction_ids_unique(self.transactions)
        &&& self.balances_consistent()
        &&& forall|i: int|
            0 <= i < self.transactions.len() ==> transaction_ok(
                #[trigger] self.transactions[i],
                self.accounts,
                self.categories,
            )
    }
}

pub open spec fn all_bumped(subscribers: Seq<Subscriber>) -> Seq<Subscriber> {
    subscribers.map_values(|s: Subscriber| bumped(s))
}

pub open spec fn new_account(name: String, kind: AccountKind, id: u128, now: Timestamp) -> Account {
    Account { id, name, kind, balance: 0, created_at: now }
}

pub open spec fn new_category(name: String, id: u128, now: Timestamp) -> Category {
    Category { id, name, created_at: now }
}

/// `p` is where an account created at `at` goes: after the strictly newer ones.
pub open spec fn account_slot(accounts: Seq<Account>, p: int, at: Timestamp) -> bool {
    &&& 0 <= p <= accounts.len()
    &&& forall|k: int| 0 <= k < p ==> (#[trigger] accounts[k]).created_at.unix_nanos > at.unix_nanos
    &&& forall|k: int|
        p <= k < accounts.len() ==> (#[trigger] accounts[k]).created_at.unix_nanos <= at.unix_nanos
}

/// `p` is where a category named `name` goes in alphabetical order.
pub open spec fn category_slot(categories: Seq<Category>, p: int, name: Seq<char>) -> bool {
    &&& 0 <= p <= categories.len()
    &&& forall|k: int| 0 <= k < p ==> seq_less((#[trigger] categories[k]).name@, name)
    &&& forall|k: int| p <= k < categories.len() ==> seq_less(name, (#[trigger] categories[k]).name@)
}

/// `after` is `before` with category `c` put at its alphabetical place.
pub open spec fn inserted_in_order(before: Seq<Category>, after: Seq<Category>, c: Category) -> bool {
    exists|p: int| category_slot(before, p, c.name@) && after == before.insert(p, c)
}

/// `p` is where transaction `t` goes: after those that strictly precede it, so before
/// any with the same dates.
pub open spec fn transaction_slot(ts: Seq<TransactionView>, p: int, t: TransactionView) -> bool {
    &&& 0 <= p <= ts.len()
    &&& forall|k: int| 0 <= k < p ==> strictly_precedes(#[trigger] ts[k], t)
    &&& forall|k: int| p <= k < ts.len() ==> precedes(t, #[trigger] ts[k])
}

/// The outcome of adding an account under `id` at time `now`.
pub open spec fn account_created(
    before: LedgerView,
    after: LedgerView,
    name: String,
    kind: AccountKind,
    id: u128,
    now: Timestamp,
    r: Result<Account, LedgerError>,
) -> bool {
    &&& r is Err <==> is_blank(name@) || has_account(before.accounts, id)
    &&& is_blank(name@) ==> r == Err::<Account, LedgerError>(LedgerError::Validation)
    &&& !is_blank(name@) && has_account(before.accounts, id) ==> r == Err::<Account, LedgerError>(
        LedgerError::Internal,
    )
    &&& r is Err ==> after == before
    &&& r matches Ok(a) ==> {
        &&& a == new_account(name, kind, id, now)
        &&& exists|p: int| account_slot(before.accounts, p, now) && after.accounts == before.accounts.insert(p, a)
        &&& after.categories == before.categories
        &&& after.transactions == before.transactions
        &&& after.subscribers == all_bumped(before.subscribers)
    }
}

/// The outcome of adding a category under `id` at time `now`.
pub open spec fn category_created(
    before: LedgerView,
    after: LedgerView,
    name: String,
    id: u128,
    now: Timestamp,
    r: Result<Category, LedgerError>,
) -> bool {
    &&& r is Err <==> has_category_name(before.categories, name@) || has_category(before.categories, id)
    &&& has_category_name(before.categories, name@) ==> r == Err::<Category, LedgerError>(LedgerError::Conflict)
    &&& !has_category_name(before.categories, name@) && has_category(before.categories, id) ==> r
        == Err::<Category, LedgerError>(LedgerError::Internal)
    &&& r is Err ==> after == before
    &&& r matches Ok(c) ==> c == new_category(name, id, now)
    &&& r matches Ok(c) ==> inserted_in_order(before.categories, after.categories, c)
    &&& r is Ok ==> after.accounts == before.accounts
    &&& r is Ok ==> after.transactions == before.transactions
    &&& r is Ok ==> after.subscribers == all_bumped(before.subscribers)
}

/// The outcome of recording a transaction from `input` under `id` at time `now`.
pub open spec fn transaction_created(
    before: LedgerView,
    after: LedgerView,
    input: CreateTransaction,
    id: u128,
    now: Timestamp,
    r: Result<Transaction, LedgerError>,
) -> bool {
    &&& match creation_error(before, input, id) {
        Some(e) => r == Err::<Transaction, LedgerError>(e) && after == before,
        None => r is Ok,
    }
    &&& r matches Ok(t) ==> {
        &&& t@ == new_transaction(input, id, now)
        &&& exists|p: int| transaction_slot(before.transactions, p, t@) && after.transactions
            == before.transactions.insert(p, t@)
        &&& after.accounts == credited(before.accounts, input.account_id, signed_amount(t@))
        &&& after.categories == before.categories
        &&& after.subscribers == all_bumped(before.subscribers)
    }
}

/// The ledger: its entities in listing order and the registry of change observers.
pub struct Ledger {
    accounts: Vec<Account>,
    categories: Vec<Category>,
    transactions: Vec<Transaction>,
    notifier: ChangeNotifier,
}

impl View for Ledger {
    type V = LedgerView;

    closed spec fn view(&self) -> LedgerView {
        LedgerView {
            accounts: self.accounts@,
            categories: self.categories@,
            transactions: self.transactions@.map_values(|t: Transaction| t@),
            subscribers: self.notifier@,
        }
    }
}

pub open spec fn requested_splits(input: CreateTransaction) -> Seq<CreateSplit> {
    match input.splits {
        Some(v) => v@,
        None => Seq::empty(),
    }
}

pub open spec fn splits_for(id: u128, requested: Seq<CreateSplit>) -> Seq<TransactionSplit> {
    requested.map_values(
        |s: CreateSplit| TransactionSplit { transaction_id: id, category_id: s.category_id, amount: s.amount },
    )
}

/// The transaction that a successful creation stores.
pub open spec fn new_transaction(input: CreateTransaction, id: u128, now: Timestamp) -> TransactionView {
    TransactionView {
        id,
        account_id: input.account_id,
        amount: input.amount,
        direction: input.direction,
        description: crate::model::text_option_view(input.description),
        occurred_at: match input.occurred_at {
            Some(t) => t,
            None => now,
        },
        splits: splits_for(id, requested_splits(input)),
        created_at: now,
        updated_at: now,
    }
}

pub open spec fn fits_i64(x: int) -> bool {
    i64::MIN <= x <= i64::MAX
}

/// Why creating a transaction from `input` fails, checked in this order; `None` when
/// it succeeds. A negative amount, on the transaction or on any of its splits, is
/// malformed input: amounts are magnitudes, their sign comes from the direction. A
/// balance that would leave the range of `i64` is out-of-range input. An id already in
/// use is a failure of the store, which holds ids unique.
pub open spec fn creation_error(v: LedgerView, input: CreateTransaction, id: u128) -> Option<LedgerError> {
    let splits = splits_for(id, requested_splits(input));
    if input.amount < 0 {
        Some(LedgerError::Validation)
    } else if !has_account(v.accounts, input.account_id) {
        Some(LedgerError::NotFound)
    } else if split_error(v.categories, splits, input.amount) is Some {
        split_error(v.categories, splits, input.amount)
    } else if has_transaction(v.transactions, id) {
        Some(LedgerError::Internal)
    } else if !fits_i64(
        derived_balance(v.transactions, input.account_id) + direction_delta(input.direction, input.amount),
    ) {
        Some(LedgerError::Validation)
    } else {
        None
    }
}

/// Why a transaction of `amount` cannot have these splits: a negative split, then an
/// unknown category, then a sum above the amount.
pub open spec fn split_error(categories: Seq<Category>, splits: Seq<TransactionSplit>, amount: i64) -> Option<LedgerError> {
    if exists|k: int| 0 <= k < splits.len() && (#[trigger] splits[k]).amount < 0 {
        Some(LedgerError::Validation)
    } else if exists|k: int|
        0 <= k < splits.len() && !has_category(categories, (#[trigger] splits[k]).category_id) {
        Some(LedgerError::NotFound)
    } else if split_total(splits) > amount {
        Some(LedgerError::Validation)
    } else {
        None
    }
}

pub open spec fn with_balance(a: Account, balance: int) -> Account {
    Account { id: a.id, name: a.name, kind: a.kind, balance: balance as i64, created_at: a.created_at }
}

/// The accounts after the one with id `id` has moved by `delta`.
pub open spec fn credited(accounts: Seq<Account>, id: u128, delta: int) -> Seq<Account> {
    accounts.map_values(|a: Account| if a.id == id { with_balance(a, a.balance + delta) } else { a })
}

pub proof fn lemma_derived_insert(ts: Seq<TransactionView>, p: int, t: TransactionView, id: u128)
    requires
        0 <= p <= ts.len(),
    ensures
        derived_balance(ts.insert(p, t), id) == derived_balance(ts, id) + contribution(t, id),
    decreases ts.len(),
{
    if p == ts.len() {
        assert(ts.insert(p, t) =~= ts.push(t));
        assert(ts.push(t).drop_last() =~= ts);
    } else {
        lemma_derived_insert(ts.drop_last(), p, t, id);
        assert(ts.insert(p, t).drop_last() =~= ts.drop_last().insert(p, t));
    }
}

proof fn lemma_split_total_prefix(ss: Seq<TransactionSplit>, i: int)
    requires
        0 <= i <= ss.len(),
        forall|k: int| 0 <= k < ss.len() ==> (#[trigger] ss[k]).amount >= 0,
    ensures
        split_total(ss.subrange(0, i)) <= split_total(ss),
    decreases ss.len(),
{
    if i < ss.len() {
        lemma_split_total_prefix(ss.drop_last(), i);
        assert(ss.drop_last().subrange(0, i) =~= ss.subrange(0, i));
    } else {
        assert(ss.subrange(0, i) =~= ss);
    }
}

proof fn lemma_transactions_insert_ordered(ts: Seq<TransactionView>, p: int, t: TransactionView)
    requires
        transactions_ordered(ts),
        transaction_slot(ts, p, t),
    ensures
        transactions_ordered(ts.insert(p, t)),
{
    ts.insert_ensures(p, t);
    let nts = ts.insert(p, t);
    assert forall|i: int, j: int| 0 <= i < j < nts.len() implies precedes(#[trigger] nts[i], #[trigger] nts[j]) by {
        if j < p { assert(nts[i] == ts[i] && nts[j] == ts[j]); }
        else if j == p { assert(nts[i] == ts[i]); }
        else if i < p { assert(nts[i] == ts[i] && nts[j] == ts[j - 1]); }
        else if i == p { assert(nts[j] == ts[j - 1]); }
        else { assert(nts[i] == ts[i - 1] && nts[j] == ts[j - 1]); }
    }
}

/// Inserting a valid transaction at its place and moving its account by its signed
/// amount keeps the ledger well formed.
proof fn lemma_commit_keeps_wf(v: LedgerView, p: int, t: TransactionView, j: int, delta: int)
    requires
        v.wf(),
        0 <= j < v.accounts.len(),
        v.accounts[j].id == t.account_id,
        transaction_slot(v.transactions, p, t),
        !has_transaction(v.transactions, t.id),
        delta == signed_amount(t),
        fits_i64(v.accounts[j].balance + delta),
        t.amount >= 0,
        split_total(t.splits) <= t.amount,
        forall|m: int| 0 <= m < t.splits.len() ==> split_ok(#[trigger] t.splits[m], t.id, v.categories),
    ensures
        (LedgerView {
            accounts: credited(v.accounts, t.account_id, delta),
            transactions: v.transactions.insert(p, t),
            ..v
        }).wf(),
{
    let acc = v.accounts;
    let nacc = credited(acc, t.account_id, delta);
    let nts = v.transactions.insert(p, t);
    lemma_transactions_insert_ordered(v.transactions, p, t);
    v.transactions.insert_ensures(p, t);
    let ts = v.transactions;
    assert forall|i: int, j: int| 0 <= i < j < nts.len() implies (#[trigger] nts[i]).id != (#[trigger] nts[j]).id by {
        if j < p { assert(nts[i] == ts[i] && nts[j] == ts[j]); }
        else if j == p { assert(nts[i] == ts[i]); }
        else if i < p { assert(nts[i] == ts[i] && nts[j] == ts[j - 1]); }
        else if i == p { assert(nts[j] == ts[j - 1]); }
        else { assert(nts[i] == ts[i - 1] && nts[j] == ts[j - 1]); }
    }
    assert(accounts_ordered(nacc));
    assert forall|a: int, b: int| 0 <= a < b < nacc.len() implies (#[trigger] nacc[a]).id != (#[trigger] nacc[b]).id by {
        assert(acc[a].id != acc[b].id);
    }
    assert forall|a: int| 0 <= a < nacc.len() implies (#[trigger] nacc[a]).balance == derived_balance(nts, nacc[a].id) by {
        lemma_derived_insert(v.transactions, p, t, acc[a].id);
        if a != j {
            assert(acc[a].id != acc[j].id);
        }
    }
    assert forall|k: int| 0 <= k < nts.len() implies transaction_ok(#[trigger] nts[k], nacc, v.categories) by {
        let x = nts[k];
        if k != p {
            let kk = if k < p { k } else { k - 1 };
            assert(x == v.transactions[kk]);
            assert(transaction_ok(x, acc, v.categories));
            let w = choose|w: int| 0 <= w < acc.len() && (#[trigger] acc[w]).id == x.account_id;
            assert(nacc[w].id == x.account_id);
        } else {
            assert(nacc[j].id == x.account_id);
        }
    }
}

/// `j` is the first place of a transaction with id `id`.
pub open spec fn first_with_id(ts: Seq<TransactionView>, j: int, id: u128) -> bool {
    &&& 0 <= j < ts.len()
    &&& ts[j].id == id
    &&& forall|k: int| 0 <= k < j ==> ts[k].id != id
}

/// What removing transaction `j` gives: its account moves back by its signed amount,
/// or, where the balance would leave the range of `i64`, a validation error.
pub open spec fn removal_outcome(before: LedgerView, after: LedgerView, r: Result<(), LedgerError>, j: int) -> bool {
    let t = before.transactions[j];
    let back = derived_balance(before.transactions, t.account_id) - signed_amount(t);
    if fits_i64(back) {
        &&& r is Ok
        &&& after.transactions == before.transactions.remove(j)
        &&& after.accounts == credited(before.accounts, t.account_id, -signed_amount(t))
        &&& after.categories == before.categories
        &&& after.subscribers == all_bumped(before.subscribers)
    } else {
        r == Err::<(), LedgerError>(LedgerError::Validation) && after == before
    }
}

pub open spec fn not_of_account(id: u128) -> spec_fn(TransactionView) -> bool {
    |t: TransactionView| t.account_id != id
}

pub open spec fn not_in_category(id: u128) -> spec_fn(TransactionSplit) -> bool {
    |s: TransactionSplit| s.category_id != id
}

/// A transaction once its allocations to category `id` are gone.
pub open spec fn without_category(t: TransactionView, id: u128) -> TransactionView {
    TransactionView { splits: t.splits.filter(not_in_category(id)), ..t }
}

pub open spec fn strip_category(ts: Seq<TransactionView>, id: u128) -> Seq<TransactionView> {
    ts.map_values(|t: TransactionView| without_category(t, id))
}

proof fn lemma_filter_member<A>(s: Seq<A>, pred: spec_fn(A) -> bool, i: int) -> (w: int)
    requires
        0 <= i < s.filter(pred).len(),
    ensures
        0 <= w < s.len(),
        s[w] == s.filter(pred)[i],
        pred(s[w]),
    decreases s.len(),
{
    reveal(Seq::filter);
    let f = s.drop_last().filter(pred);
    if pred(s.last()) && i == f.len() {
        (s.len() - 1) as int
    } else {
        let w = lemma_filter_member(s.drop_last(), pred, i);
        w
    }
}

pub proof fn lemma_derived_remove(ts: Seq<TransactionView>, j: int, id: u128)
    requires
        0 <= j < ts.len(),
    ensures
        derived_balance(ts.remove(j), id) == derived_balance(ts, id) - contribution(ts[j], id),
{
    lemma_derived_insert(ts.remove(j), j, ts[j], id);
    assert(ts.remove(j).insert(j, ts[j]) =~= ts);
}

pub proof fn lemma_derived_filter(ts: Seq<TransactionView>, gone: u128, id: u128)
    requires
        gone != id,
    ensures
        derived_balance(ts.filter(not_of_account(gone)), id) == derived_balance(ts, id),
    decreases ts.len(),
{
    reveal(Seq::filter);
    if ts.len() > 0 {
        lemma_derived_filter(ts.drop_last(), gone, id);
        let f = ts.drop_last().filter(not_of_account(gone));
        if ts.last().account_id != gone {
            assert(f.push(ts.last()).drop_last() =~= f);
        }
    }
}

pub proof fn lemma_derived_strip(ts: Seq<TransactionView>, category: u128, id: u128)
    ensures
        derived_balance(strip_category(ts, category), id) == derived_balance(ts, id),
    decreases ts.len(),
{
    if ts.len() > 0 {
        lemma_derived_strip(ts.drop_last(), category, id);
        assert(strip_category(ts, category).drop_last() =~= strip_category(ts.drop_last(), category));
    }
}

proof fn lemma_filter_ordered(ts: Seq<TransactionView>, gone: u128)
    requires
        transactions_ordered(ts),
    ensures
        transactions_ordered(ts.filter(not_of_account(gone))),
    decreases ts.len(),
{
    reveal(Seq::filter);
    if ts.len() > 0 {
        let d = ts.drop_last();
        lemma_filter_ordered(d, gone);
        let f = d.filter(not_of_account(gone));
        if ts.last().account_id != gone {
            let g = f.push(ts.last());
            assert forall|i: int, j: int| 0 <= i < j < g.len() implies precedes(#[trigger] g[i], #[trigger] g[j]) by {
                if j == g.len() - 1 {
                    let w = lemma_filter_member(d, not_of_account(gone), i);
                    assert(ts[w] == d[w]);
                } else {
                    assert(g[i] == f[i] && g[j] == f[j]);
                }
            }
        }
    }
}

proof fn lemma_filter_ids_unique(ts: Seq<TransactionView>, gone: u128)
    requires
        transaction_ids_unique(ts),
    ensures
        transaction_ids_unique(ts.filter(not_of_account(gone))),
    decreases ts.len(),
{
    reveal(Seq::filter);
    if ts.len() > 0 {
        let d = ts.drop_last();
        lemma_filter_ids_unique(d, gone);
        let f = d.filter(not_of_account(gone));
        if ts.last().account_id != gone {
            let g = f.push(ts.last());
            assert forall|i: int, j: int| 0 <= i < j < g.len() implies (#[trigger] g[i]).id != (#[trigger] g[j]).id by {
                if j == g.len() - 1 {
                    let w = lemma_filter_member(d, not_of_account(gone), i);
                    assert(ts[w] == d[w]);
                    assert(g[i] == f[i]);
                } else {
                    assert(g[i] == f[i] && g[j] == f[j]);
                }
            }
        }
    }
}

proof fn lemma_split_total_filter(ss: Seq<TransactionSplit>, category: u128)
    requires
        forall|k: int| 0 <= k < ss.len() ==> (#[trigger] ss[k]).amount >= 0,
    ensures
        split_total(ss.filter(not_in_category(category))) <= split_total(ss),
    decreases ss.len(),
{
    reveal(Seq::filter);
    if ss.len() > 0 {
        lemma_split_total_filter(ss.drop_last(), category);
        let f = ss.drop_last().filter(not_in_category(category));
        assert(f.push(ss.last()).drop_last() =~= f);
    }
}

proof fn lemma_has_account_remove(accounts: Seq<Account>, j: int, id: u128)
    requires
        0 <= j < accounts.len(),
        has_account(accounts, id),
        accounts[j].id != id,
    ensures
        has_account(accounts.remove(j), id),
{
    let i = choose|i: int| 0 <= i < accounts.len() && (#[trigger] accounts[i]).id == id;
    if i < j {
        assert(accounts.remove(j)[i] == accounts[i]);
    } else {
        assert(accounts.remove(j)[i - 1] == accounts[i]);
    }
}

proof fn lemma_has_category_remove(categories: Seq<Category>, j: int, id: u128)
    requires
        0 <= j < categories.len(),
        has_category(categories, id),
        categories[j].id != id,
    ensures
        has_category(categories.remove(j), id),
{
    let i = choose|i: int| 0 <= i < categories.len() && (#[trigger] categories[i]).id == id;
    if i < j {
        assert(categories.remove(j)[i] == categories[i]);
    } else {
        assert(categories.remove(j)[i - 1] == categories[i]);
    }
}

/// Removing transaction `j` and moving its account back by its signed amount keeps the
/// ledger well formed.
proof fn lemma_uncommit_keeps_wf(v: LedgerView, j: int, a: int)
    requires
        v.wf(),
        0 <= j < v.transactions.len(),
        0 <= a < v.accounts.len(),
        v.accounts[a].id == v.transactions[j].account_id,
        fits_i64(v.accounts[a].balance - signed_amount(v.transactions[j])),
    ensures
        (LedgerView {
            accounts: credited(v.accounts, v.transactions[j].account_id, -signed_amount(v.transactions[j])),
            transactions: v.transactions.remove(j),
            ..v
        }).wf(),
{
    let t = v.transactions[j];
    let acc = v.accounts;
    let nacc = credited(acc, t.account_id, -signed_amount(t));
    let nts = v.transactions.remove(j);
    assert forall|x: int, y: int| 0 <= x < y < nts.len() implies precedes(#[trigger] nts[x], #[trigger] nts[y]) && nts[x].id != nts[y].id by {
        let xx = if x < j { x } else { x + 1 };
        let yy = if y < j { y } else { y + 1 };
        assert(nts[x] == v.transactions[xx] && nts[y] == v.transactions[yy]);
    }
    assert(accounts_ordered(nacc));
    assert forall|x: int, y: int| 0 <= x < y < nacc.len() implies (#[trigger] nacc[x]).id != (#[trigger] nacc[y]).id by {
        assert(acc[x].id != acc[y].id);
    }
    assert forall|x: int| 0 <= x < nacc.len() implies (#[trigger] nacc[x]).balance == derived_balance(nts, nacc[x].id) by {
        lemma_derived_remove(v.transactions, j, acc[x].id);
        if x != a {
            assert(acc[x].id != acc[a].id);
        }
    }
    assert forall|k: int| 0 <= k < nts.len() implies transaction_ok(#[trigger] nts[k], nacc, v.categories) by {
        let kk = if k < j { k } else { k + 1 };
        let q = nts[k];
        assert(q == v.transactions[kk]);
        assert(transaction_ok(q, acc, v.categories));
        let w = choose|w: int| 0 <= w < acc.len() && (#[trigger] acc[w]).id == q.account_id;
        assert(nacc[w].id == q.account_id);
    }
}

/// Removing account `j` together with all of its transactions keeps the ledger well
/// formed.
proof fn lemma_account_cascade_keeps_wf(v: LedgerView, j: int)
    requires
        v.wf(),
        0 <= j < v.accounts.len(),
    ensures
        (LedgerView {
            accounts: v.accounts.remove(j),
            transactions: v.transactions.filter(not_of_account(v.accounts[j].id)),
            ..v
        }).wf(),
{
    broadcast use vstd::seq_lib::group_filter_ensures;
    let gone = v.accounts[j].id;
    let acc = v.accounts;
    let nacc = acc.remove(j);
    let nts = v.transactions.filter(not_of_account(gone));
    lemma_filter_ordered(v.transactions, gone);
    lemma_filter_ids_unique(v.transactions, gone);
    assert forall|x: int, y: int| 0 <= x < y < nacc.len() implies (#[trigger] nacc[x]).created_at.unix_nanos >= (#[trigger] nacc[y]).created_at.unix_nanos && nacc[x].id != nacc[y].id by {
        let xx = if x < j { x } else { x + 1 };
        let yy = if y < j { y } else { y + 1 };
        assert(nacc[x] == acc[xx] && nacc[y] == acc[yy]);
    }
    assert forall|x: int| 0 <= x < nacc.len() implies (#[trigger] nacc[x]).balance == derived_balance(nts, nacc[x].id) by {
        let xx = if x < j { x } else { x + 1 };
        assert(nacc[x] == acc[xx]);
        lemma_derived_filter(v.transactions, gone, acc[xx].id);
    }
    assert forall|k: int| 0 <= k < nts.len() implies transaction_ok(#[trigger] nts[k], nacc, v.categories) by {
        let q = nts[k];
        let w = lemma_filter_member(v.transactions, not_of_account(gone), k);
        assert(transaction_ok(v.transactions[w], acc, v.categories));
        lemma_has_account_remove(acc, j, q.account_id);
    }
}

/// Removing category `j` together with every split that names it keeps the ledger well
/// formed.
proof fn lemma_category_cascade_keeps_wf(v: LedgerView, j: int)
    requires
        v.wf(),
        0 <= j < v.categories.len(),
    ensures
        (LedgerView {
            categories: v.categories.remove(j),
            transactions: strip_category(v.transactions, v.categories[j].id),
            ..v
        }).wf(),
{
    broadcast use vstd::seq_lib::group_filter_ensures;
    let gone = v.categories[j].id;
    let cats = v.categories;
    let ncats = cats.remove(j);
    let ts = v.transactions;
    let nts = strip_category(ts, gone);
    assert forall|x: int, y: int| 0 <= x < y < ncats.len() implies seq_less((#[trigger] ncats[x]).name@, (#[trigger] ncats[y]).name@) && ncats[x].id != ncats[y].id by {
        let xx = if x < j { x } else { x + 1 };
        let yy = if y < j { y } else { y + 1 };
        assert(ncats[x] == cats[xx] && ncats[y] == cats[yy]);
    }
    assert forall|x: int, y: int| 0 <= x < y < nts.len() implies precedes(#[trigger] nts[x], #[trigger] nts[y]) && nts[x].id != nts[y].id by {
        assert(precedes(ts[x], ts[y]));
    }
    assert forall|x: int| 0 <= x < v.accounts.len() implies (#[trigger] v.accounts[x]).balance == derived_balance(nts, v.accounts[x].id) by {
        lemma_derived_strip(ts, gone, v.accounts[x].id);
    }
    assert forall|k: int| 0 <= k < nts.len() implies transaction_ok(#[trigger] nts[k], v.accounts, ncats) by {
        let t = ts[k];
        let q = nts[k];
        assert(transaction_ok(t, v.accounts, cats));
        assert forall|m: int| 0 <= m < t.splits.len() implies (#[trigger] t.splits[m]).amount >= 0 by {
            assert(split_ok(t.splits[m], t.id, cats));
        }
        lemma_split_total_filter(t.splits, gone);
        assert forall|m: int| 0 <= m < q.splits.len() implies split_ok(#[trigger] q.splits[m], q.id, ncats) by {
            let sp = q.splits[m];
            let w = lemma_filter_member(t.splits, not_in_category(gone), m);
            assert(split_ok(t.splits[w], t.id, cats));
            lemma_has_category_remove(cats, j, sp.category_id);
        }
    }
}

/// Adding a new account, with an unused id and zero balance, at its place keeps the
/// ledger well formed.
proof fn lemma_account_insert_keeps_wf(v: LedgerView, p: int, account: Account)
    requires
        v.wf(),
        account_slot(v.accounts, p, account.created_at),
        !has_account(v.accounts, account.id),
        account.balance == 0,
    ensures
        (LedgerView { accounts: v.accounts.insert(p, account), ..v }).wf(),
{
    let acc = v.accounts;
    let id = account.id;
    acc.insert_ensures(p, account);
    let nacc = acc.insert(p, account);
    assert forall|i: int, j: int| 0 <= i < j < nacc.len() implies (#[trigger] nacc[i]).created_at.unix_nanos >= (#[trigger] nacc[j]).created_at.unix_nanos && nacc[i].id != nacc[j].id by {
        if j < p { assert(nacc[i] == acc[i] && nacc[j] == acc[j]); }
        else if j == p { assert(nacc[i] == acc[i]); }
        else if i < p { assert(nacc[i] == acc[i] && nacc[j] == acc[j - 1]); }
        else if i == p { assert(nacc[j] == acc[j - 1]); }
        else { assert(nacc[i] == acc[i - 1] && nacc[j] == acc[j - 1]); }
    }
    let ts = v.transactions;
    assert forall|k: int| 0 <= k < ts.len() implies (#[trigger] ts[k]).account_id != id by {
        assert(transaction_ok(ts[k], acc, v.categories));
    }
    lemma_derived_zero(ts, id);
    assert forall|i: int| 0 <= i < nacc.len() implies (#[trigger] nacc[i]).balance == derived_balance(ts, nacc[i].id) by {
        if i < p { assert(nacc[i] == acc[i]); }
        else if i > p { assert(nacc[i] == acc[i - 1]); }
    }
    assert forall|k: int| 0 <= k < ts.len() implies transaction_ok(#[trigger] ts[k], nacc, v.categories) by {
        assert(transaction_ok(ts[k], acc, v.categories));
        lemma_has_account_insert(acc, p, account, ts[k].account_id);
    }
}

pub proof fn lemma_derived_zero(ts: Seq<TransactionView>, id: u128)
    requires
        forall|k: int| 0 <= k < ts.len() ==> (#[trigger] ts[k]).account_id != id,
    ensures
        derived_balance(ts, id) == 0,
    decreases ts.len(),
{
    if ts.len() > 0 {
        lemma_derived_zero(ts.drop_last(), id);
    }
}

proof fn lemma_has_account_insert(accounts: Seq<Account>, p: int, a: Account, id: u128)
    requires
        0 <= p <= accounts.len(),
        has_account(accounts, id),
    ensures
        has_account(accounts.insert(p, a), id),
{
    let i = choose|i: int| 0 <= i < accounts.len() && (#[trigger] accounts[i]).id == id;
    accounts.insert_ensures(p, a);
    if i < p {
        assert(accounts.insert(p, a)[i].id == id);
    } else {
        assert(accounts.insert(p, a)[i + 1].id == id);
    }
}

proof fn lemma_has_category_insert(categories: Seq<Category>, p: int, c: Category, id: u128)
    requires
        0 <= p <= categories.len(),
        has_category(categories, id),
    ensures
        has_category(categories.insert(p, c), id),
{
    let i = choose|i: int| 0 <= i < categories.len() && (#[trigger] categories[i]).id == id;
    categories.insert_ensures(p, c);
    if i < p {
        assert(categories.insert(p, c)[i].id == id);
    } else {
        assert(categories.insert(p, c)[i + 1].id == id);
    }
}

impl Ledger {
    pub closed spec fn wf(&self) -> bool {
        self@.wf() && self.notifier.wf()
    }

    /// The id that the next observer to register gets.
    pub closed spec fn next_observer_id(&self) -> u64 {
        self.notifier.next_id()
    }

    /// Whether another observer can still register.
    pub open spec fn can_subscribe(&self) -> bool {
        self.next_observer_id() < u64::MAX
    }

    /// An empty ledger with no observers.
    pub fn new() -> (r: Ledger)
        ensures
            r.wf(),
            r.can_subscribe(),
            r@.accounts.len() == 0,
            r@.categories.len() == 0,
            r@.transactions.len() == 0,
            r@.subscribers.len() == 0,
    {
        let r = Ledger {
            accounts: Vec::new(),
            categories: Vec::new(),
            transactions: Vec::new(),
            notifier: ChangeNotifier::new(),
        };
        assert(r@.transactions =~= Seq::<TransactionView>::empty());
        r
    }

    proof fn lemma_view_transactions(&self)
        ensures
            self@.transactions.len() == self.transactions@.len(),
            forall|i: int|
                0 <= i < self.transactions@.len() ==> #[trigger] self@.transactions[i]
                    == self.transactions@[i]@,
    {
    }

    fn publish(&mut self)
        requires
            old(self).notifier.wf(),
        ensures
            final(self).notifier.wf(),
            final(self).notifier.next_id() == old(self).notifier.next_id(),
            final(self).accounts == old(self).accounts,
            final(self).categories == old(self).categories,
            final(self).transactions == old(self).transactions,
            final(self)@.subscribers == all_bumped(old(self)@.subscribers),
    {
        self.notifier.publish();
        assert(self@.subscribers =~= all_bumped(old(self)@.subscribers));
    }

    fn account_index(&self, id: u128) -> (r: Option<usize>)
        ensures
            r matches Some(i) ==> i < self@.accounts.len() && self@.accounts[i as int].id == id,
            r is None <==> !has_account(self@.accounts, id),
    {
        let mut i: usize = 0;
        while i < self.accounts.len()
            invariant
                i <= self.accounts@.len(),
                forall|k: int| 0 <= k < i ==> self.accounts@[k].id != id,
            decreases self.accounts@.len() - i,
        {
            if self.accounts[i].id == id {
                return Some(i);
            }
            i = i + 1;
        }
        None
    }

    fn category_index(&self, id: u128) -> (r: Option<usize>)
        ensures
            r matches Some(i) ==> i < self@.categories.len() && self@.categories[i as int].id == id,
            r is None <==> !has_category(self@.categories, id),
    {
        let mut i: usize = 0;
        while i < self.categories.len()
            invariant
                i <= self.categories@.len(),
                forall|k: int| 0 <= k < i ==> self.categories@[k].id != id,
            decreases self.categories@.len() - i,
        {
            if self.categories[i].id == id {
                return Some(i);
            }
            i = i + 1;
        }
        None
    }

    fn transaction_index(&self, id: u128) -> (r: Option<usize>)
        ensures
            r matches Some(i) ==> i < self@.transactions.len() && self@.transactions[i as int].id
                == id && forall|k: int| 0 <= k < i ==> self@.transactions[k].id != id,
            r is None <==> !has_transaction(self@.transactions, id),
    {
        proof {
            self.lemma_view_transactions();
        }
        let mut i: usize = 0;
        while i < self.transactions.len()
            invariant
                i <= self.transactions@.len(),
                self@.transactions.len() == self.transactions@.len(),
                forall|k: int| 0 <= k < self.transactions@.len() ==> #[trigger] self@.transactions[k] == self.transactions@[k]@,
                forall|k: int| 0 <= k < i ==> self@.transactions[k].id != id,
            decreases self.transactions@.len() - i,
        {
            if self.transactions[i].id == id {
                return Some(i);
            }
            i = i + 1;
        }
        None
    }

    /// All accounts, newest created first, each with its balance.
    pub fn list_accounts(&self) -> (r: Vec<Account>)
        requires
            self.wf(),
        ensures
            r@ == self@.accounts,
            accounts_ordered(r@),
            account_ids_unique(r@),
    {
        let mut r: Vec<Account> = Vec::new();
        let mut i: usize = 0;
        while i < self.accounts.len()
            invariant
                i <= self.accounts@.len(),
                r@ == self.accounts@.subrange(0, i as int),
            decreases self.accounts@.len() - i,
        {
            r.push(self.accounts[i].duplicate());
            i = i + 1;
            assert(r@ =~= self.accounts@.subrange(0, i as int));
        }
        assert(self.accounts@ =~= self.accounts@.subrange(0, i as int));
        r
    }

    /// All categories in alphabetical order of name.
    pub fn list_categories(&self) -> (r: Vec<Category>)
        requires
            self.wf(),
        ensures
            r@ == self@.categories,
            categories_ordered(r@),
            category_ids_unique(r@),
    {
        let mut r: Vec<Category> = Vec::new();
        let mut i: usize = 0;
        while i < self.categories.len()
            invariant
                i <= self.categories@.len(),
                r@ == self.categories@.subrange(0, i as int),
            decreases self.categories@.len() - i,
        {
            r.push(self.categories[i].duplicate());
            i = i + 1;
            assert(r@ =~= self.categories@.subrange(0, i as int));
        }
        assert(self.categories@ =~= self.categories@.subrange(0, i as int));
        r
    }

    /// All transactions with their splits, latest business date first; among equal
    /// dates the latest created first.
    pub fn list_transactions(&self) -> (r: Vec<Transaction>)
        requires
            self.wf(),
        ensures
            r@.map_values(|t: Transaction| t@) == self@.transactions,
            transactions_ordered(self@.transactions),
            transaction_ids_unique(self@.transactions),
    {
        proof {
            self.lemma_view_transactions();
        }
        let mut r: Vec<Transaction> = Vec::new();
        let mut i: usize = 0;
        while i < self.transactions.len()
            invariant
                i <= self.transactions@.len(),
                self@.transactions.len() == self.transactions@.len(),
                forall|k: int| 0 <= k < self.transactions@.len() ==> #[trigger] self@.transactions[k] == self.transactions@[k]@,
                r@.len() == i,
                forall|k: int| 0 <= k < i ==> #[trigger] r@[k]@ == self@.transactions[k],
            decreases self.transactions@.len() - i,
        {
            let t = self.transactions[i].duplicate();
            r.push(t);
            i = i + 1;
        }
        assert(r@.map_values(|t: Transaction| t@) =~= self@.transactions);
        r
    }

    /// The transaction with the given id, with its splits.
    pub fn get_transaction(&self, id: u128) -> (r: Result<Transaction, LedgerError>)
        ensures
            r is Err <==> !has_transaction(self@.transactions, id),
            r is Err ==> r == Err::<Transaction, LedgerError>(LedgerError::NotFound),
            r matches Ok(t) ==> exists|i: int|
                0 <= i < self@.transactions.len() && t@ == self@.transactions[i] && t.id == id,
    {
        proof {
            self.lemma_view_transactions();
        }
        match self.transaction_index(id) {
            Some(i) => {
                let t = self.transactions[i].duplicate();
                assert(t@ == self@.transactions[i as int]);
                Ok(t)
            },
            None => Err(LedgerError::NotFound),
        }
    }
    /// Adds an account with the given id and creation time and a zero balance. A name
    /// that is blank once trimmed is refused; so is an id that is already taken.
    pub fn create_account_with(&mut self, name: String, kind: AccountKind, id: u128, now: Timestamp) -> (r: Result<Account, LedgerError>)
        requires
            old(self).wf(),
        ensures
            final(self).wf(),
            final(self).next_observer_id() == old(self).next_observer_id(),
            account_created(old(self)@, final(self)@, name, kind, id, now, r),
    {
        if text_is_blank(name.as_str()) {
            return Err(LedgerError::Validation);
        }
        if self.account_index(id).is_some() {
            return Err(LedgerError::Internal);
        }
        let mut p: usize = 0;
        while p < self.accounts.len() && self.accounts[p].created_at.unix_nanos > now.unix_nanos
            invariant
                p <= self.accounts@.len(),
                forall|k: int| 0 <= k < p ==> (#[trigger] self.accounts@[k]).created_at.unix_nanos > now.unix_nanos,
            decreases self.accounts@.len() - p,
        {
            p = p + 1;
        }
        let account = Account { id, name, kind, balance: 0, created_at: now };
        proof {
            lemma_account_insert_keeps_wf(self@, p as int, account);
        }
        let result = account.duplicate();
        self.accounts.insert(p, account);
        self.publish();
        Ok(result)
    }

    /// Adds a category with the given id and creation time. A name that is already in
    /// use, compared exactly, is a conflict; an id that is already taken is refused.
    pub fn create_category_with(&mut self, name: String, id: u128, now: Timestamp) -> (r: Result<Category, LedgerError>)
        requires
            old(self).wf(),
        ensures
            final(self).wf(),
            final(self).next_observer_id() == old(self).next_observer_id(),
            category_created(old(self)@, final(self)@, name, id, now, r),
    {
        let n = self.categories.len();
        let mut p: usize = 0;
        while p < n && text_less(self.categories[p].name.as_str(), name.as_str())
            invariant
                *self == *old(self),
                n == self.categories@.len(),
                p <= n,
                forall|k: int| 0 <= k < p ==> seq_less((#[trigger] self.categories@[k]).name@, name@),
            decreases n - p,
        {
            p = p + 1;
        }
        if p < n && text_equals(self.categories[p].name.as_str(), name.as_str()) {
            return Err(LedgerError::Conflict);
        }
        let ghost cats = self@.categories;
        proof {
            // Past `p` every name is greater: the one at `p` is, and the order is strict.
            if p < n {
                lemma_less_total(cats[p as int].name@, name@);
                assert(seq_less(name@, cats[p as int].name@));
                assert forall|k: int| p < k < n implies seq_less(name@, (#[trigger] cats[k]).name@) by {
                    lemma_less_transitive(name@, cats[p as int].name@, cats[k].name@);
                }
            }
            assert(category_slot(cats, p as int, name@));
            assert(!has_category_name(cats, name@)) by {
                if has_category_name(cats, name@) {
                    let i = choose|i: int| 0 <= i < cats.len() && (#[trigger] cats[i]).name@ == name@;
                    lemma_less_irreflexive(name@);
                }
            }
        }
        if self.category_index(id).is_some() {
            return Err(LedgerError::Internal);
        }
        let category = Category { id, name, created_at: now };
        let ghost old_view = self@;
        proof {
            cats.insert_ensures(p as int, category);
            let ncats = cats.insert(p as int, category);
            assert forall|i: int, j: int| 0 <= i < j < ncats.len() implies (#[trigger] ncats[i]).id != (#[trigger] ncats[j]).id by {
                if j < p { assert(ncats[i] == cats[i] && ncats[j] == cats[j]); }
                else if j == p { assert(ncats[i] == cats[i]); }
                else if i < p { assert(ncats[i] == cats[i] && ncats[j] == cats[j - 1]); }
                else if i == p { assert(ncats[j] == cats[j - 1]); }
                else { assert(ncats[i] == cats[i - 1] && ncats[j] == cats[j - 1]); }
            }
            assert forall|i: int, j: int| 0 <= i < j < ncats.len() implies seq_less((#[trigger] ncats[i]).name@, (#[trigger] ncats[j]).name@) by {
                if j < p { assert(ncats[i] == cats[i] && ncats[j] == cats[j]); }
                else if j == p { assert(ncats[i] == cats[i]); }
                else if i < p {
                    assert(ncats[i] == cats[i] && ncats[j] == cats[j - 1]);
                    lemma_less_transitive(cats[i].name@, name@, cats[j - 1].name@);
                }
                else if i == p { assert(ncats[j] == cats[j - 1]); }
                else { assert(ncats[i] == cats[i - 1] && ncats[j] == cats[j - 1]); }
            }
            let ts = old_view.transactions;
            assert forall|k: int| 0 <= k < ts.len() implies transaction_ok(#[trigger] ts[k], old_view.accounts, ncats) by {
                let t = ts[k];
                assert(transaction_ok(t, old_view.accounts, cats));
                assert forall|m: int| 0 <= m < t.splits.len() implies split_ok(#[trigger] t.splits[m], t.id, ncats) by {
                    assert(split_ok(t.splits[m], t.id, cats));
                    lemma_has_category_insert(cats, p as int, category, t.splits[m].category_id);
                }
            }
        }
        let result = category.duplicate();
        self.categories.insert(p, category);
        self.publish();
        assert(category_slot(old(self)@.categories, p as int, name@));
        assert(inserted_in_order(old(self)@.categories, self@.categories, result));
        Ok(result)
    }
    fn build_splits(input: &CreateTransaction, id: u128) -> (r: Vec<TransactionSplit>)
        ensures
            r@ == splits_for(id, requested_splits(*input)),
    {
        let mut r: Vec<TransactionSplit> = Vec::new();
        match &input.splits {
            Some(v) => {
                let mut i: usize = 0;
                while i < v.len()
                    invariant
                        i <= v@.len(),
                        input.splits == Some(*v),
                        r@.len() == i,
                        forall|k: int| 0 <= k < i ==> #[trigger] r@[k] == splits_for(id, v@)[k],
                    decreases v@.len() - i,
                {
                    r.push(TransactionSplit { transaction_id: id, category_id: v[i].category_id, amount: v[i].amount });
                    i = i + 1;
                }
                assert(r@ =~= splits_for(id, v@));
            },
            None => {
                assert(r@ =~= splits_for(id, requested_splits(*input)));
            },
        }
        r
    }

    fn split_error(&self, splits: &Vec<TransactionSplit>, amount: i64) -> (r: Option<LedgerError>)
        requires
            amount >= 0,
        ensures
            r == split_error(self@.categories, splits@, amount),
    {
        let ghost ss = splits@;
        let n = splits.len();
        let mut i: usize = 0;
        while i < n
            invariant
                n == ss.len(),
                splits@ == ss,
                i <= n,
                forall|k: int| 0 <= k < i ==> (#[trigger] ss[k]).amount >= 0,
            decreases n - i,
        {
            if splits[i].amount < 0 {
                assert(ss[i as int].amount < 0);
                return Some(LedgerError::Validation);
            }
            i = i + 1;
        }
        let mut i: usize = 0;
        while i < n
            invariant
                n == ss.len(),
                splits@ == ss,
                i <= n,
                forall|k: int| 0 <= k < n ==> (#[trigger] ss[k]).amount >= 0,
                forall|k: int| 0 <= k < i ==> has_category(self@.categories, (#[trigger] ss[k]).category_id),
            decreases n - i,
        {
            if self.category_index(splits[i].category_id).is_none() {
                assert(!has_category(self@.categories, ss[i as int].category_id));
                return Some(LedgerError::NotFound);
            }
            i = i + 1;
        }
        let mut total: i128 = 0;
        let mut i: usize = 0;
        while i < n
            invariant
                n == ss.len(),
                splits@ == ss,
                i <= n,
                0 <= amount,
                forall|k: int| 0 <= k < n ==> (#[trigger] ss[k]).amount >= 0,
                forall|k: int| 0 <= k < n ==> has_category(self@.categories, (#[trigger] ss[k]).category_id),
                total == split_total(ss.subrange(0, i as int)),
                total <= amount,
            decreases n - i,
        {
            assert(ss.subrange(0, i + 1).drop_last() =~= ss.subrange(0, i as int));
            total = total + splits[i].amount as i128;
            i = i + 1;
            if total > amount as i128 {
                proof { lemma_split_total_prefix(ss, i as int); }
                return Some(LedgerError::Validation);
            }
        }
        assert(ss.subrange(0, n as int) =~= ss);
        None
    }

    /// Records a transaction under the given id and time, with its splits, and moves
    /// its account's balance by its signed amount, all at once. On any error nothing
    /// changes; see `creation_error` for the errors and their order.
    pub fn create_transaction_with(&mut self, input: CreateTransaction, id: u128, now: Timestamp) -> (r: Result<Transaction, LedgerError>)
        requires
            old(self).wf(),
        ensures
            final(self).wf(),
            final(self).next_observer_id() == old(self).next_observer_id(),
            transaction_created(old(self)@, final(self)@, input, id, now, r),
    {
        let ghost v = self@;
        if input.amount < 0 {
            return Err(LedgerError::Validation);
        }
        let j = match self.account_index(input.account_id) {
            Some(j) => j,
            None => { return Err(LedgerError::NotFound); },
        };
        let splits = Self::build_splits(&input, id);
        let ghost ss = splits@;
        if let Some(e) = self.split_error(&splits, input.amount) {
            return Err(e);
        }
        if self.transaction_index(id).is_some() {
            return Err(LedgerError::Internal);
        }
        let delta: i128 = match input.direction {
            TransactionDirection::Income => input.amount as i128,
            TransactionDirection::Expense => -(input.amount as i128),
            TransactionDirection::Transfer => 0,
        };
        let balance = self.accounts[j].balance as i128 + delta;
        assert(self@.accounts[j as int].balance == derived_balance(v.transactions, input.account_id));
        if balance < i64::MIN as i128 || balance > i64::MAX as i128 {
            return Err(LedgerError::Validation);
        }
        let occurred_at = match input.occurred_at {
            Some(t) => t,
            None => now,
        };
        let txn = Transaction {
            id,
            account_id: input.account_id,
            amount: input.amount,
            direction: input.direction,
            description: copy_text_option(&input.description),
            occurred_at,
            splits,
            created_at: now,
            updated_at: now,
        };
        assert(txn@ == new_transaction(input, id, now));
        proof { self.lemma_view_transactions(); }
        let tn = self.transactions.len();
        let mut p: usize = 0;
        while p < tn && (self.transactions[p].occurred_at.unix_nanos > occurred_at.unix_nanos
            || (self.transactions[p].occurred_at.unix_nanos == occurred_at.unix_nanos
            && self.transactions[p].created_at.unix_nanos > now.unix_nanos))
            invariant
                tn == self.transactions@.len(),
                *self == *old(self),
                self.wf(),
                v == old(self)@,
                ss == splits_for(id, requested_splits(input)),
                input.amount >= 0,
                has_account(v.accounts, input.account_id),
                self@ == v,
                txn@.occurred_at == occurred_at,
                txn@.created_at == now,
                p <= tn,
                v.transactions.len() == tn,
                forall|k: int| 0 <= k < tn ==> #[trigger] v.transactions[k] == self.transactions@[k]@,
                forall|k: int| 0 <= k < p ==> strictly_precedes(#[trigger] v.transactions[k], txn@),
            decreases tn - p,
        {
            assert(v.transactions[p as int] == self.transactions@[p as int]@);
            p = p + 1;
        }
        let ghost t = txn@;
        let ghost nacc = credited(v.accounts, input.account_id, delta as int);
        let ghost nts = v.transactions.insert(p as int, t);
        proof {
            if p < tn {
                assert forall|k: int| p <= k < tn implies precedes(t, #[trigger] v.transactions[k]) by {
                    assert(precedes(v.transactions[p as int], v.transactions[k]) || k == p);
                }
            }
            assert forall|m: int| 0 <= m < t.splits.len() implies split_ok(#[trigger] t.splits[m], t.id, v.categories) by {
                assert(has_category(v.categories, ss[m].category_id));
            }
            lemma_commit_keeps_wf(v, p as int, t, j as int, delta as int);
        }
        let result = txn.duplicate();
        self.transactions.insert(p, txn);
        self.set_balance(j, balance as i64);
        self.publish();
        proof {
            assert(self@.transactions =~= nts);
            assert(self@.accounts =~= nacc);
        }
        Ok(result)
    }
    fn set_balance(&mut self, j: usize, balance: i64)
        requires
            j < old(self).accounts@.len(),
        ensures
            final(self).accounts@ == old(self).accounts@.update(j as int, with_balance(old(self).accounts@[j as int], balance as int)),
            final(self).categories == old(self).categories,
            final(self).transactions == old(self).transactions,
            final(self).notifier == old(self).notifier,
    {
        let a = &self.accounts[j];
        let updated = Account {
            id: a.id,
            name: a.name.clone(),
            kind: a.kind,
            balance,
            created_at: a.created_at,
        };
        self.accounts.set(j, updated);
    }

    /// Removes the first transaction with the given id, with its splits, and moves its
    /// account back by its signed amount, all at once. Fails with NotFound when no
    /// transaction has that id, and with Validation when the balance would leave the
    /// range of `i64`; then nothing changes.
    pub fn delete_transaction(&mut self, id: u128) -> (r: Result<(), LedgerError>)
        requires
            old(self).wf(),
        ensures
            final(self).wf(),
            final(self).next_observer_id() == old(self).next_observer_id(),
            !has_transaction(old(self)@.transactions, id) ==> r == Err::<(), LedgerError>(LedgerError::NotFound),
            r is Err ==> final(self)@ == old(self)@,
            has_transaction(old(self)@.transactions, id) ==> exists|j: int|
                #[trigger] first_with_id(old(self)@.transactions, j, id)
                && removal_outcome(old(self)@, final(self)@, r, j),
    {
        let ghost v = self@;
        proof { self.lemma_view_transactions(); }
        let j = match self.transaction_index(id) {
            Some(j) => j,
            None => { return Err(LedgerError::NotFound); },
        };
        let ghost t = v.transactions[j as int];
        assert(transaction_ok(t, v.accounts, v.categories));
        let account_id = self.transactions[j].account_id;
        let a = match self.account_index(account_id) {
            Some(a) => a,
            None => { return Err(LedgerError::Internal); },
        };
        let amount = self.transactions[j].amount;
        let delta: i128 = match self.transactions[j].direction {
            TransactionDirection::Income => amount as i128,
            TransactionDirection::Expense => -(amount as i128),
            TransactionDirection::Transfer => 0,
        };
        assert(delta == signed_amount(t));
        assert(first_with_id(v.transactions, j as int, id));
        let balance = self.accounts[a].balance as i128 - delta;
        assert(self@.accounts[a as int].balance == derived_balance(v.transactions, account_id));
        if balance < i64::MIN as i128 || balance > i64::MAX as i128 {
            return Err(LedgerError::Validation);
        }
        proof { lemma_uncommit_keeps_wf(v, j as int, a as int); }
        self.transactions.remove(j);
        self.set_balance(a, balance as i64);
        self.publish();
        proof {
            assert(self@.transactions =~= v.transactions.remove(j as int));
            assert forall|k: int| 0 <= k < v.accounts.len() implies v.accounts[k].id == account_id ==> k == a by {
                if k != a { assert(v.accounts[k].id != v.accounts[a as int].id); }
            }
            assert(self@.accounts =~= credited(v.accounts, account_id, -signed_amount(t)));
        }
        Ok(())
    }

    /// Removes the account with the given id together with all of its transactions and
    /// their splits, at once; NotFound when there is no such account.
    pub fn delete_account(&mut self, id: u128) -> (r: Result<(), LedgerError>)
        requires
            old(self).wf(),
        ensures
            final(self).wf(),
            final(self).next_observer_id() == old(self).next_observer_id(),
            r is Err <==> !has_account(old(self)@.accounts, id),
            r is Err ==> r == Err::<(), LedgerError>(LedgerError::NotFound) && final(self)@ == old(self)@,
            r is Ok ==> {
                &&& exists|j: int| 0 <= j < old(self)@.accounts.len() && old(self)@.accounts[j].id == id
                    && final(self)@.accounts == old(self)@.accounts.remove(j)
                &&& !has_account(final(self)@.accounts, id)
                &&& final(self)@.transactions == old(self)@.transactions.filter(not_of_account(id))
                &&& forall|k: int| 0 <= k < final(self)@.transactions.len() ==> (#[trigger] final(self)@.transactions[k]).account_id != id
                &&& final(self)@.categories == old(self)@.categories
                &&& final(self)@.subscribers == all_bumped(old(self)@.subscribers)
            },
    {
        let ghost v = self@;
        let j = match self.account_index(id) {
            Some(j) => j,
            None => { return Err(LedgerError::NotFound); },
        };
        proof { self.lemma_view_transactions(); }
        let ghost ts = v.transactions;
        let n = self.transactions.len();
        let mut kept: Vec<Transaction> = Vec::new();
        let mut i: usize = 0;
        while i < n
            invariant
                *self == *old(self),
                self@ == v,
                ts == v.transactions,
                n == ts.len(),
                n == self.transactions@.len(),
                forall|k: int| 0 <= k < n ==> #[trigger] ts[k] == self.transactions@[k]@,
                i <= n,
                kept@.len() == ts.subrange(0, i as int).filter(not_of_account(id)).len(),
                forall|k: int| 0 <= k < kept@.len() ==> #[trigger] kept@[k]@ == ts.subrange(0, i as int).filter(not_of_account(id))[k],
            decreases n - i,
        {
            proof {
                reveal(Seq::filter);
                assert(ts.subrange(0, i + 1).drop_last() =~= ts.subrange(0, i as int));
            }
            if self.transactions[i].account_id != id {
                kept.push(self.transactions[i].duplicate());
            }
            i = i + 1;
        }
        proof {
            assert(ts.subrange(0, n as int) =~= ts);
            lemma_account_cascade_keeps_wf(v, j as int);
        }
        self.accounts.remove(j);
        self.transactions = kept;
        self.publish();
        assert(self@.transactions =~= ts.filter(not_of_account(id)));
        assert forall|k: int| 0 <= k < self@.transactions.len() implies (#[trigger] self@.transactions[k]).account_id != id by {
            lemma_filter_member(ts, not_of_account(id), k);
        }
        assert forall|k: int| 0 <= k < self@.accounts.len() implies (#[trigger] self@.accounts[k]).id != id by {
            let kk = if k < j { k } else { k + 1 };
            assert(self@.accounts[k] == v.accounts[kk]);
            assert(v.accounts[kk].id != v.accounts[j as int].id);
        }
        Ok(())
    }

    fn splits_without(splits: &Vec<TransactionSplit>, category: u128) -> (r: Vec<TransactionSplit>)
        ensures
            r@ == splits@.filter(not_in_category(category)),
    {
        let ghost ss = splits@;
        let mut r: Vec<TransactionSplit> = Vec::new();
        let mut i: usize = 0;
        while i < splits.len()
            invariant
                ss == splits@,
                i <= ss.len(),
                r@ == ss.subrange(0, i as int).filter(not_in_category(category)),
            decreases ss.len() - i,
        {
            proof {
                reveal(Seq::filter);
                assert(ss.subrange(0, i + 1).drop_last() =~= ss.subrange(0, i as int));
            }
            if splits[i].category_id != category {
                r.push(splits[i]);
            }
            i = i + 1;
        }
        assert(ss.subrange(0, ss.len() as int) =~= ss);
        r
    }

    /// Removes the category with the given id and every split that names it, at once;
    /// the transactions that owned those splits stay. NotFound when there is no such
    /// category.
    pub fn delete_category(&mut self, id: u128) -> (r: Result<(), LedgerError>)
        requires
            old(self).wf(),
        ensures
            final(self).wf(),
            final(self).next_observer_id() == old(self).next_observer_id(),
            r is Err <==> !has_category(old(self)@.categories, id),
            r is Err ==> r == Err::<(), LedgerError>(LedgerError::NotFound) && final(self)@ == old(self)@,
            r is Ok ==> {
                &&& exists|j: int| 0 <= j < old(self)@.categories.len() && old(self)@.categories[j].id == id
                    && final(self)@.categories == old(self)@.categories.remove(j)
                &&& !has_category(final(self)@.categories, id)
                &&& final(self)@.transactions == strip_category(old(self)@.transactions, id)
                &&& final(self)@.transactions.len() == old(self)@.transactions.len()
                &&& forall|k: int, m: int| 0 <= k < final(self)@.transactions.len() && 0 <= m < final(self)@.transactions[k].splits.len()
                    ==> (#[trigger] final(self)@.transactions[k].splits[m]).category_id != id
                &&& final(self)@.accounts == old(self)@.accounts
                &&& final(self)@.subscribers == all_bumped(old(self)@.subscribers)
            },
    {
        let ghost v = self@;
        let j = match self.category_index(id) {
            Some(j) => j,
            None => { return Err(LedgerError::NotFound); },
        };
        proof {
            self.lemma_view_transactions();
            lemma_category_cascade_keeps_wf(v, j as int);
        }
        let ghost ts = v.transactions;
        let n = self.transactions.len();
        let mut i: usize = 0;
        while i < n
            invariant
                self.accounts == old(self).accounts,
                self.categories == old(self).categories,
                self.notifier == old(self).notifier,
                ts == v.transactions,
                v == old(self)@,
                n == ts.len(),
                n == self.transactions@.len(),
                i <= n,
                forall|k: int| 0 <= k < i ==> #[trigger] self.transactions@[k]@ == without_category(ts[k], id),
                forall|k: int| i <= k < n ==> #[trigger] self.transactions@[k]@ == ts[k],
            decreases n - i,
        {
            let t = &self.transactions[i];
            let stripped = Transaction {
                id: t.id,
                account_id: t.account_id,
                amount: t.amount,
                direction: t.direction,
                description: copy_text_option(&t.description),
                occurred_at: t.occurred_at,
                splits: Self::splits_without(&t.splits, id),
                created_at: t.created_at,
                updated_at: t.updated_at,
            };
            assert(ts[i as int] == self.transactions@[i as int]@);
            assert(stripped@.splits == ts[i as int].splits.filter(not_in_category(id)));
            assert(stripped@ == without_category(ts[i as int], id));
            self.transactions.set(i, stripped);
            i = i + 1;
        }
        self.categories.remove(j);
        self.publish();
        assert forall|k: int| 0 <= k < self@.categories.len() implies (#[trigger] self@.categories[k]).id != id by {
            let kk = if k < j { k } else { k + 1 };
            assert(self@.categories[k] == v.categories[kk]);
            assert(v.categories[kk].id != v.categories[j as int].id);
        }
        assert(self@.transactions =~= strip_category(ts, id));
        assert forall|k: int, m: int| 0 <= k < self@.transactions.len() && 0 <= m < self@.transactions[k].splits.len()
            implies (#[trigger] self@.transactions[k].splits[m]).category_id != id by {
            lemma_filter_member(ts[k].splits, not_in_category(id), m);
        }
        Ok(())
    }
    /// Adds an account under a fresh identifier, created now.
    pub fn create_account(&mut self, name: String, kind: AccountKind) -> (r: Result<Account, LedgerError>)
        requires
            old(self).wf(),
        ensures
            final(self).wf(),
            final(self).next_observer_id() == old(self).next_observer_id(),
            exists|id: u128, now: Timestamp| #[trigger] account_created(old(self)@, final(self)@, name, kind, id, now, r),
    {
        let id = new_id();
        let now = now_utc();
        self.create_account_with(name, kind, id, now)
    }

    /// Adds a category under a fresh identifier, created now.
    pub fn create_category(&mut self, name: String) -> (r: Result<Category, LedgerError>)
        requires
            old(self).wf(),
        ensures
            final(self).wf(),
            final(self).next_observer_id() == old(self).next_observer_id(),
            exists|id: u128, now: Timestamp| #[trigger] category_created(old(self)@, final(self)@, name, id, now, r),
    {
        let id = new_id();
        let now = now_utc();
        self.create_category_with(name, id, now)
    }

    /// Records a transaction under a fresh identifier, created now; without a business
    /// date it takes the current time.
    pub fn create_transaction(&mut self, input: CreateTransaction) -> (r: Result<Transaction, LedgerError>)
        requires
            old(self).wf(),
        ensures
            final(self).wf(),
            final(self).next_observer_id() == old(self).next_observer_id(),
            exists|id: u128, now: Timestamp| #[trigger] transaction_created(old(self)@, final(self)@, input, id, now, r),
    {
        let id = new_id();
        let now = now_utc();
        self.create_transaction_with(input, id, now)
    }

    /// Registers an observer of change signals; it sees only the changes made from now
    /// on. `None` once every observer id has been handed out.
    pub fn subscribe_to_changes(&mut self) -> (r: Option<u64>)
        requires
            old(self).wf(),
        ensures
            final(self).wf(),
            final(self)@.accounts == old(self)@.accounts,
            final(self)@.categories == old(self)@.categories,
            final(self)@.transactions == old(self)@.transactions,
            r is Some <==> old(self).can_subscribe(),
            r matches Some(id) ==> {
                &&& id == old(self).next_observer_id()
                &&& final(self).next_observer_id() == id + 1
                &&& forall|i: int| 0 <= i < old(self)@.subscribers.len() ==> old(self)@.subscribers[i].id != id
                &&& final(self)@.subscribers == old(self)@.subscribers.push(Subscriber { id, pending: 0 })
            },
            r is None ==> final(self)@ == old(self)@ && final(self).next_observer_id() == old(self).next_observer_id(),
    {
        assert(self@.subscribers == self.notifier@);
        let r = self.notifier.subscribe();
        assert(self@.subscribers == self.notifier@);
        r
    }

    /// Stops an observer's signals; gives whether it was registered.
    pub fn unsubscribe(&mut self, id: u64) -> (r: bool)
        requires
            old(self).wf(),
        ensures
            final(self).wf(),
            final(self).next_observer_id() == old(self).next_observer_id(),
            final(self)@.accounts == old(self)@.accounts,
            final(self)@.categories == old(self)@.categories,
            final(self)@.transactions == old(self)@.transactions,
            r == exists|i: int| 0 <= i < old(self)@.subscribers.len() && old(self)@.subscribers[i].id == id,
            r ==> exists|i: int|
                0 <= i < old(self)@.subscribers.len() && old(self)@.subscribers[i].id == id
                    && final(self)@.subscribers == old(self)@.subscribers.remove(i),
            !r ==> final(self)@.subscribers == old(self)@.subscribers,
    {
        assert(self@.subscribers == self.notifier@);
        let r = self.notifier.unsubscribe(id);
        assert(self@.subscribers == self.notifier@);
        r
    }

    /// Takes the change signals pending for an observer: their number, or `None` for
    /// an id that is not registered.
    pub fn take_changes(&mut self, id: u64) -> (r: Option<u64>)
        requires
            old(self).wf(),
        ensures
            final(self).wf(),
            final(self).next_observer_id() == old(self).next_observer_id(),
            final(self)@.accounts == old(self)@.accounts,
            final(self)@.categories == old(self)@.categories,
            final(self)@.transactions == old(self)@.transactions,
            r is None <==> forall|i: int| 0 <= i < old(self)@.subscribers.len() ==> old(self)@.subscribers[i].id != id,
            r is None ==> final(self)@.subscribers == old(self)@.subscribers,
            r matches Some(n) ==> exists|i: int|
                0 <= i < old(self)@.subscribers.len() && old(self)@.subscribers[i].id == id
                    && n == old(self)@.subscribers[i].pending
                    && final(self)@.subscribers == old(self)@.subscribers.update(i, Subscriber { id, pending: 0 }),
    {
        assert(self@.subscribers == self.notifier@);
        let r = self.notifier.take(id);
        assert(self@.subscribers == self.notifier@);
        r
    }
}


/// Balance invariant: in every state that the operations reach, each account's balance
/// is the sum of its incomes minus the sum of its expenses; transfers count for nothing.
pub proof fn law_balance_matches_history(l: &Ledger)
    requires
        l.wf(),
    ensures
        forall|i: int|
            0 <= i < l@.accounts.len() ==> (#[trigger] l@.accounts[i]).balance == derived_balance(
                l@.transactions,
                l@.accounts[i].id,
            ),
{
}

/// Identity: no two accounts, no two categories and no two transactions share an id, so
/// the transaction that `get_transaction` and `delete_transaction` find is the only one
/// with its id.
pub proof fn law_ids_unique(l: &Ledger)
    requires
        l.wf(),
    ensures
        account_ids_unique(l@.accounts),
        category_ids_unique(l@.categories),
        transaction_ids_unique(l@.transactions),
{
}

/// Ordering: accounts are listed newest created first, categories in strictly
/// increasing alphabetical order of name.
pub proof fn law_accounts_and_categories_in_order(l: &Ledger)
    requires
        l.wf(),
    ensures
        accounts_ordered(l@.accounts),
        categories_ordered(l@.categories),
{
}

/// Ordering: transactions are listed latest business date first, and among equal
/// business dates latest created first.
pub proof fn law_transactions_in_order(l: &Ledger)
    requires
        l.wf(),
    ensures
        forall|i: int, j: int|
            0 <= i < j < l@.transactions.len() ==> precedes(
                #[trigger] l@.transactions[i],
                #[trigger] l@.transactions[j],
            ),
{
}

/// Ties: a transaction recorded after another with the same business date and the same
/// creation time is listed before it.
pub proof fn law_later_insert_listed_first(
    before: LedgerView,
    after: LedgerView,
    input: CreateTransaction,
    id: u128,
    now: Timestamp,
    r: Result<Transaction, LedgerError>,
    k: int,
)
    requires
        transaction_created(before, after, input, id, now, r),
        r is Ok,
        0 <= k < before.transactions.len(),
        before.transactions[k].occurred_at == new_transaction(input, id, now).occurred_at,
        before.transactions[k].created_at == now,
    ensures
        exists|p: int, q: int|
            0 <= p < q < after.transactions.len() && after.transactions[p] == new_transaction(input, id, now)
                && after.transactions[q] == before.transactions[k],
{
    let t = r->Ok_0@;
    let p = choose|p: int| transaction_slot(before.transactions, p, t) && after.transactions == before.transactions.insert(p, t);
    before.transactions.insert_ensures(p, t);
    assert(!strictly_precedes(before.transactions[k], t));
    assert(after.transactions[k + 1] == before.transactions[k]);
}

} // verus!
