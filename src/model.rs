//! The ledger's entities and the inputs and errors of its operations.
use vstd::prelude::*;
use crate::text::text_equals;

verus! {

/// The fixed set of account kinds.
#[derive(Clone, Copy, Debug, PartialEq, Eq, Structural)]
pub enum AccountKind {
    Checking,
    Savings,
    Credit,
    Cash,
}

pub open spec fn account_kind_text(k: AccountKind) -> Seq<char> {
    match k {
        AccountKind::Checking => "checking"@,
        AccountKind::Savings => "savings"@,
        AccountKind::Credit => "credit"@,
        AccountKind::Cash => "cash"@,
    }
}

impl AccountKind {
    /// The lower-case name under which the kind is stored and exchanged.
    pub fn as_str(&self) -> (r: &'static str)
        ensures
            r@ == account_kind_text(*self),
    {
        match self {
            AccountKind::Checking => "checking",
            AccountKind::Savings => "savings",
            AccountKind::Credit => "credit",
            AccountKind::Cash => "cash",
        }
    }

    /// Reads a kind from its lower-case name; any other text is a validation error.
    pub fn parse(s: &str) -> (r: Result<AccountKind, LedgerError>)
        ensures
            r matches Ok(k) ==> account_kind_text(k) == s@,
            r is Err ==> r == Err::<AccountKind, LedgerError>(LedgerError::Validation),
            r is Err <==> (forall|k: AccountKind| account_kind_text(k) != s@),
    {
        proof {
            reveal_strlit("checking");
            reveal_strlit("savings");
            reveal_strlit("credit");
            reveal_strlit("cash");
        }
        if text_equals(s, "checking") {
            assert(account_kind_text(AccountKind::Checking) == s@);
            Ok(AccountKind::Checking)
        } else if text_equals(s, "savings") {
            assert(account_kind_text(AccountKind::Savings) == s@);
            Ok(AccountKind::Savings)
        } else if text_equals(s, "credit") {
            assert(account_kind_text(AccountKind::Credit) == s@);
            Ok(AccountKind::Credit)
        } else if text_equals(s, "cash") {
            assert(account_kind_text(AccountKind::Cash) == s@);
            Ok(AccountKind::Cash)
        } else {
            proof {
                assert forall|k: AccountKind| account_kind_text(k) != s@ by {
                    match k {
                        AccountKind::Checking => {},
                        AccountKind::Savings => {},
                        AccountKind::Credit => {},
                        AccountKind::Cash => {},
                    }
                }
            }
            Err(LedgerError::Validation)
        }
    }
}

/// The semantic sign of a transaction.
#[derive(Clone, Copy, Debug, PartialEq, Eq, Structural)]
pub enum TransactionDirection {
    Income,
    Expense,
    Transfer,
}

pub open spec fn direction_text(d: TransactionDirection) -> Seq<char> {
    match d {
        TransactionDirection::Income => "income"@,
        TransactionDirection::Expense => "expense"@,
        TransactionDirection::Transfer => "transfer"@,
    }
}

impl TransactionDirection {
    /// The lower-case name under which the direction is stored and exchanged.
    pub fn as_str(&self) -> (r: &'static str)
        ensures
            r@ == direction_text(*self),
    {
        match self {
            TransactionDirection::Income => "income",
            TransactionDirection::Expense => "expense",
            TransactionDirection::Transfer => "transfer",
        }
    }
}

/// Reads a direction from its lower-case name; any other text is a validation error.
pub fn parse_direction(s: &str) -> (r: Result<TransactionDirection, LedgerError>)
    ensures
        r matches Ok(d) ==> direction_text(d) == s@,
        r is Err ==> r == Err::<TransactionDirection, LedgerError>(LedgerError::Validation),
        r is Err <==> (forall|d: TransactionDirection| direction_text(d) != s@),
{
    proof {
        reveal_strlit("income");
        reveal_strlit("expense");
        reveal_strlit("transfer");
    }
    if text_equals(s, "income") {
        assert(direction_text(TransactionDirection::Income) == s@);
        Ok(TransactionDirection::Income)
    } else if text_equals(s, "expense") {
        assert(direction_text(TransactionDirection::Expense) == s@);
        Ok(TransactionDirection::Expense)
    } else if text_equals(s, "transfer") {
        assert(direction_text(TransactionDirection::Transfer) == s@);
        Ok(TransactionDirection::Transfer)
    } else {
        proof {
            assert forall|d: TransactionDirection| direction_text(d) != s@ by {
                match d {
                    TransactionDirection::Income => {},
                    TransactionDirection::Expense => {},
                    TransactionDirection::Transfer => {},
                }
            }
        }
        Err(LedgerError::Validation)
    }
}

/// An instant, as nanoseconds since the Unix epoch (UTC).
#[derive(Clone, Copy, Debug, PartialEq, Eq, Structural)]
pub struct Timestamp {
    pub unix_nanos: i128,
}

/// The kinds of failure of a ledger operation; none of them leaves a partial change.
#[derive(Clone, Copy, Debug, PartialEq, Eq, Structural)]
pub enum LedgerError {
    /// Malformed or out-of-range input.
    Validation,
    /// A referenced entity is absent.
    NotFound,
    /// A uniqueness rule would be broken.
    Conflict,
    /// The store could not carry out the operation.
    Internal,
}

pub open spec fn error_text(e: LedgerError) -> Seq<char> {
    match e {
        LedgerError::Validation => "invalid input"@,
        LedgerError::NotFound => "not found"@,
        LedgerError::Conflict => "already exists"@,
        LedgerError::Internal => "internal error"@,
    }
}

impl LedgerError {
    /// A short text for the error, as the service reports it.
    pub fn message(&self) -> (r: &'static str)
        ensures
            r@ == error_text(*self),
    {
        match self {
            LedgerError::Validation => "invalid input",
            LedgerError::NotFound => "not found",
            LedgerError::Conflict => "already exists",
            LedgerError::Internal => "internal error",
        }
    }
}

/// A named bucket of money. `balance` is in cents and always equals the signed sum
/// of the account's transactions.
#[derive(Clone, Debug)]
pub struct Account {
    pub id: u128,
    pub name: String,
    pub kind: AccountKind,
    pub balance: i64,
    pub created_at: Timestamp,
}

/// A label for classifying transaction lines; names are unique.
#[derive(Clone, Debug)]
pub struct Category {
    pub id: u128,
    pub name: String,
    pub created_at: Timestamp,
}

/// The part of a transaction's amount (in cents) allotted to one category.
#[derive(Clone, Copy, Debug, PartialEq, Eq, Structural)]
pub struct TransactionSplit {
    pub transaction_id: u128,
    pub category_id: u128,
    pub amount: i64,
}

/// A single monetary event on an account, with the splits that it owns. The amount,
/// in cents, is never negative; its sign comes from the direction.
#[derive(Clone, Debug)]
pub struct Transaction {
    pub id: u128,
    pub account_id: u128,
    pub amount: i64,
    pub direction: TransactionDirection,
    pub description: Option<String>,
    pub occurred_at: Timestamp,
    pub splits: Vec<TransactionSplit>,
    pub created_at: Timestamp,
    pub updated_at: Timestamp,
}

/// One requested split of a new transaction.
#[derive(Clone, Copy, Debug, PartialEq, Eq, Structural)]
pub struct CreateSplit {
    pub category_id: u128,
    pub amount: i64,
}

/// The input of a transaction's creation. Without `occurred_at` the transaction takes
/// the time of its creation; without splits it is uncategorised.
#[derive(Clone, Debug)]
pub struct CreateTransaction {
    pub account_id: u128,
    pub amount: i64,
    pub direction: TransactionDirection,
    pub description: Option<String>,
    pub occurred_at: Option<Timestamp>,
    pub splits: Option<Vec<CreateSplit>>,
}

/// The value of a transaction, with texts and splits as sequences.
pub struct TransactionView {
    pub id: u128,
    pub account_id: u128,
    pub amount: i64,
    pub direction: TransactionDirection,
    pub description: Option<Seq<char>>,
    pub occurred_at: Timestamp,
    pub splits: Seq<TransactionSplit>,
    pub created_at: Timestamp,
    pub updated_at: Timestamp,
}

pub open spec fn text_option_view(t: Option<String>) -> Option<Seq<char>> {
    match t {
        Some(s) => Some(s@),
        None => None,
    }
}

impl View for Transaction {
    type V = TransactionView;

    open spec fn view(&self) -> TransactionView {
        TransactionView {
            id: self.id,
            account_id: self.account_id,
            amount: self.amount,
            direction: self.direction,
            description: text_option_view(self.description),
            occurred_at: self.occurred_at,
            splits: self.splits@,
            created_at: self.created_at,
            updated_at: self.updated_at,
        }
    }
}

pub fn copy_text_option(t: &Option<String>) -> (r: Option<String>)
    ensures
        r == *t,
{
    match t {
        Some(s) => Some(s.clone()),
        None => None,
    }
}

pub fn copy_splits(v: &Vec<TransactionSplit>) -> (r: Vec<TransactionSplit>)
    ensures
        r@ == v@,
{
    let mut r: Vec<TransactionSplit> = Vec::new();
    let mut i: usize = 0;
    while i < v.len()
        invariant
            i <= v@.len(),
            r@ == v@.subrange(0, i as int),
        decreases v@.len() - i,
    {
        r.push(v[i]);
        i = i + 1;
        assert(r@ =~= v@.subrange(0, i as int));
    }
    assert(v@ =~= v@.subrange(0, v@.len() as int));
    r
}

impl Account {
    pub fn duplicate(&self) -> (r: Account)
        ensures
            r == *self,
    {
        Account {
            id: self.id,
            name: self.name.clone(),
            kind: self.kind,
            balance: self.balance,
            created_at: self.created_at,
        }
    }
}

impl Category {
    pub fn duplicate(&self) -> (r: Category)
        ensures
            r == *self,
    {
        Category { id: self.id, name: self.name.clone(), created_at: self.created_at }
    }
}

impl Transaction {
    pub fn duplicate(&self) -> (r: Transaction)
        ensures
            r@ == self@,
    {
        Transaction {
            id: self.id,
            account_id: self.account_id,
            amount: self.amount,
            direction: self.direction,
            description: copy_text_option(&self.description),
            occurred_at: self.occurred_at,
            splits: copy_splits(&self.splits),
            created_at: self.created_at,
            updated_at: self.updated_at,
        }
    }
}

} // verus!
