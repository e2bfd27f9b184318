use ledger_core::ledger::Ledger;
use ledger_core::model::{
    AccountKind, CreateSplit, CreateTransaction, LedgerError, Timestamp, TransactionDirection,
    parse_direction,
};

fn at(n: i128) -> Timestamp {
    Timestamp { unix_nanos: n }
}

fn expense(account: u128, amount: i64, splits: Option<Vec<CreateSplit>>) -> CreateTransaction {
    CreateTransaction {
        account_id: account,
        amount,
        direction: TransactionDirection::Expense,
        description: None,
        occurred_at: None,
        splits,
    }
}

fn balance_of(l: &Ledger, id: u128) -> i64 {
    l.list_accounts().iter().find(|a| a.id == id).unwrap().balance
}

#[test]
fn concrete_scenario_main_account() {
    let mut l = Ledger::new();
    let main = l.create_account_with("Main".to_string(), AccountKind::Checking, 1, at(10)).unwrap();
    assert_eq!(main.balance, 0);
    let groceries = l.create_category_with("Groceries".to_string(), 2, at(10)).unwrap();
    let t = l
        .create_transaction_with(
            expense(1, 5000, Some(vec![CreateSplit { category_id: groceries.id, amount: 5000 }])),
            3,
            at(20),
        )
        .unwrap();
    assert_eq!(t.splits.len(), 1);
    assert_eq!(t.splits[0].transaction_id, 3);
    assert_eq!(balance_of(&l, 1), -5000);
    let income = CreateTransaction {
        account_id: 1,
        amount: 20000,
        direction: TransactionDirection::Income,
        description: Some("salary".to_string()),
        occurred_at: None,
        splits: None,
    };
    l.create_transaction_with(income, 4, at(30)).unwrap();
    assert_eq!(balance_of(&l, 1), 15000);
}

#[test]
fn transfer_leaves_balance_alone() {
    let mut l = Ledger::new();
    l.create_account_with("Main".to_string(), AccountKind::Checking, 1, at(10)).unwrap();
    let input = CreateTransaction {
        account_id: 1,
        amount: 700,
        direction: TransactionDirection::Transfer,
        description: None,
        occurred_at: None,
        splits: None,
    };
    l.create_transaction_with(input, 2, at(11)).unwrap();
    assert_eq!(balance_of(&l, 1), 0);
    assert_eq!(l.list_transactions().len(), 1);
}

#[test]
fn split_sum_violation_is_validation() {
    let mut l = Ledger::new();
    l.create_account_with("Main".to_string(), AccountKind::Checking, 1, at(10)).unwrap();
    l.create_category_with("Rent".to_string(), 2, at(10)).unwrap();
    l.create_category_with("Fun".to_string(), 3, at(10)).unwrap();
    let splits = vec![
        CreateSplit { category_id: 2, amount: 1000 },
        CreateSplit { category_id: 3, amount: 500 },
    ];
    let r = l.create_transaction_with(expense(1, 1000, Some(splits)), 4, at(20));
    assert_eq!(r.unwrap_err(), LedgerError::Validation);
    assert_eq!(balance_of(&l, 1), 0);
    assert!(l.list_transactions().is_empty());
}

#[test]
fn partial_split_is_accepted() {
    let mut l = Ledger::new();
    l.create_account_with("Main".to_string(), AccountKind::Cash, 1, at(10)).unwrap();
    l.create_category_with("Rent".to_string(), 2, at(10)).unwrap();
    let r = l.create_transaction_with(expense(1, 1000, Some(vec![CreateSplit { category_id: 2, amount: 400 }])), 4, at(20));
    assert!(r.is_ok());
    assert_eq!(balance_of(&l, 1), -1000);
}

#[test]
fn unknown_category_writes_nothing() {
    let mut l = Ledger::new();
    l.create_account_with("Main".to_string(), AccountKind::Checking, 1, at(10)).unwrap();
    l.create_category_with("Rent".to_string(), 2, at(10)).unwrap();
    let before_accounts = l.list_accounts().len();
    let splits = vec![CreateSplit { category_id: 99, amount: 10 }];
    let r = l.create_transaction_with(expense(1, 100, Some(splits)), 4, at(20));
    assert_eq!(r.unwrap_err(), LedgerError::NotFound);
    assert!(l.list_transactions().is_empty());
    assert_eq!(l.list_accounts().len(), before_accounts);
    assert_eq!(balance_of(&l, 1), 0);
}

#[test]
fn errors_of_transaction_creation() {
    let mut l = Ledger::new();
    l.create_account_with("Main".to_string(), AccountKind::Checking, 1, at(10)).unwrap();
    assert_eq!(l.create_transaction_with(expense(1, -5, None), 2, at(20)).unwrap_err(), LedgerError::Validation);
    assert_eq!(l.create_transaction_with(expense(42, 5, None), 2, at(20)).unwrap_err(), LedgerError::NotFound);
    let negative_split = vec![CreateSplit { category_id: 7, amount: -1 }];
    assert_eq!(
        l.create_transaction_with(expense(1, 5, Some(negative_split)), 2, at(20)).unwrap_err(),
        LedgerError::Validation
    );
    l.create_transaction_with(expense(1, 5, None), 2, at(20)).unwrap();
    assert_eq!(l.create_transaction_with(expense(1, 5, None), 2, at(21)).unwrap_err(), LedgerError::Internal);
    assert_eq!(balance_of(&l, 1), -5);
}

#[test]
fn balance_out_of_range_is_validation() {
    let mut l = Ledger::new();
    l.create_account_with("Main".to_string(), AccountKind::Checking, 1, at(10)).unwrap();
    l.create_transaction_with(expense(1, i64::MAX, None), 2, at(20)).unwrap();
    let r = l.create_transaction_with(expense(1, 2, None), 3, at(21));
    assert_eq!(r.unwrap_err(), LedgerError::Validation);
    assert_eq!(balance_of(&l, 1), -i64::MAX);
}

#[test]
fn ordering_same_instant_latest_insert_first() {
    let mut l = Ledger::new();
    l.create_account_with("Main".to_string(), AccountKind::Checking, 1, at(1)).unwrap();
    let t = 1_000;
    let mk = |occ: i128| CreateTransaction {
        account_id: 1,
        amount: 1,
        direction: TransactionDirection::Income,
        description: None,
        occurred_at: Some(at(occ)),
        splits: None,
    };
    l.create_transaction_with(mk(t), 0xA, at(50)).unwrap();
    l.create_transaction_with(mk(t), 0xB, at(50)).unwrap();
    l.create_transaction_with(mk(t - 1), 0xC, at(50)).unwrap();
    let ids: Vec<u128> = l.list_transactions().iter().map(|x| x.id).collect();
    assert_eq!(ids, vec![0xB, 0xA, 0xC]);
}

#[test]
fn ordering_by_creation_time_among_equal_dates() {
    let mut l = Ledger::new();
    l.create_account_with("Main".to_string(), AccountKind::Checking, 1, at(1)).unwrap();
    let mk = || CreateTransaction {
        account_id: 1,
        amount: 1,
        direction: TransactionDirection::Income,
        description: None,
        occurred_at: Some(at(500)),
        splits: None,
    };
    l.create_transaction_with(mk(), 1, at(70)).unwrap();
    l.create_transaction_with(mk(), 2, at(60)).unwrap();
    l.create_transaction_with(mk(), 3, at(80)).unwrap();
    let ids: Vec<u128> = l.list_transactions().iter().map(|x| x.id).collect();
    assert_eq!(ids, vec![3, 1, 2]);
}

#[test]
fn accounts_newest_first_categories_alphabetical() {
    let mut l = Ledger::new();
    l.create_account_with("Old".to_string(), AccountKind::Savings, 1, at(10)).unwrap();
    l.create_account_with("New".to_string(), AccountKind::Credit, 2, at(20)).unwrap();
    l.create_account_with("Middle".to_string(), AccountKind::Cash, 3, at(15)).unwrap();
    let names: Vec<String> = l.list_accounts().into_iter().map(|a| a.name).collect();
    assert_eq!(names, vec!["New", "Middle", "Old"]);
    for n in ["Utilities", "Groceries", "Rent", "Entertainment", "Income", "groceries"] {
        l.create_category_with(n.to_string(), n.len() as u128 * 1000 + n.as_bytes()[0] as u128, at(1)).unwrap();
    }
    let cats: Vec<String> = l.list_categories().into_iter().map(|c| c.name).collect();
    assert_eq!(cats, vec!["Entertainment", "Groceries", "Income", "Rent", "Utilities", "groceries"]);
}

#[test]
fn duplicate_category_is_conflict() {
    let mut l = Ledger::new();
    assert!(l.create_category_with("Rent".to_string(), 1, at(1)).is_ok());
    assert_eq!(l.create_category_with("Rent".to_string(), 2, at(2)).unwrap_err(), LedgerError::Conflict);
    assert!(l.create_category_with("rent".to_string(), 3, at(3)).is_ok());
    assert_eq!(l.create_category_with("Other".to_string(), 1, at(4)).unwrap_err(), LedgerError::Internal);
    assert_eq!(l.list_categories().len(), 2);
}

#[test]
fn blank_account_name_is_validation() {
    let mut l = Ledger::new();
    assert_eq!(
        l.create_account_with("  \t".to_string(), AccountKind::Checking, 1, at(1)).unwrap_err(),
        LedgerError::Validation
    );
    assert_eq!(l.create_account_with(String::new(), AccountKind::Checking, 1, at(1)).unwrap_err(), LedgerError::Validation);
    assert!(l.create_account_with(" a ".to_string(), AccountKind::Checking, 1, at(1)).is_ok());
    assert_eq!(l.create_account_with("b".to_string(), AccountKind::Checking, 1, at(1)).unwrap_err(), LedgerError::Internal);
}

#[test]
fn deleting_account_cascades() {
    let mut l = Ledger::new();
    l.create_account_with("A".to_string(), AccountKind::Checking, 1, at(1)).unwrap();
    l.create_account_with("B".to_string(), AccountKind::Checking, 2, at(2)).unwrap();
    l.create_category_with("Rent".to_string(), 9, at(1)).unwrap();
    l.create_transaction_with(expense(1, 10, Some(vec![CreateSplit { category_id: 9, amount: 10 }])), 11, at(3)).unwrap();
    l.create_transaction_with(expense(2, 20, None), 12, at(4)).unwrap();
    l.delete_account(1).unwrap();
    let txns = l.list_transactions();
    assert_eq!(txns.len(), 1);
    assert_eq!(txns[0].id, 12);
    assert_eq!(balance_of(&l, 2), -20);
    assert_eq!(l.delete_account(1).unwrap_err(), LedgerError::NotFound);
    assert_eq!(l.get_transaction(11).unwrap_err(), LedgerError::NotFound);
}

#[test]
fn deleting_category_keeps_transactions() {
    let mut l = Ledger::new();
    l.create_account_with("A".to_string(), AccountKind::Checking, 1, at(1)).unwrap();
    l.create_category_with("Rent".to_string(), 9, at(1)).unwrap();
    l.create_category_with("Food".to_string(), 8, at(1)).unwrap();
    let splits = vec![CreateSplit { category_id: 9, amount: 4 }, CreateSplit { category_id: 8, amount: 5 }];
    l.create_transaction_with(expense(1, 10, Some(splits)), 11, at(3)).unwrap();
    l.delete_category(9).unwrap();
    let t = l.get_transaction(11).unwrap();
    assert_eq!(t.splits.len(), 1);
    assert_eq!(t.splits[0].category_id, 8);
    assert_eq!(balance_of(&l, 1), -10);
    assert_eq!(l.list_categories().len(), 1);
    assert_eq!(l.delete_category(9).unwrap_err(), LedgerError::NotFound);
}

#[test]
fn deleting_transaction_reverses_balance() {
    let mut l = Ledger::new();
    l.create_account_with("A".to_string(), AccountKind::Checking, 1, at(1)).unwrap();
    l.create_transaction_with(expense(1, 10, None), 11, at(3)).unwrap();
    l.create_transaction_with(expense(1, 7, None), 12, at(4)).unwrap();
    assert_eq!(balance_of(&l, 1), -17);
    l.delete_transaction(11).unwrap();
    assert_eq!(balance_of(&l, 1), -7);
    assert_eq!(l.delete_transaction(11).unwrap_err(), LedgerError::NotFound);
}

#[test]
fn get_transaction_by_id() {
    let mut l = Ledger::new();
    l.create_account_with("A".to_string(), AccountKind::Checking, 1, at(1)).unwrap();
    let mut input = expense(1, 10, None);
    input.description = Some("lunch".to_string());
    input.occurred_at = Some(at(2));
    l.create_transaction_with(input, 11, at(3)).unwrap();
    let t = l.get_transaction(11).unwrap();
    assert_eq!(t.description.as_deref(), Some("lunch"));
    assert_eq!(t.occurred_at, at(2));
    assert_eq!(t.created_at, at(3));
    assert_eq!(t.updated_at, at(3));
    assert_eq!(t.direction, TransactionDirection::Expense);
}

#[test]
fn change_signals_fan_out() {
    let mut l = Ledger::new();
    let a = l.subscribe_to_changes().unwrap();
    let b = l.subscribe_to_changes().unwrap();
    assert_ne!(a, b);
    l.create_account_with("A".to_string(), AccountKind::Checking, 1, at(1)).unwrap();
    assert_eq!(l.take_changes(a), Some(1));
    l.create_transaction_with(expense(1, 10, None), 11, at(3)).unwrap();
    let _ = l.list_accounts();
    let _ = l.list_transactions();
    assert_eq!(l.take_changes(a), Some(1));
    assert_eq!(l.take_changes(b), Some(2));
    let _ = l.create_transaction_with(expense(1, -1, None), 12, at(3));
    assert_eq!(l.take_changes(a), Some(0));
    let late = l.subscribe_to_changes().unwrap();
    assert_eq!(l.take_changes(late), Some(0));
    assert!(l.unsubscribe(b));
    assert_eq!(l.take_changes(b), None);
    assert!(!l.unsubscribe(b));
}

#[test]
fn fresh_ids_and_clock() {
    let mut l = Ledger::new();
    let a = l.create_account("A".to_string(), AccountKind::Checking).unwrap();
    let b = l.create_account("B".to_string(), AccountKind::Savings).unwrap();
    assert_ne!(a.id, b.id);
    assert!(a.created_at.unix_nanos > 0);
    let c = l.create_category("Rent".to_string()).unwrap();
    assert_eq!(l.create_category("Rent".to_string()).unwrap_err(), LedgerError::Conflict);
    let t = l
        .create_transaction(expense(a.id, 300, Some(vec![CreateSplit { category_id: c.id, amount: 300 }])))
        .unwrap();
    assert_eq!(t.occurred_at, t.created_at);
    assert_ne!(t.id, 0);
    assert_eq!(balance_of(&l, a.id), -300);
}

#[test]
fn kind_and_direction_names() {
    assert_eq!(AccountKind::Checking.as_str(), "checking");
    assert_eq!(AccountKind::Cash.as_str(), "cash");
    assert_eq!(AccountKind::parse("savings"), Ok(AccountKind::Savings));
    assert_eq!(AccountKind::parse("credit"), Ok(AccountKind::Credit));
    assert_eq!(AccountKind::parse("investment"), Err(LedgerError::Validation));
    assert_eq!(AccountKind::parse("Checking"), Err(LedgerError::Validation));
    assert_eq!(TransactionDirection::Transfer.as_str(), "transfer");
    assert_eq!(parse_direction("income"), Ok(TransactionDirection::Income));
    assert_eq!(parse_direction("expense"), Ok(TransactionDirection::Expense));
    assert_eq!(parse_direction("gift"), Err(LedgerError::Validation));
    assert_eq!(LedgerError::Conflict.message(), "already exists");
}

#[test]
fn observers_get_distinct_ids_and_leave() {
    let mut l = Ledger::new();
    let ids: Vec<u64> = (0..3).map(|_| l.subscribe_to_changes().unwrap()).collect();
    assert_eq!(ids, vec![0, 1, 2]);
    assert!(l.unsubscribe(1));
    let next = l.subscribe_to_changes().unwrap();
    assert_eq!(next, 3);
    l.create_category_with("Rent".to_string(), 5, at(1)).unwrap();
    assert_eq!(l.take_changes(1), None);
    assert_eq!(l.take_changes(0), Some(1));
    assert_eq!(l.take_changes(next), Some(1));
}

#[test]
fn deleted_ids_are_gone() {
    let mut l = Ledger::new();
    l.create_account_with("A".to_string(), AccountKind::Checking, 1, at(1)).unwrap();
    l.create_category_with("Rent".to_string(), 2, at(1)).unwrap();
    l.delete_account(1).unwrap();
    l.delete_category(2).unwrap();
    assert!(l.list_accounts().iter().all(|a| a.id != 1));
    assert!(l.list_categories().iter().all(|c| c.id != 2));
    assert_eq!(l.create_transaction_with(expense(1, 5, None), 3, at(2)).unwrap_err(), LedgerError::NotFound);
}
