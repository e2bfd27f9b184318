use ledger_core::amount::parse_amount;
use ledger_core::client::{
    Action, ActiveField, App, DirectionKind, InputState, Key, Mode, decimal_text, step_back,
    step_forward,
};
use ledger_core::model::{Account, AccountKind, Category, Timestamp, TransactionDirection};

fn account(id: u128, name: &str) -> Account {
    Account { id, name: name.to_string(), kind: AccountKind::Checking, balance: 0, created_at: Timestamp { unix_nanos: 0 } }
}

fn category(id: u128, name: &str) -> Category {
    Category { id, name: name.to_string(), created_at: Timestamp { unix_nanos: 0 } }
}

fn loaded_app() -> App {
    let mut app = App::new("http://127.0.0.1:8080".to_string());
    app.apply_refresh(
        vec![account(1, "Main"), account(2, "Savings")],
        vec![category(10, "Groceries"), category(11, "Rent"), category(12, "Fun")],
        Vec::new(),
    );
    app
}

fn type_text(app: &mut App, text: &str) {
    for c in text.chars() {
        app.handle_key(Key::Char(c));
    }
}

#[test]
fn amounts_parse_to_cents() {
    assert_eq!(parse_amount("50"), Some(5000));
    assert_eq!(parse_amount("50.00"), Some(5000));
    assert_eq!(parse_amount("12.5"), Some(1250));
    assert_eq!(parse_amount("0.05"), Some(5));
    assert_eq!(parse_amount(".5"), Some(50));
    assert_eq!(parse_amount("3."), Some(300));
    assert_eq!(parse_amount(""), None);
    assert_eq!(parse_amount("."), None);
    assert_eq!(parse_amount("1.234"), None);
    assert_eq!(parse_amount("1.2.3"), None);
    assert_eq!(parse_amount("-1"), None);
    assert_eq!(parse_amount("12a"), None);
    assert_eq!(parse_amount("92233720368547758.07"), Some(i64::MAX));
    assert_eq!(parse_amount("92233720368547758.08"), None);
    assert_eq!(parse_amount("100000000000000000"), None);
}

#[test]
fn positions_wrap_around() {
    assert_eq!(step_forward(0, 3), 1);
    assert_eq!(step_forward(2, 3), 0);
    assert_eq!(step_back(0, 3), 2);
    assert_eq!(step_back(1, 3), 0);
    assert_eq!(step_back(7, 3), 0);
}

#[test]
fn refresh_counts_on_status_line() {
    let app = loaded_app();
    assert_eq!(app.status, "2 accounts | 3 categories | 0 transactions");
    assert_eq!(decimal_text(1207), "1207");
    assert_eq!(decimal_text(0), "0");
}

#[test]
fn new_app_starts_normal() {
    let app = App::new("u".to_string());
    assert!(app.mode == Mode::Normal);
    assert_eq!(app.input.direction, DirectionKind::Expense);
    assert!(app.accounts.is_empty());
    let d = InputState::default();
    assert_eq!(d.active_field, ActiveField::Amount);
    assert_eq!(ActiveField::default(), ActiveField::Amount);
}

#[test]
fn transaction_form_builds_request() {
    let mut app = loaded_app();
    assert!(matches!(app.handle_key(Key::Char('a')), Action::Nothing));
    assert!(app.mode == Mode::Input);
    type_text(&mut app, "12.5x.3");
    assert_eq!(app.input.amount, "12.53");
    app.handle_key(Key::Backspace);
    assert_eq!(app.input.amount, "12.5");
    app.handle_key(Key::Tab);
    type_text(&mut app, "lunch");
    assert_eq!(app.input.description, "lunch");
    app.handle_key(Key::Right);
    app.handle_key(Key::Up);
    assert_eq!(app.input.account_idx, 1);
    assert_eq!(app.input.category_idx, 2);
    match app.handle_key(Key::Enter) {
        Action::Submit(req) => {
            assert_eq!(req.account_id, 2);
            assert_eq!(req.amount, 1250);
            assert_eq!(req.direction, TransactionDirection::Expense);
            assert_eq!(req.description.as_deref(), Some("lunch"));
            let splits = req.splits.unwrap();
            assert_eq!(splits.len(), 1);
            assert_eq!(splits[0].category_id, 12);
            assert_eq!(splits[0].amount, 1250);
        },
        _ => panic!("expected a submission"),
    }
    app.submission_saved();
    assert!(app.mode == Mode::Normal);
    assert_eq!(app.status, "Transaction saved");
    assert_eq!(app.input.amount, "");
}

#[test]
fn d_switches_direction_in_transaction_form() {
    let mut app = loaded_app();
    app.handle_key(Key::Char('a'));
    app.handle_key(Key::Char('d'));
    assert_eq!(app.input.direction, DirectionKind::Income);
    app.handle_key(Key::Char('d'));
    assert_eq!(app.input.direction, DirectionKind::Expense);
}

#[test]
fn invalid_amount_keeps_form() {
    let mut app = loaded_app();
    app.handle_key(Key::Char('a'));
    assert!(matches!(app.handle_key(Key::Enter), Action::Nothing));
    assert_eq!(app.status, "Invalid amount");
    assert!(app.mode == Mode::Input);
    app.submission_failed("bad");
    assert_eq!(app.status, "Failed to create: bad");
    app.handle_key(Key::Esc);
    assert!(app.mode == Mode::Normal);
    assert_eq!(app.status, "Cancelled");
}

#[test]
fn transfer_needs_two_accounts() {
    let mut app = loaded_app();
    app.handle_key(Key::Char('t'));
    assert!(app.mode == Mode::Transfer);
    assert_eq!(app.input.direction, DirectionKind::Transfer);
    type_text(&mut app, "5");
    assert!(matches!(app.handle_key(Key::Enter), Action::Nothing));
    assert_eq!(app.status, "Source and destination must differ");
    app.handle_key(Key::Down);
    match app.handle_key(Key::Enter) {
        Action::Submit(req) => {
            assert_eq!(req.account_id, 1);
            assert_eq!(req.direction, TransactionDirection::Transfer);
            assert_eq!(req.amount, 500);
            assert!(req.splits.is_none());
        },
        _ => panic!("expected a submission"),
    }
}

#[test]
fn add_account_form() {
    let mut app = loaded_app();
    app.handle_key(Key::Char('n'));
    assert!(app.mode == Mode::AddAccount);
    type_text(&mut app, "Trip");
    app.handle_key(Key::Tab);
    app.handle_key(Key::Left);
    match app.handle_key(Key::Enter) {
        Action::CreateAccount(name, kind) => {
            assert_eq!(name, "Trip");
            assert_eq!(kind, AccountKind::Cash);
        },
        _ => panic!("expected an account"),
    }
    assert!(app.mode == Mode::Normal);
    app.handle_key(Key::Char('n'));
    type_text(&mut app, "  ");
    assert!(matches!(app.handle_key(Key::Enter), Action::Nothing));
    assert_eq!(app.status, "Account name cannot be empty");
}

#[test]
fn delete_account_mode() {
    let mut app = loaded_app();
    app.handle_key(Key::Char('x'));
    assert!(app.mode == Mode::DeleteAccount);
    app.handle_key(Key::Left);
    match app.handle_key(Key::Enter) {
        Action::DeleteAccount(id) => assert_eq!(id, 2),
        _ => panic!("expected a deletion"),
    }
    assert!(app.mode == Mode::Normal);
    let mut empty = App::new("u".to_string());
    empty.handle_key(Key::Char('x'));
    assert!(matches!(empty.handle_key(Key::Enter), Action::Nothing));
    assert_eq!(empty.status, "No account selected");
}

#[test]
fn q_quits_from_normal_mode() {
    let mut app = loaded_app();
    assert!(matches!(app.handle_key(Key::Char('q')), Action::Quit));
    app.handle_key(Key::Char('a'));
    assert!(matches!(app.handle_key(Key::Char('q')), Action::Nothing));
}

#[test]
fn submission_problems_are_named() {
    let mut empty = App::new("u".to_string());
    empty.handle_key(Key::Char('a'));
    type_text(&mut empty, "5");
    assert!(matches!(empty.handle_key(Key::Enter), Action::Nothing));
    assert_eq!(empty.status, "No account available");
    let mut no_categories = App::new("u".to_string());
    no_categories.apply_refresh(vec![account(1, "Main")], Vec::new(), Vec::new());
    no_categories.handle_key(Key::Char('a'));
    type_text(&mut no_categories, "5");
    assert!(matches!(no_categories.handle_key(Key::Enter), Action::Nothing));
    assert_eq!(no_categories.status, "No category available");
    let mut transfer = App::new("u".to_string());
    transfer.handle_key(Key::Char('t'));
    type_text(&mut transfer, "5");
    transfer.handle_key(Key::Enter);
    assert_eq!(transfer.status, "No source account available");
}
