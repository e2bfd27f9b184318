//! The terminal client's state and its reactions to keys. Every reaction is a step from
//! one state to the next, with an action for the caller to carry out against the
//! ledger's service (submit, create, delete) or none.
use vstd::prelude::*;
use crate::amount::{amount_cents, is_digit, parse_amount};
use crate::model::{
    Account, AccountKind, Category, CreateSplit, CreateTransaction, Transaction,
    TransactionDirection,
};
use crate::outside::{pop_char, push_char};
use crate::text::{is_blank, text_contains, text_is_blank};

verus! {

/// The direction chosen in the transaction form.
#[derive(Clone, Copy, Debug, PartialEq, Eq, Structural)]
pub enum DirectionKind {
    Income,
    Expense,
    Transfer,
}

pub open spec fn direction_of(d: DirectionKind) -> TransactionDirection {
    match d {
        DirectionKind::Income => TransactionDirection::Income,
        DirectionKind::Expense => TransactionDirection::Expense,
        DirectionKind::Transfer => TransactionDirection::Transfer,
    }
}

impl DirectionKind {
    pub fn to_direction(&self) -> (r: TransactionDirection)
        ensures
            r == direction_of(*self),
    {
        match self {
            DirectionKind::Income => TransactionDirection::Income,
            DirectionKind::Expense => TransactionDirection::Expense,
            DirectionKind::Transfer => TransactionDirection::Transfer,
        }
    }
}

/// The form field that typed characters go to.
#[derive(Clone, Copy, Debug, PartialEq, Eq, Structural)]
pub enum ActiveField {
    Amount,
    Description,
    AccountName,
    AccountKind,
}

impl Default for ActiveField {
    fn default() -> (r: ActiveField)
        ensures
            r == ActiveField::Amount,
    {
        ActiveField::Amount
    }
}

/// What the keys currently do.
#[derive(Clone, Copy, Debug, PartialEq, Eq, Structural)]
pub enum Mode {
    Normal,
    Input,
    Transfer,
    AddAccount,
    DeleteAccount,
}

/// The forms' contents: chosen list positions, typed texts and the chosen direction.
#[derive(Clone, Debug)]
pub struct InputState {
    pub account_idx: usize,
    pub category_idx: usize,
    pub active_field: ActiveField,
    pub direction: DirectionKind,
    pub amount: String,
    pub description: String,
    pub to_account_idx: usize,
    pub new_account_name: String,
    pub new_account_kind_idx: usize,
}

/// An empty form: first positions, no text, the amount field active, an expense.
pub open spec fn is_fresh(i: InputState) -> bool {
    &&& i.account_idx == 0
    &&& i.category_idx == 0
    &&& i.active_field == ActiveField::Amount
    &&& i.direction == DirectionKind::Expense
    &&& i.amount@.len() == 0
    &&& i.description@.len() == 0
    &&& i.to_account_idx == 0
    &&& i.new_account_name@.len() == 0
    &&& i.new_account_kind_idx == 0
}

impl Default for InputState {
    fn default() -> (r: InputState)
        ensures
            is_fresh(r),
    {
        InputState {
            account_idx: 0,
            category_idx: 0,
            active_field: ActiveField::Amount,
            direction: DirectionKind::Expense,
            amount: String::new(),
            description: String::new(),
            to_account_idx: 0,
            new_account_name: String::new(),
            new_account_kind_idx: 0,
        }
    }
}

/// A key as the client distinguishes them.
#[derive(Clone, Copy, Debug, PartialEq, Eq, Structural)]
pub enum Key {
    Char(char),
    Enter,
    Esc,
    Tab,
    Left,
    Right,
    Up,
    Down,
    Backspace,
    Other,
}

/// What the caller is to do after a key.
#[derive(Clone, Debug)]
pub enum Action {
    Nothing,
    Quit,
    Submit(CreateTransaction),
    CreateAccount(String, AccountKind),
    DeleteAccount(u128),
}

/// The account kinds offered by the new-account form, in the order the arrows walk.
pub open spec fn kind_choice(i: int) -> AccountKind {
    if i % 4 == 0 {
        AccountKind::Checking
    } else if i % 4 == 1 {
        AccountKind::Savings
    } else if i % 4 == 2 {
        AccountKind::Credit
    } else {
        AccountKind::Cash
    }
}

pub const KIND_CHOICES: usize = 4;

fn kind_at(i: usize) -> (r: AccountKind)
    ensures
        r == kind_choice(i as int),
{
    let m = i % KIND_CHOICES;
    if m == 0 {
        AccountKind::Checking
    } else if m == 1 {
        AccountKind::Savings
    } else if m == 2 {
        AccountKind::Credit
    } else {
        AccountKind::Cash
    }
}

/// One step forward through `n` positions, wrapping around.
pub open spec fn next_index(i: int, n: int) -> int {
    if i % n + 1 == n {
        0
    } else {
        i % n + 1
    }
}

/// One step back through `n` positions, wrapping around.
pub open spec fn prev_index(i: int, n: int) -> int {
    if i % n == 0 {
        n - 1
    } else {
        i % n - 1
    }
}

pub fn step_forward(i: usize, n: usize) -> (r: usize)
    requires
        n > 0,
    ensures
        r == next_index(i as int, n as int),
        r < n,
{
    let m = i % n;
    if m + 1 == n {
        0
    } else {
        m + 1
    }
}

pub fn step_back(i: usize, n: usize) -> (r: usize)
    requires
        n > 0,
    ensures
        r == prev_index(i as int, n as int),
        r < n,
{
    let m = i % n;
    if m == 0 {
        n - 1
    } else {
        m - 1
    }
}

/// Appends the characters of `t` to `s`.
pub fn append_text(s: &mut String, t: &str)
    ensures
        final(s)@ == old(s)@ + t@,
{
    let n = t.unicode_len();
    let mut i: usize = 0;
    while i < n
        invariant
            n == t@.len(),
            i <= n,
            s@ == old(s)@ + t@.subrange(0, i as int),
        decreases n - i,
    {
        push_char(s, t.get_char(i));
        i = i + 1;
        assert(s@ =~= old(s)@ + t@.subrange(0, i as int));
    }
    assert(t@.subrange(0, n as int) =~= t@);
}

/// The decimal writing of a number.
pub open spec fn decimal(n: nat) -> Seq<char>
    decreases n,
{
    if n < 10 {
        seq![(n + 48) as char]
    } else {
        decimal(n / 10).push(((n % 10) + 48) as char)
    }
}

pub fn decimal_text(n: usize) -> (r: String)
    ensures
        r@ == decimal(n as nat),
    decreases n,
{
    if n < 10 {
        let mut r = String::new();
        push_char(&mut r, ((n as u8) + 48) as char);
        r
    } else {
        let mut r = decimal_text(n / 10);
        push_char(&mut r, ((n % 10) as u8 + 48) as char);
        r
    }
}

/// The forms' contents with texts as sequences.
pub struct InputView {
    pub account_idx: usize,
    pub category_idx: usize,
    pub active_field: ActiveField,
    pub direction: DirectionKind,
    pub amount: Seq<char>,
    pub description: Seq<char>,
    pub to_account_idx: usize,
    pub new_account_name: Seq<char>,
    pub new_account_kind_idx: usize,
}

impl View for InputState {
    type V = InputView;

    open spec fn view(&self) -> InputView {
        InputView {
            account_idx: self.account_idx,
            category_idx: self.category_idx,
            active_field: self.active_field,
            direction: self.direction,
            amount: self.amount@,
            description: self.description@,
            to_account_idx: self.to_account_idx,
            new_account_name: self.new_account_name@,
            new_account_kind_idx: self.new_account_kind_idx,
        }
    }
}

/// A position moved one step through `n` entries; unmoved when there are none.
pub open spec fn cycled(i: usize, n: nat, forward: bool) -> usize {
    if n == 0 {
        i
    } else if forward {
        next_index(i as int, n as int) as usize
    } else {
        prev_index(i as int, n as int) as usize
    }
}

pub open spec fn without_last(s: Seq<char>) -> Seq<char> {
    if s.len() == 0 {
        s
    } else {
        s.drop_last()
    }
}

/// The amount field takes digits and one decimal point.
pub open spec fn amount_accepts(text: Seq<char>, c: char) -> bool {
    is_digit(c) || (c == '.' && !text.contains('.'))
}

/// The transaction form (or, with `transfer`, the transfer form) after a key other
/// than Esc and Enter. Left and Right choose the account; Up and Down the category, or
/// for a transfer the destination account; `d` switches between expense and income.
pub open spec fn form_input_after(v: InputView, accounts: nat, categories: nat, key: Key, transfer: bool) -> InputView {
    match key {
        Key::Tab => InputView {
            active_field: if v.active_field == ActiveField::Amount {
                ActiveField::Description
            } else {
                ActiveField::Amount
            },
            ..v
        },
        Key::Left => InputView { account_idx: cycled(v.account_idx, accounts, false), ..v },
        Key::Right => InputView { account_idx: cycled(v.account_idx, accounts, true), ..v },
        Key::Up => if transfer {
            InputView { to_account_idx: cycled(v.to_account_idx, accounts, false), ..v }
        } else {
            InputView { category_idx: cycled(v.category_idx, categories, false), ..v }
        },
        Key::Down => if transfer {
            InputView { to_account_idx: cycled(v.to_account_idx, accounts, true), ..v }
        } else {
            InputView { category_idx: cycled(v.category_idx, categories, true), ..v }
        },
        Key::Backspace => if v.active_field == ActiveField::Amount {
            InputView { amount: without_last(v.amount), ..v }
        } else if v.active_field == ActiveField::Description {
            InputView { description: without_last(v.description), ..v }
        } else {
            v
        },
        Key::Char(c) => if !transfer && c == 'd' {
            InputView {
                direction: if v.direction == DirectionKind::Expense {
                    DirectionKind::Income
                } else {
                    DirectionKind::Expense
                },
                ..v
            }
        } else if v.active_field == ActiveField::Amount {
            if amount_accepts(v.amount, c) {
                InputView { amount: v.amount.push(c), ..v }
            } else {
                v
            }
        } else if v.active_field == ActiveField::Description {
            InputView { description: v.description.push(c), ..v }
        } else {
            v
        },
        _ => v,
    }
}

/// The new-account form after a key other than Esc and Enter: Tab switches between
/// name and kind, the arrows walk the kinds while the kind is active, typing edits the
/// name while the name is active.
pub open spec fn account_input_after(v: InputView, key: Key) -> InputView {
    let on_kind = v.active_field == ActiveField::AccountKind;
    let on_name = v.active_field == ActiveField::AccountName;
    match key {
        Key::Tab => InputView {
            active_field: if on_name { ActiveField::AccountKind } else { ActiveField::AccountName },
            ..v
        },
        Key::Left | Key::Up => if on_kind {
            InputView { new_account_kind_idx: cycled(v.new_account_kind_idx, 4, false), ..v }
        } else {
            v
        },
        Key::Right | Key::Down => if on_kind {
            InputView { new_account_kind_idx: cycled(v.new_account_kind_idx, 4, true), ..v }
        } else {
            v
        },
        Key::Backspace => if on_name {
            InputView { new_account_name: without_last(v.new_account_name), ..v }
        } else {
            v
        },
        Key::Char(c) => if on_name {
            InputView { new_account_name: v.new_account_name.push(c), ..v }
        } else {
            v
        },
        _ => v,
    }
}

pub open spec fn cancelled(a: App, b: App, r: Action) -> bool {
    &&& b.mode == Mode::Normal
    &&& b.input == a.input
    &&& b.status@ == "Cancelled"@
    &&& r is Nothing
}

/// A key in the transaction or transfer form.
pub open spec fn form_step(a: App, b: App, key: Key, r: Action) -> bool {
    let transfer = a.mode == Mode::Transfer;
    &&& b.lists_unchanged(&a)
    &&& key == Key::Esc ==> cancelled(a, b, r)
    &&& key == Key::Enter ==> {
        &&& b.input == a.input
        &&& b.mode == a.mode
        &&& submission_ready(a) ==> b.status == a.status && (r matches Action::Submit(req)
            && submission_matches(a, req))
        &&& !submission_ready(a) ==> r is Nothing && submission_problem(a) == Some(b.status@)
    }
    &&& key != Key::Esc && key != Key::Enter ==> {
        &&& b.input@ == form_input_after(a.input@, a.accounts@.len(), a.categories@.len(), key, transfer)
        &&& b.mode == a.mode
        &&& b.status == a.status
        &&& r is Nothing
    }
}

/// A key in the new-account form. Enter asks for the account unless the name is
/// blank, and goes back to the normal mode either way.
pub open spec fn add_account_step(a: App, b: App, key: Key, r: Action) -> bool {
    &&& b.lists_unchanged(&a)
    &&& key == Key::Esc ==> cancelled(a, b, r)
    &&& key == Key::Enter ==> {
        &&& b.input == a.input
        &&& b.mode == Mode::Normal
        &&& !is_blank(a.input.new_account_name@) ==> b.status == a.status && (r matches Action::CreateAccount(name, kind)
            && name@ == a.input.new_account_name@ && kind == kind_choice(a.input.new_account_kind_idx as int))
        &&& is_blank(a.input.new_account_name@) ==> r is Nothing && b.status@
            == "Account name cannot be empty"@
    }
    &&& key != Key::Esc && key != Key::Enter ==> {
        &&& b.input@ == account_input_after(a.input@, key)
        &&& b.mode == a.mode
        &&& b.status == a.status
        &&& r is Nothing
    }
}

/// A key in the delete-account mode: Left and Right choose, Enter asks for the deletion
/// of the chosen account and goes back to the normal mode.
pub open spec fn delete_account_step(a: App, b: App, key: Key, r: Action) -> bool {
    let n = a.accounts@.len();
    let i = a.input.account_idx;
    &&& b.lists_unchanged(&a)
    &&& key == Key::Esc ==> cancelled(a, b, r)
    &&& key == Key::Enter && i < n ==> b.input == a.input && b.mode == Mode::Normal && b.status
        == a.status && r == Action::DeleteAccount(a.accounts@[i as int].id)
    &&& key == Key::Enter && i >= n ==> b.input == a.input && b.mode == a.mode && b.status@
        == "No account selected"@ && r is Nothing
    &&& key == Key::Left || key == Key::Right ==> b.input@ == InputView {
        account_idx: cycled(i, n, key == Key::Right),
        ..a.input@
    } && b.mode == a.mode && b.status == a.status && r is Nothing
    &&& !(key == Key::Esc || key == Key::Enter || key == Key::Left || key == Key::Right) ==> b.input
        == a.input && b.mode == a.mode && b.status == a.status && r is Nothing
}

/// A key in the normal mode: `q` quits, `a`, `t`, `n` and `x` open the transaction
/// form, the transfer form, the new-account form and the delete-account mode.
pub open spec fn normal_step(a: App, b: App, key: Key, r: Action) -> bool {
    &&& b.lists_unchanged(&a)
    &&& key == Key::Char('q') ==> b.input == a.input && b.mode == a.mode && b.status == a.status
        && r is Quit
    &&& key == Key::Char('a') ==> b.mode == Mode::Input && is_fresh(b.input) && r is Nothing
    &&& key == Key::Char('t') ==> b.mode == Mode::Transfer && b.input@ == InputView {
        direction: DirectionKind::Transfer,
        ..b.input@
    } && is_fresh(InputState { direction: DirectionKind::Expense, ..b.input }) && b.input.direction
        == DirectionKind::Transfer && r is Nothing
    &&& key == Key::Char('n') ==> b.mode == Mode::AddAccount && b.input.active_field
        == ActiveField::AccountName && is_fresh(InputState { active_field: ActiveField::Amount, ..b.input })
        && r is Nothing
    &&& key == Key::Char('x') ==> b.mode == Mode::DeleteAccount && b.input == a.input && r is Nothing
    &&& !(key == Key::Char('q') || key == Key::Char('a') || key == Key::Char('t') || key == Key::Char(
        'n',
    ) || key == Key::Char('x')) ==> b.input == a.input && b.mode == a.mode && b.status == a.status
        && r is Nothing
}

pub open spec fn key_step(a: App, b: App, key: Key, r: Action) -> bool {
    match a.mode {
        Mode::Normal => normal_step(a, b, key, r),
        Mode::Input | Mode::Transfer => form_step(a, b, key, r),
        Mode::AddAccount => add_account_step(a, b, key, r),
        Mode::DeleteAccount => delete_account_step(a, b, key, r),
    }
}

/// The client: where the service is, what it last listed, the status line, the mode and
/// the forms.
pub struct App {
    pub backend_url: String,
    pub accounts: Vec<Account>,
    pub categories: Vec<Category>,
    pub transactions: Vec<Transaction>,
    pub status: String,
    pub mode: Mode,
    pub input: InputState,
}

pub open spec fn description_of(text: Seq<char>) -> Option<Seq<char>> {
    if text.len() == 0 {
        None
    } else {
        Some(text)
    }
}

/// Why the transaction form of `a` cannot be sent, checked in this order: an amount
/// that is not a valid number of cents, a missing account, then for a transfer a
/// missing or identical destination, otherwise a missing category. `None` when it can.
pub open spec fn submission_problem(a: App) -> Option<Seq<char>> {
    let cents = amount_cents(a.input.amount@);
    let transfer = a.mode == Mode::Transfer;
    if cents is None || cents->Some_0 > i64::MAX {
        Some("Invalid amount"@)
    } else if a.input.account_idx >= a.accounts@.len() {
        if transfer {
            Some("No source account available"@)
        } else {
            Some("No account available"@)
        }
    } else if transfer {
        if a.input.to_account_idx >= a.accounts@.len() {
            Some("No destination account available"@)
        } else if a.accounts@[a.input.account_idx as int].id == a.accounts@[a.input.to_account_idx as int].id {
            Some("Source and destination must differ"@)
        } else {
            None
        }
    } else if a.input.category_idx >= a.categories@.len() {
        Some("No category available"@)
    } else {
        None
    }
}

pub open spec fn submission_ready(a: App) -> bool {
    submission_problem(a) is None
}

/// The request that the form of `a` makes, when it is ready.
pub open spec fn submission_matches(a: App, req: CreateTransaction) -> bool {
    let cents = amount_cents(a.input.amount@)->Some_0;
    &&& req.account_id == a.accounts@[a.input.account_idx as int].id
    &&& req.amount == cents
    &&& crate::model::text_option_view(req.description) == description_of(a.input.description@)
    &&& req.occurred_at is None
    &&& if a.mode == Mode::Transfer {
        &&& req.direction == TransactionDirection::Transfer
        &&& req.splits is None
    } else {
        &&& req.direction == direction_of(a.input.direction)
        &&& req.splits is Some
        &&& req.splits->Some_0@ == seq![
            CreateSplit { category_id: a.categories@[a.input.category_idx as int].id, amount: cents as i64 },
        ]
    }
}

impl App {
    pub open spec fn lists_unchanged(&self, other: &App) -> bool {
        &&& self.backend_url == other.backend_url
        &&& self.accounts == other.accounts
        &&& self.categories == other.categories
        &&& self.transactions == other.transactions
    }

    pub fn new(backend_url: String) -> (r: App)
        ensures
            r.backend_url == backend_url,
            r.accounts@.len() == 0,
            r.categories@.len() == 0,
            r.transactions@.len() == 0,
            r.mode == Mode::Normal,
            is_fresh(r.input),
    {
        App {
            backend_url,
            accounts: Vec::new(),
            categories: Vec::new(),
            transactions: Vec::new(),
            status: "Press a add txn, t transfer, n new acct, x delete, q quit".to_owned(),
            mode: Mode::Normal,
            input: InputState::default(),
        }
    }

    /// Takes the lists that the service gave and counts them on the status line.
    pub fn apply_refresh(&mut self, accounts: Vec<Account>, categories: Vec<Category>, transactions: Vec<Transaction>)
        ensures
            final(self).accounts == accounts,
            final(self).categories == categories,
            final(self).transactions == transactions,
            final(self).mode == old(self).mode,
            final(self).input == old(self).input,
            final(self).backend_url == old(self).backend_url,
            final(self).status@ == decimal(accounts@.len() as nat) + " accounts | "@ + decimal(
                categories@.len() as nat,
            ) + " categories | "@ + decimal(transactions@.len() as nat) + " transactions"@,
    {
        let mut status = decimal_text(accounts.len());
        append_text(&mut status, " accounts | ");
        let c = decimal_text(categories.len());
        append_text(&mut status, c.as_str());
        append_text(&mut status, " categories | ");
        let t = decimal_text(transactions.len());
        append_text(&mut status, t.as_str());
        append_text(&mut status, " transactions");
        self.accounts = accounts;
        self.categories = categories;
        self.transactions = transactions;
        self.status = status;
    }

    /// Builds the request that the transaction form makes, or says on the status line
    /// why there is none.
    pub fn prepare_submission(&self) -> (r: Result<CreateTransaction, String>)
        requires
            self.mode == Mode::Input || self.mode == Mode::Transfer,
        ensures
            r is Ok <==> submission_ready(*self),
            r matches Ok(req) ==> submission_matches(*self, req),
            r matches Err(m) ==> submission_problem(*self) == Some(m@),
    {
        proof {
            reveal_strlit("Invalid amount");
            reveal_strlit("No source account available");
            reveal_strlit("No destination account available");
            reveal_strlit("Source and destination must differ");
            reveal_strlit("No account available");
            reveal_strlit("No category available");
        }
        let amount = match parse_amount(self.input.amount.as_str()) {
            Some(a) => a,
            None => { return Err("Invalid amount".to_owned()); },
        };
        let description = if self.input.description.as_str().unicode_len() == 0 {
            None
        } else {
            Some(self.input.description.clone())
        };
        if self.input.account_idx >= self.accounts.len() {
            if self.mode == Mode::Transfer {
                return Err("No source account available".to_owned());
            }
            return Err("No account available".to_owned());
        }
        let account_id = self.accounts[self.input.account_idx].id;
        if self.mode == Mode::Transfer {
            if self.input.to_account_idx >= self.accounts.len() {
                return Err("No destination account available".to_owned());
            }
            if account_id == self.accounts[self.input.to_account_idx].id {
                return Err("Source and destination must differ".to_owned());
            }
            Ok(CreateTransaction {
                account_id,
                amount,
                direction: TransactionDirection::Transfer,
                description,
                occurred_at: None,
                splits: None,
            })
        } else {
            if self.input.category_idx >= self.categories.len() {
                return Err("No category available".to_owned());
            }
            let category_id = self.categories[self.input.category_idx].id;
            let splits = vec![CreateSplit { category_id, amount }];
            assert(splits@ =~= seq![CreateSplit { category_id, amount }]);
            Ok(CreateTransaction {
                account_id,
                amount,
                direction: self.input.direction.to_direction(),
                description,
                occurred_at: None,
                splits: Some(splits),
            })
        }
    }

    /// After the service has stored a submitted transaction: back to the normal mode with
    /// an empty form.
    pub fn submission_saved(&mut self)
        ensures
            final(self).lists_unchanged(old(self)),
            final(self).mode == Mode::Normal,
            is_fresh(final(self).input),
            final(self).status@ == "Transaction saved"@,
    {
        self.input = InputState::default();
        self.mode = Mode::Normal;
        self.status = "Transaction saved".to_owned();
    }

    /// After the service has refused a submission: the form stays, the reason is shown.
    pub fn submission_failed(&mut self, reason: &str)
        ensures
            final(self).lists_unchanged(old(self)),
            final(self).mode == old(self).mode,
            final(self).input == old(self).input,
            final(self).status@ == "Failed to create: "@ + reason@,
    {
        let mut status = "Failed to create: ".to_owned();
        append_text(&mut status, reason);
        self.status = status;
    }
    /// A key in the normal mode.
    pub fn handle_normal_mode(&mut self, key: Key) -> (r: Action)
        requires
            old(self).mode == Mode::Normal,
        ensures
            normal_step(*old(self), *final(self), key, r),
    {
        match key {
            Key::Char('q') => Action::Quit,
            Key::Char('a') => {
                self.mode = Mode::Input;
                self.input = InputState::default();
                self.status = "Add transaction: amount/description, Tab switches fields, Enter to submit".to_owned();
                Action::Nothing
            },
            Key::Char('t') => {
                self.mode = Mode::Transfer;
                self.input = InputState::default();
                self.input.direction = DirectionKind::Transfer;
                self.status = "Transfer: left/right source, up/down destination, amount then Enter".to_owned();
                Action::Nothing
            },
            Key::Char('n') => {
                self.mode = Mode::AddAccount;
                self.input = InputState::default();
                self.input.active_field = ActiveField::AccountName;
                self.status = "New account: type name, Tab to change type, Enter to save".to_owned();
                Action::Nothing
            },
            Key::Char('x') => {
                self.mode = Mode::DeleteAccount;
                self.status = "Delete account: left/right to pick, Enter to delete, Esc to cancel".to_owned();
                Action::Nothing
            },
            _ => Action::Nothing,
        }
    }

    fn cancel(&mut self)
        ensures
            final(self).lists_unchanged(old(self)),
            final(self).mode == Mode::Normal,
            final(self).input == old(self).input,
            final(self).status@ == "Cancelled"@,
    {
        proof { reveal_strlit("Cancelled"); }
        self.mode = Mode::Normal;
        self.status = "Cancelled".to_owned();
    }

    fn form_key(&mut self, key: Key) -> (r: Action)
        requires
            old(self).mode == Mode::Input || old(self).mode == Mode::Transfer,
        ensures
            form_step(*old(self), *final(self), key, r),
    {
        let transfer = self.mode == Mode::Transfer;
        let n = self.accounts.len();
        let m = self.categories.len();
        match key {
            Key::Esc => {
                self.cancel();
                Action::Nothing
            },
            Key::Tab => {
                self.input.active_field = if self.input.active_field == ActiveField::Amount {
                    ActiveField::Description
                } else {
                    ActiveField::Amount
                };
                Action::Nothing
            },
            Key::Left => {
                if n > 0 {
                    self.input.account_idx = step_back(self.input.account_idx, n);
                }
                Action::Nothing
            },
            Key::Right => {
                if n > 0 {
                    self.input.account_idx = step_forward(self.input.account_idx, n);
                }
                Action::Nothing
            },
            Key::Up => {
                if transfer {
                    if n > 0 {
                        self.input.to_account_idx = step_back(self.input.to_account_idx, n);
                    }
                } else if m > 0 {
                    self.input.category_idx = step_back(self.input.category_idx, m);
                }
                Action::Nothing
            },
            Key::Down => {
                if transfer {
                    if n > 0 {
                        self.input.to_account_idx = step_forward(self.input.to_account_idx, n);
                    }
                } else if m > 0 {
                    self.input.category_idx = step_forward(self.input.category_idx, m);
                }
                Action::Nothing
            },
            Key::Enter => match self.prepare_submission() {
                Ok(req) => Action::Submit(req),
                Err(message) => {
                    self.status = message;
                    Action::Nothing
                },
            },
            Key::Backspace => {
                if self.input.active_field == ActiveField::Amount {
                    pop_char(&mut self.input.amount);
                } else if self.input.active_field == ActiveField::Description {
                    pop_char(&mut self.input.description);
                }
                Action::Nothing
            },
            Key::Char(c) => {
                if !transfer && c == 'd' {
                    self.input.direction = if self.input.direction == DirectionKind::Expense {
                        DirectionKind::Income
                    } else {
                        DirectionKind::Expense
                    };
                } else if self.input.active_field == ActiveField::Amount {
                    let code = c as u32;
                    if (48 <= code && code <= 57) || (c == '.' && !text_contains(self.input.amount.as_str(), '.')) {
                        push_char(&mut self.input.amount, c);
                    }
                } else if self.input.active_field == ActiveField::Description {
                    push_char(&mut self.input.description, c);
                }
                Action::Nothing
            },
            Key::Other => Action::Nothing,
        }
    }

    /// A key in the transaction form.
    pub fn handle_transaction_mode(&mut self, key: Key) -> (r: Action)
        requires
            old(self).mode == Mode::Input,
        ensures
            form_step(*old(self), *final(self), key, r),
    {
        self.form_key(key)
    }

    /// A key in the transfer form. A transfer is recorded on its source account; the
    /// destination is chosen and checked to differ, but moves no balance.
    pub fn handle_transfer_mode(&mut self, key: Key) -> (r: Action)
        requires
            old(self).mode == Mode::Transfer,
        ensures
            form_step(*old(self), *final(self), key, r),
    {
        self.form_key(key)
    }

    /// A key in the new-account form.
    pub fn handle_add_account_mode(&mut self, key: Key) -> (r: Action)
        requires
            old(self).mode == Mode::AddAccount,
        ensures
            add_account_step(*old(self), *final(self), key, r),
    {
        let on_kind = self.input.active_field == ActiveField::AccountKind;
        let on_name = self.input.active_field == ActiveField::AccountName;
        match key {
            Key::Esc => {
                self.cancel();
                Action::Nothing
            },
            Key::Tab => {
                self.input.active_field = if on_name {
                    ActiveField::AccountKind
                } else {
                    ActiveField::AccountName
                };
                Action::Nothing
            },
            Key::Left | Key::Up => {
                if on_kind {
                    self.input.new_account_kind_idx = step_back(self.input.new_account_kind_idx, KIND_CHOICES);
                }
                Action::Nothing
            },
            Key::Right | Key::Down => {
                if on_kind {
                    self.input.new_account_kind_idx = step_forward(self.input.new_account_kind_idx, KIND_CHOICES);
                }
                Action::Nothing
            },
            Key::Enter => {
                self.mode = Mode::Normal;
                if text_is_blank(self.input.new_account_name.as_str()) {
                    proof { reveal_strlit("Account name cannot be empty"); }
                    self.status = "Account name cannot be empty".to_owned();
                    Action::Nothing
                } else {
                    Action::CreateAccount(self.input.new_account_name.clone(), kind_at(self.input.new_account_kind_idx))
                }
            },
            Key::Backspace => {
                if on_name {
                    pop_char(&mut self.input.new_account_name);
                }
                Action::Nothing
            },
            Key::Char(c) => {
                if on_name {
                    push_char(&mut self.input.new_account_name, c);
                }
                Action::Nothing
            },
            Key::Other => Action::Nothing,
        }
    }

    /// A key in the delete-account mode.
    pub fn handle_delete_account_mode(&mut self, key: Key) -> (r: Action)
        requires
            old(self).mode == Mode::DeleteAccount,
        ensures
            delete_account_step(*old(self), *final(self), key, r),
    {
        let n = self.accounts.len();
        match key {
            Key::Esc => {
                self.cancel();
                Action::Nothing
            },
            Key::Left => {
                if n > 0 {
                    self.input.account_idx = step_back(self.input.account_idx, n);
                }
                Action::Nothing
            },
            Key::Right => {
                if n > 0 {
                    self.input.account_idx = step_forward(self.input.account_idx, n);
                }
                Action::Nothing
            },
            Key::Enter => {
                if self.input.account_idx < n {
                    self.mode = Mode::Normal;
                    Action::DeleteAccount(self.accounts[self.input.account_idx].id)
                } else {
                    proof { reveal_strlit("No account selected"); }
                    self.status = "No account selected".to_owned();
                    Action::Nothing
                }
            },
            _ => Action::Nothing,
        }
    }

    /// Reacts to a key according to the mode.
    pub fn handle_key(&mut self, key: Key) -> (r: Action)
        ensures
            key_step(*old(self), *final(self), key, r),
    {
        match self.mode {
            Mode::Normal => self.handle_normal_mode(key),
            Mode::Input => self.handle_transaction_mode(key),
            Mode::Transfer => self.handle_transfer_mode(key),
            Mode::AddAccount => self.handle_add_account_mode(key),
            Mode::DeleteAccount => self.handle_delete_account_mode(key),
        }
    }
}

} // verus!
