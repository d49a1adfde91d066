use ledger_engine::events::{AccountActions, AccountEvent};
use ledger_engine::processing::AccountProcessing;

fn event(action: AccountActions, client: u16, tx: i32, amount: Option<u64>) -> AccountEvent {
    AccountEvent {
        transaction_id: tx,
        action_type: action,
        client_id: client,
        amount,
    }
}

#[test]
fn deposits_and_withdrawals_settle() {
    let mut app = AccountProcessing::default();
    let events = vec![
        event(AccountActions::Deposit, 1, 1, Some(10000)),
        event(AccountActions::Deposit, 2, 2, Some(20000)),
        event(AccountActions::Deposit, 1, 3, Some(20000)),
        event(AccountActions::Withdrawal, 1, 4, Some(15000)),
        event(AccountActions::Withdrawal, 2, 5, Some(30000)),
    ];
    app.replay(&events);

    let one = app.accounts.get(&1).unwrap();
    assert_eq!(one.available, 15000);
    assert_eq!(one.held, 0);
    assert!(!one.locked);

    // the withdrawal of 3.0 was rejected for insufficient funds
    let two = app.accounts.get(&2).unwrap();
    assert_eq!(two.available, 20000);
    assert_eq!(two.held, 0);
    assert!(!two.locked);
}

#[test]
fn dispute_holds_funds() {
    let mut app = AccountProcessing::default();
    let events = vec![
        event(AccountActions::Deposit, 1, 1, Some(50000)),
        event(AccountActions::Dispute, 1, 1, None),
    ];
    app.replay(&events);

    let one = app.accounts.get(&1).unwrap();
    assert_eq!(one.available, 0);
    assert_eq!(one.held, 50000);
    assert!(!one.locked);
}

#[test]
fn resolve_releases_disputed_funds() {
    let mut app = AccountProcessing::default();
    let events = vec![
        event(AccountActions::Deposit, 1, 1, Some(50000)),
        event(AccountActions::Dispute, 1, 1, None),
        event(AccountActions::Resolve, 1, 1, None),
    ];
    app.replay(&events);

    let one = app.accounts.get(&1).unwrap();
    assert_eq!(one.available, 50000);
    assert_eq!(one.held, 0);
    assert!(!one.locked);
}

#[test]
fn charge_back_locks_account() {
    let mut app = AccountProcessing::default();
    let events = vec![
        event(AccountActions::Deposit, 1, 1, Some(50000)),
        event(AccountActions::Dispute, 1, 1, None),
        event(AccountActions::ChargeBack, 1, 1, None),
    ];
    app.replay(&events);

    let one = app.accounts.get(&1).unwrap();
    assert_eq!(one.available, 0);
    assert_eq!(one.held, 0);
    assert!(one.locked);
}

#[test]
fn dispute_of_unknown_transaction_changes_nothing() {
    let mut app = AccountProcessing::default();
    let events = vec![event(AccountActions::Dispute, 1, 99, None)];
    app.replay(&events);

    assert_eq!(app.accounts.len(), 0);
    assert_eq!(app.transaction_amount.len(), 0);
}

#[test]
fn resolve_of_unknown_transaction_changes_nothing() {
    let mut app = AccountProcessing::default();
    let events = vec![
        event(AccountActions::Deposit, 1, 1, Some(10000)),
        event(AccountActions::Resolve, 1, 2, None),
    ];
    app.replay(&events);

    let one = app.accounts.get(&1).unwrap();
    assert_eq!(one.available, 10000);
    assert_eq!(one.held, 0);
    assert!(!one.locked);
}

#[test]
fn charge_back_of_unknown_transaction_changes_nothing() {
    let mut app = AccountProcessing::default();
    let events = vec![
        event(AccountActions::Deposit, 1, 1, Some(10000)),
        event(AccountActions::ChargeBack, 1, 99, None),
    ];
    app.replay(&events);

    let one = app.accounts.get(&1).unwrap();
    assert_eq!(one.available, 10000);
    assert_eq!(one.held, 0);
    assert!(!one.locked);
}

#[test]
fn rejected_withdrawal_still_enters_ledger() {
    // a withdrawal rejected for insufficient funds still records its amount,
    // so a later dispute of it moves money that never actually left
    let mut app = AccountProcessing::default();
    let events = vec![
        event(AccountActions::Deposit, 1, 1, Some(10000)),
        event(AccountActions::Withdrawal, 1, 2, Some(50000)),
        event(AccountActions::Deposit, 1, 3, Some(100000)),
        event(AccountActions::Dispute, 1, 2, None),
    ];
    app.replay(&events);

    let one = app.accounts.get(&1).unwrap();
    assert_eq!(one.available, 60000);
    assert_eq!(one.held, 50000);
}

#[test]
fn process_event_creates_account_even_for_dropped_lookup() {
    // process_event itself (below the replay filter) creates the addressed
    // account before it drops an unknown-transaction dispute
    let mut app = AccountProcessing::default();
    let dispute = event(AccountActions::Dispute, 5, 77, None);
    app.process_event(&dispute);

    let five = app.accounts.get(&5).unwrap();
    assert_eq!(five.available, 0);
    assert_eq!(five.held, 0);
    assert!(!five.locked);
    assert_eq!(app.transaction_amount.len(), 0);
}

#[test]
fn lookup_classification() {
    assert!(AccountProcessing::event_needs_transaction_lookup(
        AccountActions::Dispute
    ));
    assert!(AccountProcessing::event_needs_transaction_lookup(
        AccountActions::Resolve
    ));
    assert!(AccountProcessing::event_needs_transaction_lookup(
        AccountActions::ChargeBack
    ));
    assert!(!AccountProcessing::event_needs_transaction_lookup(
        AccountActions::Deposit
    ));
    assert!(!AccountProcessing::event_needs_transaction_lookup(
        AccountActions::Withdrawal
    ));
}

#[test]
fn invalid_lookup_filter() {
    let mut app = AccountProcessing::default();
    let deposit = event(AccountActions::Deposit, 1, 1, Some(10000));
    assert!(!app.dispute_action_with_invalid_transaction(&deposit));
    app.consume(&deposit);

    let known = event(AccountActions::Dispute, 1, 1, None);
    assert!(!app.dispute_action_with_invalid_transaction(&known));

    let unknown = event(AccountActions::Dispute, 1, 2, None);
    assert!(app.dispute_action_with_invalid_transaction(&unknown));
}

#[test]
fn snapshot_lists_accounts_in_ascending_id_order() {
    let mut app = AccountProcessing::default();
    let events = vec![
        event(AccountActions::Deposit, 5, 1, Some(10000)),
        event(AccountActions::Deposit, 1, 2, Some(20000)),
        event(AccountActions::Deposit, 3, 3, Some(30000)),
    ];
    app.replay(&events);

    let rows = app.snapshot();
    let ids: Vec<u16> = rows.iter().map(|a| a.id).collect();
    assert_eq!(ids, vec![1, 3, 5]);
    assert_eq!(rows[0].available, 20000);
    assert_eq!(rows[1].available, 30000);
    assert_eq!(rows[2].available, 10000);
}

#[test]
fn apply_dispatches_on_action() {
    let mut account = ledger_engine::account::ClientAccount::new(9, 30);
    let deposit = event(AccountActions::Deposit, 9, 1, Some(12));
    AccountProcessing::apply(&mut account, &deposit);
    assert_eq!(account.available, 42);

    let missing_amount = event(AccountActions::Withdrawal, 9, 2, None);
    AccountProcessing::apply(&mut account, &missing_amount);
    assert_eq!(account.available, 42, "a missing amount reads as zero");
}
