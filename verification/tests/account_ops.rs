use ledger_engine::account::ClientAccount;
use ledger_engine::events::AccountEvent;
use ledger_engine::processing::AccountProcessing;
use std::mem;

#[test]
fn builder_pattern() {
    let id = 1414;
    let amount = 1414141;

    let client_account = ClientAccount::new(id, amount);
    assert_eq!(
        client_account.id, id,
        "id {} should be {}",
        client_account.id, id
    );
    assert_eq!(
        client_account.held, 0,
        "held {} should be {}",
        client_account.held, amount
    );
    assert_eq!(
        client_account.available, 1414141,
        "available {} should be {}",
        client_account.available, amount
    );
    assert_eq!(
        client_account.locked, false,
        "id {} should be {}",
        client_account.id, id
    );
}

#[test]
fn memory_layout_event() {
    assert_eq!(24, mem::size_of::<AccountEvent>());
}

#[test]
fn memory_layout_client() {
    assert_eq!(24, mem::size_of::<ClientAccount>());
}

#[test]
fn memory_layout_processing() {
    assert_eq!(48, mem::size_of::<AccountProcessing>());
}

#[test]
fn deposit_in_active_client_account() {
    let mut client_account = ClientAccount::new(14, 0);
    client_account.deposit(20);

    assert_eq!(0, client_account.held);
    assert_eq!(20, client_account.available);
}

#[test]
fn deposit_with_dispute_client_account() {
    let mut client_account = ClientAccount::new(14, 20);
    client_account.dispute(20);
    client_account.deposit(20);

    assert_eq!(client_account.available, 20, "it should be 20 available");
    assert_eq!(client_account.held, 20, "it should be 40 held");
}

#[test]
fn withdraw_from_client_account() {
    let mut client_account = ClientAccount::new(14, 20);
    client_account.withdraw(20);

    assert_eq!(client_account.available, 0, "it should be 0 available");
    assert_eq!(client_account.held, 0, "it should be 0 held");
}

#[test]
fn withdraw_to_much_from_client_account() {
    let mut client_account = ClientAccount::new(14, 20);
    client_account.withdraw(40);

    assert_eq!(client_account.available, 20, "it should be 20 available");
    assert_eq!(client_account.held, 0, "it should be 20 held");
}

#[test]
fn withdraw_from_disputed_account() {
    let mut client_account = ClientAccount::new(14, 20);
    client_account.dispute(10);
    client_account.withdraw(10);

    assert_eq!(client_account.available, 0, "it should be 0 available");
    assert_eq!(client_account.held, 10, "it should be 10 held");
}

#[test]
fn withdraw_to_much_from_disputed_account() {
    let mut client_account = ClientAccount::new(14, 20);
    client_account.dispute(10);
    client_account.withdraw(20);

    assert_eq!(client_account.available, 10, "it should be 10 available");
    assert_eq!(client_account.held, 10, "it should be 20 held");
}

#[test]
fn lock_account() {
    let mut client_account = ClientAccount::new(14, 20);
    client_account.dispute(10);
    assert_eq!(client_account.available, 10, "it should be 10 available");
    assert_eq!(client_account.held, 10, "it should be 10 held");

    client_account.charge_back(10);

    assert_eq!(client_account.available, 10, "it should be 10 available");
    assert_eq!(client_account.held, 0, "it should be 0 held");
    assert_eq!(client_account.locked, true, "it should be locked");
}

#[test]
fn resolve_dispute_account() {
    let mut client_account = ClientAccount::new(14, 20);
    client_account.dispute(10);
    client_account.resolve(10);

    assert_eq!(client_account.available, 20, "it should be 10 available");
    assert_eq!(client_account.held, 0, "it should be 10 held");
    assert_eq!(client_account.locked, false, "it should not be locked");
}

#[test]
fn deposit_on_locked_account_is_noop() {
    let mut client_account = ClientAccount::new(7, 20);
    client_account.dispute(10);
    client_account.charge_back(10);
    assert!(client_account.locked);

    client_account.deposit(5);

    assert_eq!(client_account.available, 10);
    assert_eq!(client_account.held, 0);
    assert!(client_account.locked);
}

#[test]
fn withdraw_on_locked_account_is_noop() {
    let mut client_account = ClientAccount::new(7, 20);
    client_account.dispute(10);
    client_account.charge_back(10);
    assert!(client_account.locked);

    client_account.withdraw(5);

    assert_eq!(client_account.available, 10);
    assert_eq!(client_account.held, 0);
    assert!(client_account.locked);
}

#[test]
fn dispute_applies_on_locked_account() {
    let mut client_account = ClientAccount::new(7, 20);
    client_account.dispute(10);
    client_account.charge_back(10);
    assert!(client_account.locked);

    client_account.dispute(4);

    assert_eq!(client_account.available, 6);
    assert_eq!(client_account.held, 4);
    assert!(client_account.locked);
}

#[test]
fn resolve_unlocks_locked_account() {
    let mut client_account = ClientAccount::new(7, 20);
    client_account.dispute(10);
    client_account.charge_back(10);
    assert!(client_account.locked);

    client_account.dispute(4);
    client_account.resolve(4);

    assert_eq!(client_account.available, 10);
    assert_eq!(client_account.held, 0);
    assert!(!client_account.locked);
}

#[test]
fn dispute_then_resolve_restores_balances() {
    let mut client_account = ClientAccount::new(3, 55);
    client_account.dispute(30);
    client_account.resolve(30);

    assert_eq!(client_account.available, 55);
    assert_eq!(client_account.held, 0);
    assert!(!client_account.locked);
}

#[test]
fn dispute_then_charge_back_removes_held() {
    let mut client_account = ClientAccount::new(3, 55);
    client_account.dispute(30);
    client_account.charge_back(30);

    assert_eq!(client_account.available, 25);
    assert_eq!(client_account.held, 0);
    assert!(client_account.locked);
}

#[test]
fn resolve_more_than_held_is_noop() {
    let mut client_account = ClientAccount::new(3, 55);
    client_account.dispute(30);
    client_account.resolve(31);

    assert_eq!(client_account.available, 25);
    assert_eq!(client_account.held, 30);
    assert!(!client_account.locked);
}

#[test]
fn charge_back_with_nothing_held_is_noop() {
    let mut client_account = ClientAccount::new(3, 55);
    client_account.charge_back(10);

    assert_eq!(client_account.available, 55);
    assert_eq!(client_account.held, 0);
    assert!(!client_account.locked);
}

#[test]
fn deposit_beyond_representable_total_is_noop() {
    let mut client_account = ClientAccount::new(3, u64::MAX - 5);
    client_account.deposit(10);

    assert_eq!(client_account.available, u64::MAX - 5);
    assert_eq!(client_account.held, 0);
}
