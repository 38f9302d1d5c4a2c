use micro_yield_vault::MicroYieldVault;
use micro_yield_vault::Party;
use micro_yield_vault::TransferAction;
use micro_yield_vault::VaultError;

const ADMIN: u64 = 1;
const TOKEN: u64 = 2;
const USER: u64 = 7;
const OTHER: u64 = 8;

fn initialized_vault() -> MicroYieldVault {
    let mut v = MicroYieldVault::new();
    assert_eq!(v.initialize(ADMIN, TOKEN, true), Ok(()));
    v
}

#[test]
fn initialize_succeeds_once() {
    let mut v = MicroYieldVault::new();
    assert_eq!(v.initialize(ADMIN, TOKEN, true), Ok(()));
    assert_eq!(v.total_value_locked(), 0);
    assert_eq!(v.balance(USER), 0);
}

#[test]
fn initialize_requires_admin_authorization() {
    let mut v = MicroYieldVault::new();
    assert_eq!(v.initialize(ADMIN, TOKEN, false), Err(VaultError::Unauthorized));
    // The refused call left no configuration behind: a later authorized
    // call still succeeds.
    assert_eq!(v.initialize(ADMIN, TOKEN, true), Ok(()));
}

#[test]
fn second_initialize_fails_and_keeps_configuration() {
    let mut v = initialized_vault();
    assert_eq!(v.initialize(OTHER, 99, true), Err(VaultError::AlreadyInitialized));
    // The configuration is unchanged: the first admin still passes the
    // emergency authorization check and the would-be usurper does not.
    assert_eq!(v.emergency_withdraw(ADMIN, OTHER, 1, true, true), Ok(()));
    assert_eq!(
        v.emergency_withdraw(OTHER, OTHER, 1, true, true),
        Err(VaultError::Unauthorized)
    );
}

#[test]
fn deposit_credits_the_ledger() {
    let mut v = initialized_vault();
    assert_eq!(v.deposit(USER, 100, true, true), Ok(()));
    assert_eq!(v.balance(USER), 100);
    assert_eq!(v.total_value_locked(), 100);
    assert_eq!(v.deposit(USER, 25, true, true), Ok(()));
    assert_eq!(v.balance(USER), 125);
    assert_eq!(v.total_value_locked(), 125);
}

#[test]
fn deposit_with_zero_amount_fails_invalid_amount() {
    let mut v = initialized_vault();
    assert_eq!(v.deposit(USER, 50, true, true), Ok(()));
    assert_eq!(v.deposit(USER, 0, true, true), Err(VaultError::InvalidAmount));
    assert_eq!(v.balance(USER), 50);
}

#[test]
fn deposit_with_negative_amount_fails_invalid_amount() {
    let mut v = initialized_vault();
    assert_eq!(v.deposit(USER, -3, true, true), Err(VaultError::InvalidAmount));
    assert_eq!(v.balance(USER), 0);
}

#[test]
fn deposit_without_authorization_fails() {
    let mut v = initialized_vault();
    assert_eq!(v.deposit(USER, 100, false, true), Err(VaultError::Unauthorized));
    assert_eq!(v.balance(USER), 0);
}

#[test]
fn deposit_with_failed_transfer_leaves_ledger_unmodified() {
    let mut v = initialized_vault();
    assert_eq!(v.deposit(USER, 100, true, false), Err(VaultError::TransferFailed));
    assert_eq!(v.balance(USER), 0);
    assert_eq!(v.total_value_locked(), 0);
}

#[test]
fn deposit_request_names_the_transfer_into_custody() {
    let v = initialized_vault();
    assert_eq!(
        v.deposit_request(USER, 100, true),
        Ok(TransferAction { from: Party::Identity(USER), to: Party::Vault, amount: 100 })
    );
    assert_eq!(v.deposit_request(USER, 0, true), Err(VaultError::InvalidAmount));
    assert_eq!(v.deposit_request(USER, 100, false), Err(VaultError::Unauthorized));
}

#[test]
fn withdraw_debits_the_ledger() {
    let mut v = initialized_vault();
    assert_eq!(v.deposit(USER, 100, true, true), Ok(()));
    assert_eq!(v.withdraw(USER, 40, true, true), Ok(()));
    assert_eq!(v.balance(USER), 60);
    assert_eq!(v.total_value_locked(), 60);
}

#[test]
fn withdraw_beyond_balance_fails_insufficient_balance() {
    let mut v = initialized_vault();
    assert_eq!(v.deposit(USER, 60, true, true), Ok(()));
    assert_eq!(v.withdraw(USER, 61, true, true), Err(VaultError::InsufficientBalance));
    assert_eq!(v.balance(USER), 60);
    assert_eq!(v.total_value_locked(), 60);
}

#[test]
fn withdraw_with_no_record_fails_insufficient_balance() {
    let mut v = initialized_vault();
    assert_eq!(v.withdraw(USER, 1, true, true), Err(VaultError::InsufficientBalance));
    assert_eq!(v.balance(USER), 0);
}

#[test]
fn withdraw_with_non_positive_amount_fails_invalid_amount() {
    let mut v = initialized_vault();
    assert_eq!(v.deposit(USER, 10, true, true), Ok(()));
    assert_eq!(v.withdraw(USER, 0, true, true), Err(VaultError::InvalidAmount));
    assert_eq!(v.withdraw(USER, -1, true, true), Err(VaultError::InvalidAmount));
    assert_eq!(v.balance(USER), 10);
}

#[test]
fn withdraw_without_authorization_fails() {
    let mut v = initialized_vault();
    assert_eq!(v.deposit(USER, 10, true, true), Ok(()));
    assert_eq!(v.withdraw(USER, 5, false, true), Err(VaultError::Unauthorized));
    assert_eq!(v.balance(USER), 10);
}

#[test]
fn withdraw_debit_precedes_the_transfer() {
    // The ledger is debited before the external transfer is attempted, so a
    // failed transfer reports TransferFailed with the debit already
    // persisted.
    let mut v = initialized_vault();
    assert_eq!(v.deposit(USER, 100, true, true), Ok(()));
    assert_eq!(v.withdraw(USER, 30, true, false), Err(VaultError::TransferFailed));
    assert_eq!(v.balance(USER), 70);
    assert_eq!(v.total_value_locked(), 70);
}

#[test]
fn withdraw_begin_names_the_transfer_out_of_custody() {
    let mut v = initialized_vault();
    assert_eq!(v.deposit(USER, 100, true, true), Ok(()));
    assert_eq!(
        v.withdraw_begin(USER, 40, true),
        Ok(TransferAction { from: Party::Vault, to: Party::Identity(USER), amount: 40 })
    );
    assert_eq!(v.balance(USER), 60);
}

#[test]
fn balance_of_unknown_user_is_zero() {
    let mut v = initialized_vault();
    assert_eq!(v.deposit(USER, 100, true, true), Ok(()));
    assert_eq!(v.balance(OTHER), 0);
}

#[test]
fn balance_reduced_to_zero_stays_observable_as_zero() {
    let mut v = initialized_vault();
    assert_eq!(v.deposit(USER, 100, true, true), Ok(()));
    assert_eq!(v.withdraw(USER, 100, true, true), Ok(()));
    assert_eq!(v.balance(USER), 0);
    assert_eq!(v.total_value_locked(), 0);
}

#[test]
fn total_value_locked_sums_every_depositor() {
    let mut v = initialized_vault();
    assert_eq!(v.deposit(USER, 100, true, true), Ok(()));
    assert_eq!(v.deposit(OTHER, 250, true, true), Ok(()));
    assert_eq!(v.deposit(9, 1, true, true), Ok(()));
    assert_eq!(v.withdraw(OTHER, 50, true, true), Ok(()));
    assert_eq!(
        v.total_value_locked(),
        v.balance(USER) + v.balance(OTHER) + v.balance(9)
    );
    assert_eq!(v.total_value_locked(), 301);
}

#[test]
fn balance_is_net_of_deposits_and_withdrawals() {
    let mut v = initialized_vault();
    assert_eq!(v.deposit(USER, 100, true, true), Ok(()));
    assert_eq!(v.deposit(USER, 20, true, true), Ok(()));
    assert_eq!(v.withdraw(USER, 30, true, true), Ok(()));
    assert_eq!(v.deposit(USER, 5, true, true), Ok(()));
    assert_eq!(v.withdraw(USER, 45, true, true), Ok(()));
    assert_eq!(v.balance(USER), 100 + 20 + 5 - 30 - 45);
}

#[test]
fn emergency_withdraw_requires_the_admin() {
    let mut v = initialized_vault();
    assert_eq!(v.deposit(USER, 100, true, true), Ok(()));
    assert_eq!(
        v.emergency_withdraw(USER, OTHER, 50, true, true),
        Err(VaultError::Unauthorized)
    );
    assert_eq!(
        v.emergency_withdraw(ADMIN, OTHER, 50, false, true),
        Err(VaultError::Unauthorized)
    );
    // The refused drain produced no asset movement request and touched
    // nothing.
    assert_eq!(
        v.emergency_withdraw_request(USER, OTHER, 50, true),
        Err(VaultError::Unauthorized)
    );
    assert_eq!(v.balance(USER), 100);
    assert_eq!(v.total_value_locked(), 100);
}

#[test]
fn emergency_withdraw_request_names_the_drain() {
    let v = initialized_vault();
    assert_eq!(
        v.emergency_withdraw_request(ADMIN, OTHER, 75, true),
        Ok(TransferAction { from: Party::Vault, to: Party::Identity(OTHER), amount: 75 })
    );
}

#[test]
fn emergency_withdraw_reports_a_rejected_transfer() {
    let v = initialized_vault();
    assert_eq!(
        v.emergency_withdraw(ADMIN, OTHER, 75, true, false),
        Err(VaultError::TransferFailed)
    );
}

#[test]
fn emergency_withdraw_leaves_the_ledger_untouched() {
    let mut v = initialized_vault();
    assert_eq!(v.deposit(USER, 100, true, true), Ok(()));
    assert_eq!(v.emergency_withdraw(ADMIN, OTHER, 100, true, true), Ok(()));
    assert_eq!(v.balance(USER), 100);
    assert_eq!(v.total_value_locked(), 100);
}

#[test]
fn scenario_deposit_withdraw_and_emergency_drain() {
    let mut v = MicroYieldVault::new();
    assert_eq!(v.initialize(ADMIN, TOKEN, true), Ok(()));
    assert_eq!(v.deposit(USER, 100, true, true), Ok(()));
    assert_eq!(v.balance(USER), 100);
    let action = v.withdraw_begin(USER, 40, true);
    assert_eq!(
        action,
        Ok(TransferAction { from: Party::Vault, to: Party::Identity(USER), amount: 40 })
    );
    assert_eq!(v.balance(USER), 60);
    assert_eq!(v.withdraw(USER, 1000, true, true), Err(VaultError::InsufficientBalance));
    assert_eq!(v.balance(USER), 60);
    assert_eq!(v.emergency_withdraw(ADMIN, OTHER, 60, true, true), Ok(()));
    assert_eq!(v.balance(USER), 60);
    assert_eq!(v.total_value_locked(), 60);
}
