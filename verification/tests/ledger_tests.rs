use bridge::ExecutionError;
use bridge::Ledger;

#[test]
fn mint_credits_balance_and_supply() {
    let mut ledger = Ledger::new();
    assert_eq!(ledger.balance_of((0, 1)), 0);
    assert_eq!(ledger.total_supply(0), 0);
    assert!(ledger.mint(0, 1, 700).is_ok());
    assert!(ledger.mint(0, 2, 300).is_ok());
    assert_eq!(ledger.balance_of((0, 1)), 700);
    assert_eq!(ledger.balance_of((0, 2)), 300);
    assert_eq!(ledger.total_supply(0), 1000);
    // Tokens are independent ledgers.
    assert_eq!(ledger.total_supply(1), 0);
}

#[test]
fn burn_debits_balance_and_supply() {
    let mut ledger = Ledger::new();
    assert!(ledger.mint(0, 1, 1000).is_ok());
    assert!(ledger.burn(0, 1, 400).is_ok());
    assert_eq!(ledger.balance_of((0, 1)), 600);
    assert_eq!(ledger.total_supply(0), 600);
}

#[test]
fn burn_beyond_balance_is_refused_without_change() {
    let mut ledger = Ledger::new();
    assert!(ledger.mint(0, 1, 100).is_ok());
    assert_eq!(
        ledger.burn(0, 1, 101),
        Err(ExecutionError::InsufficientBalance)
    );
    assert_eq!(ledger.balance_of((0, 1)), 100);
    assert_eq!(ledger.total_supply(0), 100);
}

#[test]
fn mint_overflowing_the_supply_is_refused_without_change() {
    let mut ledger = Ledger::new();
    assert!(ledger.mint(0, 1, u128::MAX).is_ok());
    assert_eq!(ledger.mint(0, 2, 1), Err(ExecutionError::Overflow));
    assert_eq!(ledger.balance_of((0, 2)), 0);
    assert_eq!(ledger.total_supply(0), u128::MAX);
}
