//! The value ledger: conservation, transfers, minting and the bonus timer.

use oracle_ai::bonus::DailyBonus;
use oracle_ai::ledger::{TokenOperation, TokenResponse, TokenState};
use oracle_ai::types::{
    AccountId, EngineError, DAILY_BONUS_AMOUNT, DAILY_BONUS_COOLDOWN_MICROS,
};

fn acct(id: u64) -> AccountId {
    AccountId { id }
}

fn sum_of_balances(s: &TokenState) -> u128 {
    s.accounts.iter().map(|e| e.balance as u128).sum()
}

/// Conservation: after every credit, debit and transfer, the sum of all
/// balances equals the total supply register.
#[test]
fn conservation_across_operations() {
    let mut s = TokenState::new();
    assert_eq!(s.total_supply, 0);

    s.credit(acct(1), 5_000_000);
    assert_eq!(sum_of_balances(&s), s.total_supply as u128);
    s.credit(acct(2), 3_000_000);
    assert_eq!(sum_of_balances(&s), s.total_supply as u128);

    assert_eq!(s.debit(acct(1), 1_000_000), Ok(()));
    assert_eq!(sum_of_balances(&s), s.total_supply as u128);
    assert_eq!(s.total_supply, 7_000_000);

    assert_eq!(s.transfer(acct(2), acct(3), 2_000_000), Ok(()));
    assert_eq!(sum_of_balances(&s), s.total_supply as u128);
    assert_eq!(s.total_supply, 7_000_000);
    assert_eq!(s.balance(acct(1)), 4_000_000);
    assert_eq!(s.balance(acct(2)), 1_000_000);
    assert_eq!(s.balance(acct(3)), 2_000_000);
}

/// A debit over the balance fails with `InsufficientBalance` and changes
/// nothing.
#[test]
fn debit_insufficient_balance() {
    let mut s = TokenState::new();
    s.credit(acct(1), 100);
    assert_eq!(s.debit(acct(1), 101), Err(EngineError::InsufficientBalance));
    assert_eq!(s.balance(acct(1)), 100);
    assert_eq!(s.total_supply, 100);
    assert_eq!(s.debit(acct(9), 1), Err(EngineError::InsufficientBalance));
}

/// A transfer is atomic as a pair: when the debit fails no credit occurs.
#[test]
fn transfer_atomic_on_failure() {
    let mut s = TokenState::new();
    s.credit(acct(1), 500);
    assert_eq!(
        s.transfer(acct(1), acct(2), 501),
        Err(EngineError::InsufficientBalance)
    );
    assert_eq!(s.balance(acct(1)), 500);
    assert_eq!(s.balance(acct(2)), 0);
    assert_eq!(sum_of_balances(&s), s.total_supply as u128);
}

/// Minting is reserved to a super owner; the transfer surface demands an
/// authenticated caller.
#[test]
fn operation_surface_authorization() {
    let mut s = TokenState::new();
    let r = s.execute_operation(None, false, 0, TokenOperation::Transfer {
        to: acct(2),
        amount: 1,
    });
    assert_eq!(r, TokenResponse::Error(EngineError::Unauthenticated));

    let r = s.execute_operation(Some(acct(1)), false, 0, TokenOperation::Mint {
        to: acct(2),
        amount: 100,
    });
    assert_eq!(r, TokenResponse::Error(EngineError::Unauthorized));

    let r = s.execute_operation(Some(acct(1)), true, 0, TokenOperation::Mint {
        to: acct(2),
        amount: 100,
    });
    assert_eq!(r, TokenResponse::Accepted);
    assert_eq!(s.balance(acct(2)), 100);

    let r = s.execute_operation(Some(acct(2)), false, 0, TokenOperation::Transfer {
        to: acct(3),
        amount: 40,
    });
    assert_eq!(r, TokenResponse::Accepted);
    assert_eq!(s.balance(acct(3)), 40);
    assert_eq!(sum_of_balances(&s), s.total_supply as u128);
}

/// Bootstrap mints the same initial supply to every listed owner.
#[test]
fn instantiate_mints_initial_supply() {
    let mut s = TokenState::new();
    let owners = vec![acct(1), acct(2), acct(3)];
    s.instantiate(&owners, 1_000_000);
    for o in owners {
        assert_eq!(s.balance(o), 1_000_000);
    }
    assert_eq!(s.total_supply, 3_000_000);
    assert_eq!(sum_of_balances(&s), s.total_supply as u128);
}

/// The very first claim of a never-claimed record is always eligible,
/// even at the epoch origin; one microsecond after a grant a second
/// claim fails and reports the remaining wait exactly.
#[test]
fn bonus_first_claim_and_cooldown() {
    let mut b = DailyBonus::new();
    assert_eq!(b.last_claim, None);
    assert!(b.can_claim(0));
    assert_eq!(b.time_until_next_claim(0), 0);

    assert_eq!(b.claim(0), DAILY_BONUS_AMOUNT);
    assert_eq!(b.last_claim, Some(0));

    // one microsecond later: not yet eligible, with the wait reported
    assert!(!b.can_claim(1));
    assert_eq!(b.claim(1), 0);
    assert_eq!(b.last_claim, Some(0));
    assert_eq!(b.time_until_next_claim(1), DAILY_BONUS_COOLDOWN_MICROS - 1);

    // a full window later the next claim is eligible again
    assert!(b.can_claim(DAILY_BONUS_COOLDOWN_MICROS));
}

/// A bonus claim at the epoch origin succeeds immediately; a second one
/// a microsecond later fails with the correct remaining wait, and each
/// eligible window grants exactly one credit.
#[test]
fn bonus_single_credit_per_window() {
    let mut s = TokenState::new();
    let owner = acct(7);

    let r = s.execute_operation(Some(owner), false, 0, TokenOperation::ClaimBonus);
    assert_eq!(r, TokenResponse::Accepted);
    assert_eq!(s.balance(owner), DAILY_BONUS_AMOUNT);

    let r = s.execute_operation(Some(owner), false, 1, TokenOperation::ClaimBonus);
    assert_eq!(
        r,
        TokenResponse::Error(EngineError::NotYetEligible {
            remaining_micros: DAILY_BONUS_COOLDOWN_MICROS - 1
        })
    );
    assert_eq!(s.balance(owner), DAILY_BONUS_AMOUNT);

    // after a full window the next claim is granted again, exactly once
    let r = s.execute_operation(
        Some(owner),
        false,
        DAILY_BONUS_COOLDOWN_MICROS,
        TokenOperation::ClaimBonus,
    );
    assert_eq!(r, TokenResponse::Accepted);
    assert_eq!(s.balance(owner), 2 * DAILY_BONUS_AMOUNT);
    assert_eq!(sum_of_balances(&s), s.total_supply as u128);
}
