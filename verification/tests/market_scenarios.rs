//! End-to-end scenarios against the market engine: lifecycle, betting,
//! resolution, settlement and claims.

use oracle_ai::market::{MarketOperation, MarketResponse, MarketState};
use oracle_ai::types::{AccountId, EngineError, MarketCategory, MarketStatus, OracleMode, Outcome};

fn acct(id: u64) -> AccountId {
    AccountId { id }
}

fn create_op(duration_minutes: u64) -> MarketOperation {
    MarketOperation::CreateMarket {
        question: "Will it go up?".to_string(),
        description: "A binary market".to_string(),
        category: MarketCategory::Crypto,
        duration_minutes,
        oracle_mode: OracleMode::Manual,
    }
}

/// A market with two opposing 1,000,000 atto bets, resolved Up: the winner
/// is owed floor(1,000,000 * 2,000,000 * 95 / (1,000,000 * 100)) =
/// 1,900,000 and the loser nothing.
#[test]
fn scenario_two_sided_market_pays_winner() {
    let mut s = MarketState::new();
    let creator = acct(1);
    let up_bettor = acct(2);
    let down_bettor = acct(3);

    let r = s.execute_operation(Some(creator), 0, create_op(60));
    assert_eq!(r, MarketResponse::MarketId(0));

    let r = s.execute_operation(
        Some(up_bettor),
        10,
        MarketOperation::PlaceBet { market_id: 0, prediction: Outcome::Up, amount: 1_000_000 },
    );
    assert_eq!(r, MarketResponse::Accepted);
    let r = s.execute_operation(
        Some(down_bettor),
        20,
        MarketOperation::PlaceBet { market_id: 0, prediction: Outcome::Down, amount: 1_000_000 },
    );
    assert_eq!(r, MarketResponse::Accepted);

    let m = s.get_market(0).unwrap();
    assert_eq!(m.total_pool, 2_000_000);
    assert_eq!(m.up_pool, 1_000_000);
    assert_eq!(m.down_pool, 1_000_000);

    let r = s.execute_operation(
        Some(creator),
        30,
        MarketOperation::ResolveMarket { market_id: 0, outcome: Outcome::Up },
    );
    assert_eq!(r, MarketResponse::Accepted);
    // the fee statistic records 5% of the pool at resolution
    assert_eq!(s.platform_fees, 100_000);

    let r = s.execute_operation(Some(up_bettor), 40, MarketOperation::ClaimWinnings {
        market_id: 0,
    });
    assert_eq!(r, MarketResponse::Payout(1_900_000));

    let r = s.execute_operation(Some(down_bettor), 50, MarketOperation::ClaimWinnings {
        market_id: 0,
    });
    assert_eq!(r, MarketResponse::Error(EngineError::NothingToClaim));
}

/// Betting after `closes_at` is rejected with `InvalidState` even though
/// the stored status still reads `Active`.
#[test]
fn scenario_bet_after_close_rejected() {
    let mut s = MarketState::new();
    let r = s.execute_operation(Some(acct(1)), 0, create_op(60));
    assert_eq!(r, MarketResponse::MarketId(0));
    let closes_at = 60 * 60_000_000;

    assert_eq!(s.get_market(0).unwrap().status, MarketStatus::Active);
    let r = s.execute_operation(
        Some(acct(2)),
        closes_at,
        MarketOperation::PlaceBet { market_id: 0, prediction: Outcome::Up, amount: 1_000_000 },
    );
    assert_eq!(r, MarketResponse::Error(EngineError::InvalidState));
    // the stored status never moved
    assert_eq!(s.get_market(0).unwrap().status, MarketStatus::Active);

    // one microsecond before the close time the bet is accepted
    let r = s.execute_operation(
        Some(acct(2)),
        closes_at - 1,
        MarketOperation::PlaceBet { market_id: 0, prediction: Outcome::Up, amount: 1_000_000 },
    );
    assert_eq!(r, MarketResponse::Accepted);
}

/// Resolving a market twice fails on the second call and leaves the pools
/// and the outcome untouched.
#[test]
fn scenario_double_resolution_rejected() {
    let mut s = MarketState::new();
    s.execute_operation(Some(acct(1)), 0, create_op(60));
    s.execute_operation(Some(acct(2)), 1, MarketOperation::PlaceBet {
        market_id: 0,
        prediction: Outcome::Up,
        amount: 500_000,
    });

    let r = s.execute_operation(Some(acct(1)), 10, MarketOperation::ResolveMarket {
        market_id: 0,
        outcome: Outcome::Up,
    });
    assert_eq!(r, MarketResponse::Accepted);

    let r = s.execute_operation(Some(acct(1)), 20, MarketOperation::ResolveMarket {
        market_id: 0,
        outcome: Outcome::Down,
    });
    assert_eq!(r, MarketResponse::Error(EngineError::AlreadyResolved));

    let m = s.get_market(0).unwrap();
    assert_eq!(m.outcome, Some(Outcome::Up));
    assert_eq!(m.total_pool, 500_000);
    assert_eq!(m.up_pool, 500_000);
    assert_eq!(m.down_pool, 0);
}

/// Claiming on a market whose winning pool is empty: the settlement
/// calculator reports a zero payout rather than an error, and the claim
/// surface then reports there is nothing to disburse.
#[test]
fn scenario_zero_winning_pool() {
    let mut s = MarketState::new();
    s.execute_operation(Some(acct(1)), 0, create_op(60));
    let bettor = acct(2);
    s.execute_operation(Some(bettor), 1, MarketOperation::PlaceBet {
        market_id: 0,
        prediction: Outcome::Up,
        amount: 1_000_000,
    });
    // nobody bet Down, yet the market resolves Down
    s.execute_operation(Some(acct(1)), 10, MarketOperation::ResolveMarket {
        market_id: 0,
        outcome: Outcome::Down,
    });

    assert_eq!(s.calculate_payout(0, bettor), Ok(0));
    let r = s.execute_operation(Some(bettor), 20, MarketOperation::ClaimWinnings {
        market_id: 0,
    });
    assert_eq!(r, MarketResponse::Error(EngineError::NothingToClaim));
}

/// At most one claim per (market, account) ever pays: the second claim
/// fails with `AlreadyClaimed` and the ledger of claims only grows.
#[test]
fn no_double_claim() {
    let mut s = MarketState::new();
    s.execute_operation(Some(acct(1)), 0, create_op(60));
    let winner = acct(2);
    s.execute_operation(Some(winner), 1, MarketOperation::PlaceBet {
        market_id: 0,
        prediction: Outcome::Up,
        amount: 1_000_000,
    });
    s.execute_operation(Some(acct(3)), 2, MarketOperation::PlaceBet {
        market_id: 0,
        prediction: Outcome::Down,
        amount: 1_000_000,
    });
    s.execute_operation(Some(acct(1)), 10, MarketOperation::ResolveMarket {
        market_id: 0,
        outcome: Outcome::Up,
    });

    let r = s.execute_operation(Some(winner), 20, MarketOperation::ClaimWinnings {
        market_id: 0,
    });
    assert_eq!(r, MarketResponse::Payout(1_900_000));
    let r = s.execute_operation(Some(winner), 30, MarketOperation::ClaimWinnings {
        market_id: 0,
    });
    assert_eq!(r, MarketResponse::Error(EngineError::AlreadyClaimed));
    assert!(s.has_claimed(0, winner));
}

/// A stake under the floor is rejected before anything else about the
/// market is examined.
#[test]
fn below_minimum_stake_rejected() {
    let mut s = MarketState::new();
    s.execute_operation(Some(acct(1)), 0, create_op(60));
    let r = s.execute_operation(Some(acct(2)), 1, MarketOperation::PlaceBet {
        market_id: 0,
        prediction: Outcome::Up,
        amount: 99_999,
    });
    assert_eq!(r, MarketResponse::Error(EngineError::BelowMinimum));
    let r = s.execute_operation(Some(acct(2)), 1, MarketOperation::PlaceBet {
        market_id: 0,
        prediction: Outcome::Up,
        amount: 100_000,
    });
    assert_eq!(r, MarketResponse::Accepted);
}

/// Unknown market keys answer `NotFound` on every surface.
#[test]
fn unknown_market_not_found() {
    let mut s = MarketState::new();
    let r = s.execute_operation(Some(acct(1)), 0, MarketOperation::PlaceBet {
        market_id: 7,
        prediction: Outcome::Up,
        amount: 1_000_000,
    });
    assert_eq!(r, MarketResponse::Error(EngineError::NotFound));
    let r = s.execute_operation(Some(acct(1)), 0, MarketOperation::ResolveMarket {
        market_id: 7,
        outcome: Outcome::Up,
    });
    assert_eq!(r, MarketResponse::Error(EngineError::NotFound));
    assert_eq!(s.calculate_payout(7, acct(1)), Err(EngineError::NotFound));
    assert!(s.get_market(7).is_err());
    assert_eq!(s.get_bets(7), vec![]);
}

/// Every request without an authenticated caller is refused.
#[test]
fn unauthenticated_rejected() {
    let mut s = MarketState::new();
    let r = s.execute_operation(None, 0, create_op(60));
    assert_eq!(r, MarketResponse::Error(EngineError::Unauthenticated));
    let r = s.execute_operation(None, 0, MarketOperation::ClaimWinnings { market_id: 0 });
    assert_eq!(r, MarketResponse::Error(EngineError::Unauthenticated));
}

/// Only the creator may cancel, only while the market is active, and a
/// cancelled market takes no further bets or resolutions.
#[test]
fn cancellation_rules() {
    let mut s = MarketState::new();
    let creator = acct(1);
    s.execute_operation(Some(creator), 0, create_op(60));

    let r = s.execute_operation(Some(acct(2)), 1, MarketOperation::CancelMarket { market_id: 0 });
    assert_eq!(r, MarketResponse::Error(EngineError::Unauthorized));

    let r = s.execute_operation(Some(creator), 2, MarketOperation::CancelMarket { market_id: 0 });
    assert_eq!(r, MarketResponse::Accepted);
    assert_eq!(s.get_market(0).unwrap().status, MarketStatus::Cancelled);

    let r = s.execute_operation(Some(creator), 3, MarketOperation::CancelMarket { market_id: 0 });
    assert_eq!(r, MarketResponse::Error(EngineError::AlreadyCancelled));
    let r = s.execute_operation(Some(creator), 4, MarketOperation::ResolveMarket {
        market_id: 0,
        outcome: Outcome::Up,
    });
    assert_eq!(r, MarketResponse::Error(EngineError::AlreadyCancelled));
    let r = s.execute_operation(Some(acct(2)), 5, MarketOperation::PlaceBet {
        market_id: 0,
        prediction: Outcome::Up,
        amount: 1_000_000,
    });
    assert_eq!(r, MarketResponse::Error(EngineError::InvalidState));
}

/// A market duration outside the legal bounds is rejected: under one
/// minute, or over seven days.
#[test]
fn duration_bounds() {
    let mut s = MarketState::new();
    let r = s.execute_operation(Some(acct(1)), 0, create_op(0));
    assert_eq!(r, MarketResponse::Error(EngineError::DurationOutOfBounds));
    let r = s.execute_operation(Some(acct(1)), 0, create_op(10_081));
    assert_eq!(r, MarketResponse::Error(EngineError::DurationOutOfBounds));
    let r = s.execute_operation(Some(acct(1)), 0, create_op(10_080));
    assert_eq!(r, MarketResponse::MarketId(0));
    let r = s.execute_operation(Some(acct(1)), 0, create_op(1));
    assert_eq!(r, MarketResponse::MarketId(1));
}

/// A stake the total pool cannot count is rejected defensively so the
/// accounting invariant keeps holding.
#[test]
fn pool_overflow_rejected() {
    let mut s = MarketState::new();
    s.execute_operation(Some(acct(1)), 0, create_op(60));
    let r = s.execute_operation(Some(acct(2)), 1, MarketOperation::PlaceBet {
        market_id: 0,
        prediction: Outcome::Up,
        amount: u64::MAX,
    });
    assert_eq!(r, MarketResponse::Accepted);
    let r = s.execute_operation(Some(acct(3)), 2, MarketOperation::PlaceBet {
        market_id: 0,
        prediction: Outcome::Down,
        amount: 100_000,
    });
    assert_eq!(r, MarketResponse::Error(EngineError::Overflow));
    let m = s.get_market(0).unwrap();
    assert_eq!(m.total_pool, u64::MAX);
    assert_eq!(m.down_pool, 0);
}

/// Settlement pays the first matching bet of an account that bet the
/// winning side more than once; later stakes of the same account are not
/// summed into its payout.
#[test]
fn first_matching_bet_settles() {
    let mut s = MarketState::new();
    s.execute_operation(Some(acct(1)), 0, create_op(60));
    let bettor = acct(2);
    s.execute_operation(Some(bettor), 1, MarketOperation::PlaceBet {
        market_id: 0,
        prediction: Outcome::Up,
        amount: 1_000_000,
    });
    s.execute_operation(Some(bettor), 2, MarketOperation::PlaceBet {
        market_id: 0,
        prediction: Outcome::Up,
        amount: 3_000_000,
    });
    s.execute_operation(Some(acct(1)), 10, MarketOperation::ResolveMarket {
        market_id: 0,
        outcome: Outcome::Up,
    });
    // pool is 4,000,000, all on Up; the first bet of 1,000,000 settles:
    // floor(1,000,000 * 4,000,000 * 95 / (4,000,000 * 100)) = 950,000
    assert_eq!(s.calculate_payout(0, bettor), Ok(950_000));
}

/// Payout conservation: with every winning stake claimed, the payouts sum
/// to no more than the pool less the 5% fee.
#[test]
fn payouts_never_exceed_pool() {
    let mut s = MarketState::new();
    s.execute_operation(Some(acct(1)), 0, create_op(60));
    let stakes: [u64; 3] = [1_000_000, 2_500_000, 400_000];
    for (k, stake) in stakes.iter().enumerate() {
        let r = s.execute_operation(Some(acct(10 + k as u64)), 1, MarketOperation::PlaceBet {
            market_id: 0,
            prediction: Outcome::Up,
            amount: *stake,
        });
        assert_eq!(r, MarketResponse::Accepted);
    }
    s.execute_operation(Some(acct(2)), 2, MarketOperation::PlaceBet {
        market_id: 0,
        prediction: Outcome::Down,
        amount: 1_100_000,
    });
    s.execute_operation(Some(acct(1)), 10, MarketOperation::ResolveMarket {
        market_id: 0,
        outcome: Outcome::Up,
    });

    let total_pool = 5_000_000u64;
    let mut paid: u64 = 0;
    for (k, _) in stakes.iter().enumerate() {
        match s.execute_operation(Some(acct(10 + k as u64)), 20, MarketOperation::ClaimWinnings {
            market_id: 0,
        }) {
            MarketResponse::Payout(p) => paid += p,
            other => panic!("claim failed: {:?}", other),
        }
    }
    assert!(paid <= total_pool * 95 / 100);
    assert!(paid <= total_pool);
}

/// Market identifiers are assigned sequentially from zero.
#[test]
fn sequential_market_ids() {
    let mut s = MarketState::new();
    for expect in 0..3u64 {
        let r = s.execute_operation(Some(acct(1)), 0, create_op(60));
        assert_eq!(r, MarketResponse::MarketId(expect));
    }
    assert_eq!(s.next_market_id, 3);
}

/// The bets of a market come back in arrival order; the claim ledger
/// starts empty.
#[test]
fn bet_order_and_claim_ledger() {
    let mut s = MarketState::new();
    s.execute_operation(Some(acct(1)), 0, create_op(60));
    assert!(!s.has_claimed(0, acct(2)));
    for (k, amount) in [(2u64, 200_000u64), (3, 300_000), (2, 400_000)] {
        s.execute_operation(Some(acct(k)), k, MarketOperation::PlaceBet {
            market_id: 0,
            prediction: Outcome::Up,
            amount,
        });
    }
    let bets = s.get_bets(0);
    assert_eq!(bets.len(), 3);
    assert_eq!(bets[0].amount, 200_000);
    assert_eq!(bets[1].amount, 300_000);
    assert_eq!(bets[2].amount, 400_000);
    assert_eq!(bets[0].bettor, acct(2));
    assert!(!bets[0].claimed);
}

/// Claiming on a market that is not yet resolved is illegal for the
/// current lifecycle state.
#[test]
fn claim_before_resolution_rejected() {
    let mut s = MarketState::new();
    s.execute_operation(Some(acct(1)), 0, create_op(60));
    s.execute_operation(Some(acct(2)), 1, MarketOperation::PlaceBet {
        market_id: 0,
        prediction: Outcome::Up,
        amount: 1_000_000,
    });
    let r = s.execute_operation(Some(acct(2)), 2, MarketOperation::ClaimWinnings {
        market_id: 0,
    });
    assert_eq!(r, MarketResponse::Error(EngineError::InvalidState));
}
