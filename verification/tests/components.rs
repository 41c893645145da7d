//! The oracle and agent components, the settlement formula, and the small
//! market helpers.

use oracle_ai::agent::{AIAgentOperation, AIAgentResponse, AIAgentState};
use oracle_ai::market::{MarketOperation, MarketState, MarketResponse};
use oracle_ai::oracle::{OracleOperation, OracleResponse, OracleState};
use oracle_ai::settlement::payout_amount;
use oracle_ai::types::{
    AccountId, AgentStrategy, EngineError, Market, MarketCategory, MarketStatus, OracleMode,
    Outcome,
};

fn acct(id: u64) -> AccountId {
    AccountId { id }
}

fn sample_market(status: MarketStatus, closes_at: u64, up: u64, down: u64) -> Market {
    Market {
        id: 0,
        creator: acct(1),
        question: "q".to_string(),
        description: "d".to_string(),
        category: MarketCategory::Sports,
        status,
        created_at: 0,
        closes_at,
        resolved_at: None,
        outcome: None,
        total_pool: up + down,
        up_pool: up,
        down_pool: down,
        oracle_mode: OracleMode::Manual,
        resolution_source: None,
    }
}

/// The fee-adjusted proportional payout, on exact values.
#[test]
fn payout_formula_exact() {
    // floor(1,000,000 * 2,000,000 * 95 / (1,000,000 * 100)) = 1,900,000
    assert_eq!(payout_amount(1_000_000, 2_000_000, 1_000_000), 1_900_000);
    // floor(500,000 * 2,000,000 * 95 / (1,500,000 * 100)) = 633,333
    assert_eq!(payout_amount(500_000, 2_000_000, 1_500_000), 633_333);
    // a sole winner of a one-sided pool gets 95% of it back
    assert_eq!(payout_amount(4_000_000, 4_000_000, 4_000_000), 3_800_000);
    // huge values stay exact in the double-width intermediate
    assert_eq!(
        payout_amount(u64::MAX, u64::MAX, u64::MAX),
        u64::MAX / 100 * 95 + (u64::MAX % 100) * 95 / 100
    );
}

/// Derived odds in basis points: neutral on an empty pool, proportional
/// otherwise, complementary on the two sides.
#[test]
fn odds_bps() {
    let m = sample_market(MarketStatus::Active, 100, 0, 0);
    assert_eq!(m.odds_up_bps(), 5000);
    assert_eq!(m.odds_down_bps(), 5000);
    let m = sample_market(MarketStatus::Active, 100, 3_000_000, 1_000_000);
    assert_eq!(m.odds_up_bps(), 7500);
    assert_eq!(m.odds_down_bps(), 2500);
}

/// The derived lifecycle predicates: active before the close time, closed
/// at and after it while the stored status still reads `Active`.
#[test]
fn lifecycle_predicates() {
    let m = sample_market(MarketStatus::Active, 100, 0, 0);
    assert!(m.is_active(99) && m.can_bet(99) && !m.is_closed(99));
    assert!(!m.is_active(100) && !m.can_bet(100) && m.is_closed(100));
    let m = sample_market(MarketStatus::Resolved, 100, 0, 0);
    assert!(!m.is_active(0) && !m.can_bet(0) && !m.is_closed(0));
}

/// A one-sided book quotes zero against the empty side.
#[test]
fn odds_one_sided() {
    let m = sample_market(MarketStatus::Active, 100, 0, 2_000_000);
    assert_eq!(m.odds_up_bps(), 0);
    assert_eq!(m.odds_down_bps(), 10000);
}

/// Category display names.
#[test]
fn category_names() {
    assert_eq!(MarketCategory::Crypto.as_str(), "Crypto");
    assert_eq!(MarketCategory::Sports.as_str(), "Sports");
    assert_eq!(MarketCategory::Politics.as_str(), "Politics");
    assert_eq!(MarketCategory::Weather.as_str(), "Weather");
    assert_eq!(MarketCategory::AI.as_str(), "AI");
    assert_eq!(MarketCategory::Custom.as_str(), "Custom");
}

/// Only registered oracles may submit prices; the latest submission per
/// symbol wins.
#[test]
fn oracle_price_feed() {
    let mut s = OracleState::new();
    let oracle = acct(5);

    let (r, fwd) = s.execute_operation(Some(oracle), 0, OracleOperation::SubmitPrice {
        symbol: "BTC".to_string(),
        price: 42,
    });
    assert_eq!(r, OracleResponse::Error(EngineError::Unauthorized));
    assert!(fwd.is_none());

    let (r, _) = s.execute_operation(Some(oracle), 0, OracleOperation::RegisterOracle);
    assert_eq!(r, OracleResponse::Accepted);

    let (r, _) = s.execute_operation(Some(oracle), 1, OracleOperation::SubmitPrice {
        symbol: "BTC".to_string(),
        price: 42,
    });
    assert_eq!(r, OracleResponse::Accepted);
    let (r, _) = s.execute_operation(Some(oracle), 2, OracleOperation::SubmitPrice {
        symbol: "BTC".to_string(),
        price: 57,
    });
    assert_eq!(r, OracleResponse::Accepted);
    assert_eq!(s.get_price(&"BTC".to_string()), Some(57));
    assert_eq!(s.get_price(&"ETH".to_string()), None);
    assert_eq!(s.price_feeds.len(), 1);
}

/// An accepted resolution is recorded and handed back as the market
/// command the host forwards; the market engine then settles it.
#[test]
fn oracle_resolution_forwards_to_market() {
    let mut oracle_state = OracleState::new();
    let oracle = acct(5);
    oracle_state.execute_operation(Some(oracle), 0, OracleOperation::RegisterOracle);

    let (r, fwd) = oracle_state.execute_operation(
        Some(oracle),
        10,
        OracleOperation::ResolveMarketManual { market_id: 0, outcome: Outcome::Up },
    );
    assert_eq!(r, OracleResponse::Accepted);
    assert_eq!(oracle_state.resolution_count, 1);
    let cmd = fwd.expect("an accepted resolution must forward a market command");

    let mut market_state = MarketState::new();
    market_state.execute_operation(Some(acct(1)), 0, MarketOperation::CreateMarket {
        question: "q".to_string(),
        description: "d".to_string(),
        category: MarketCategory::Crypto,
        duration_minutes: 60,
        oracle_mode: OracleMode::Decentralized,
    });
    let r = market_state.execute_operation(Some(oracle), 10, cmd);
    assert_eq!(r, MarketResponse::Accepted);
    assert_eq!(market_state.get_market(0).unwrap().status, MarketStatus::Resolved);
}

/// An AI resolution records its confidence and sources.
#[test]
fn oracle_ai_resolution_recorded() {
    let mut s = OracleState::new();
    let oracle = acct(5);
    s.execute_operation(Some(oracle), 0, OracleOperation::RegisterOracle);
    let (r, fwd) = s.execute_operation(Some(oracle), 30, OracleOperation::ResolveMarketAI {
        market_id: 9,
        outcome: Outcome::Down,
        confidence_percent: 88,
        reasoning: "sources agree".to_string(),
        sources: vec!["feed-a".to_string(), "feed-b".to_string()],
    });
    assert_eq!(r, OracleResponse::Accepted);
    assert!(fwd.is_some());
    assert_eq!(s.resolution_count, 1);
    let rec = &s.resolutions[0];
    assert_eq!(rec.market_id, 9);
    assert_eq!(rec.outcome, Outcome::Down);
    assert_eq!(rec.confidence_percent, 88);
    assert_eq!(rec.resolved_at, 30);
    assert_eq!(rec.sources.len(), 2);
}

/// Agents: creation, betting through the market command, statistics and
/// the activity toggle.
#[test]
fn agent_lifecycle() {
    let mut s = AIAgentState::new();
    let (r, _) = s.execute_operation(None, AIAgentOperation::CreateAgent {
        name: "momentum".to_string(),
        strategy: AgentStrategy::Aggressive,
    });
    assert_eq!(r, AIAgentResponse::Error(EngineError::Unauthenticated));

    let (r, _) = s.execute_operation(Some(acct(1)), AIAgentOperation::CreateAgent {
        name: "momentum".to_string(),
        strategy: AgentStrategy::Aggressive,
    });
    assert_eq!(r, AIAgentResponse::AgentId(0));

    let (r, fwd) = s.execute_operation(Some(acct(1)), AIAgentOperation::PlaceBet {
        agent_id: 0,
        market_id: 3,
        prediction: Outcome::Up,
        amount: 1_000_000,
    });
    assert_eq!(r, AIAgentResponse::Accepted);
    assert!(matches!(
        fwd,
        Some(MarketOperation::PlaceBet { market_id: 3, prediction: Outcome::Up, amount: 1_000_000 })
    ));
    assert_eq!(s.get_agent(0).unwrap().total_bets, 1);

    // one win out of two recorded results: accuracy 5000 basis points
    let (r, _) = s.execute_operation(Some(acct(1)), AIAgentOperation::UpdateStats {
        agent_id: 0,
        won: true,
        profit: 900_000,
    });
    assert_eq!(r, AIAgentResponse::Accepted);
    let a = s.get_agent(0).unwrap();
    assert_eq!(a.total_bets, 2);
    assert_eq!(a.wins, 1);
    assert_eq!(a.accuracy_bps, 5000);
    assert_eq!(a.total_profit, 900_000);

    let (r, _) = s.execute_operation(Some(acct(1)), AIAgentOperation::ToggleAgent { agent_id: 0 });
    assert_eq!(r, AIAgentResponse::Accepted);
    let (r, fwd) = s.execute_operation(Some(acct(1)), AIAgentOperation::PlaceBet {
        agent_id: 0,
        market_id: 3,
        prediction: Outcome::Up,
        amount: 1_000_000,
    });
    assert_eq!(r, AIAgentResponse::Error(EngineError::InvalidState));
    assert!(fwd.is_none());

    let (r, _) = s.execute_operation(Some(acct(1)), AIAgentOperation::UpdateStats {
        agent_id: 9,
        won: false,
        profit: 0,
    });
    assert_eq!(r, AIAgentResponse::Error(EngineError::NotFound));
}
