//! Core data model: accounts, value units, market records, bets, and the
//! error taxonomy shared by every operation.
//!
//! Value is a non-negative fixed-point quantity counted in atto units and
//! held in a `u64`; settlement arithmetic widens to `u128` so that the
//! proportional payout product can never overflow.

use vstd::prelude::*;

verus! {

/// Minimum accepted stake for a bet, in atto units.
pub const MIN_BET_AMOUNT: u64 = 100_000;

/// Fee charged for opening a market, in atto units.
pub const MARKET_CREATION_FEE: u64 = 1_000_000;

/// Platform fee retained from the total pool at settlement, in percent.
pub const PLATFORM_FEE_PERCENT: u64 = 5;

/// Shortest legal market duration: 1 minute, in microseconds.
pub const MIN_MARKET_DURATION_MICROS: u64 = 60_000_000;

/// Longest legal market duration: 7 days, in microseconds.
pub const MAX_MARKET_DURATION_MICROS: u64 = 604_800_000_000;

/// Value granted by one bonus claim, in atto units.
pub const DAILY_BONUS_AMOUNT: u64 = 100_000_000;

/// Cooldown between bonus claims: 24 hours, in microseconds.
pub const DAILY_BONUS_COOLDOWN_MICROS: u64 = 86_400_000_000;

/// An opaque account identity: equality-comparable, ordering irrelevant.
#[derive(Clone, Copy, PartialEq, Eq, Structural, Debug)]
pub struct AccountId {
    pub id: u64,
}

/// Topic of a market; opaque to the settlement core.
#[derive(Clone, Copy, PartialEq, Eq, Structural, Debug)]
pub enum MarketCategory {
    Crypto,
    Sports,
    Politics,
    Weather,
    AI,
    Custom,
}

impl MarketCategory {
    /// Display name of the category.
    pub fn as_str(&self) -> (r: &'static str)
        ensures
            r@ == match *self {
                MarketCategory::Crypto => "Crypto"@,
                MarketCategory::Sports => "Sports"@,
                MarketCategory::Politics => "Politics"@,
                MarketCategory::Weather => "Weather"@,
                MarketCategory::AI => "AI"@,
                MarketCategory::Custom => "Custom"@,
            },
    {
        match self {
            MarketCategory::Crypto => "Crypto",
            MarketCategory::Sports => "Sports",
            MarketCategory::Politics => "Politics",
            MarketCategory::Weather => "Weather",
            MarketCategory::AI => "AI",
            MarketCategory::Custom => "Custom",
        }
    }
}

/// Stored lifecycle state of a market.  `Closed` is never stored by the
/// engine: a market is behaviourally closed once the clock reaches its
/// `closes_at`, even while `status` still reads `Active`.
#[derive(Clone, Copy, PartialEq, Eq, Structural, Debug)]
pub enum MarketStatus {
    Active,
    Closed,
    Resolved,
    Cancelled,
}

/// The binary resolution value a market settles to.
#[derive(Clone, Copy, PartialEq, Eq, Structural, Debug)]
pub enum Outcome {
    Up,
    Down,
}

/// Who or what is permitted to resolve a market; opaque to the core.
#[derive(Clone, Copy, PartialEq, Eq, Structural, Debug)]
pub enum OracleMode {
    AI,
    Manual,
    Decentralized,
}

/// Betting policy of an autonomous agent; opaque to the core.
#[derive(Clone, Copy, PartialEq, Eq, Structural, Debug)]
pub enum AgentStrategy {
    Conservative,
    Moderate,
    Aggressive,
    Contrarian,
    AIAnalysis,
}

/// Typed failure reported by an operation.  A failed operation leaves all
/// stores exactly as they were before the attempt.
#[derive(Clone, Copy, PartialEq, Eq, Structural, Debug)]
pub enum EngineError {
    /// The request carried no authenticated caller identity.
    Unauthenticated,
    /// The caller lacks the role the action requires.
    Unauthorized,
    /// Unknown market, agent or account key.
    NotFound,
    /// The operation is illegal for the current lifecycle state.
    InvalidState,
    /// The stake is under the minimum bet floor.
    BelowMinimum,
    /// A payout was already disbursed for this (market, account) pair.
    AlreadyClaimed,
    /// The computed payout is zero, so there is nothing to disburse.
    NothingToClaim,
    /// The account balance does not cover the requested debit.
    InsufficientBalance,
    /// The market was already resolved.
    AlreadyResolved,
    /// The market was already cancelled.
    AlreadyCancelled,
    /// The requested duration lies outside the legal bounds.
    DurationOutOfBounds,
    /// The operation would push a counter or a pool past its ceiling; it is
    /// rejected defensively so the accounting invariants keep holding.
    Overflow,
    /// The bonus cooldown has not elapsed; the wait that remains is reported.
    NotYetEligible { remaining_micros: u64 },
}

/// One prediction market: lifecycle fields, the two outcome pools, and
/// descriptive text that is opaque to the core.  All times are microseconds.
pub struct Market {
    pub id: u64,
    pub creator: AccountId,
    pub question: String,
    pub description: String,
    pub category: MarketCategory,
    pub status: MarketStatus,
    pub created_at: u64,
    pub closes_at: u64,
    pub resolved_at: Option<u64>,
    pub outcome: Option<Outcome>,
    pub total_pool: u64,
    pub up_pool: u64,
    pub down_pool: u64,
    pub oracle_mode: OracleMode,
    pub resolution_source: Option<String>,
}

impl Market {
    /// The market accepts bets: stored status is `Active` and the close time
    /// has not been reached.
    pub open spec fn spec_is_active(self, current_time: u64) -> bool {
        self.status == MarketStatus::Active && current_time < self.closes_at
    }

    /// The market is derived-closed: past its close time but not yet moved
    /// to a terminal state.
    pub open spec fn spec_is_closed(self, current_time: u64) -> bool {
        self.status == MarketStatus::Active && current_time >= self.closes_at
    }

    pub fn is_active(&self, current_time: u64) -> (r: bool)
        ensures
            r == self.spec_is_active(current_time),
    {
        self.status == MarketStatus::Active && current_time < self.closes_at
    }

    pub fn is_closed(&self, current_time: u64) -> (r: bool)
        ensures
            r == self.spec_is_closed(current_time),
    {
        self.status == MarketStatus::Active && current_time >= self.closes_at
    }

    pub fn can_bet(&self, current_time: u64) -> (r: bool)
        ensures
            r == self.spec_is_active(current_time),
    {
        self.status == MarketStatus::Active && current_time < self.closes_at
    }

    /// The pool of the given outcome side.
    pub open spec fn spec_side_pool(self, outcome: Outcome) -> u64 {
        match outcome {
            Outcome::Up => self.up_pool,
            Outcome::Down => self.down_pool,
        }
    }

    /// Derived odds of the `Up` side in basis points: the share of the total
    /// pool staked on `Up`, or a neutral 5000 while the pool is empty.
    /// Presentation only; settlement never reads it.
    pub fn odds_up_bps(&self) -> (r: u64)
        requires
            self.up_pool <= self.total_pool,
        ensures
            self.total_pool == 0 ==> r == 5000,
            self.total_pool > 0 ==> r == self.up_pool as int * 10000 / self.total_pool as int,
            r <= 10000,
    {
        if self.total_pool == 0 {
            5000
        } else {
            let num: u128 = (self.up_pool as u128) * 10000;
            let r128: u128 = num / (self.total_pool as u128);
            proof {
                vstd::arithmetic::div_mod::lemma_div_is_ordered(
                    self.up_pool as int * 10000,
                    self.total_pool as int * 10000,
                    self.total_pool as int,
                );
                vstd::arithmetic::div_mod::lemma_div_by_multiple(
                    10000,
                    self.total_pool as int,
                );
                vstd::arithmetic::mul::lemma_mul_is_commutative(
                    self.total_pool as int,
                    10000,
                );
                vstd::arithmetic::mul::lemma_mul_inequality(
                    self.up_pool as int,
                    self.total_pool as int,
                    10000,
                );
            }
            r128 as u64
        }
    }

    /// Derived odds of the `Down` side in basis points: the complement of
    /// `odds_up_bps`.
    pub fn odds_down_bps(&self) -> (r: u64)
        requires
            self.up_pool <= self.total_pool,
        ensures
            self.total_pool == 0 ==> r == 5000,
            self.total_pool > 0 ==> r == 10000 - self.up_pool as int * 10000 / self.total_pool as int,
            r <= 10000,
    {
        let up = self.odds_up_bps();
        if self.total_pool == 0 {
            5000
        } else {
            10000 - up
        }
    }
}

/// One wager: who staked how much on which side, and when.  The `claimed`
/// flag is advisory; the authoritative claim state lives in the claim ledger.
#[derive(Clone, Copy, PartialEq, Eq, Structural, Debug)]
pub struct Bet {
    pub market_id: u64,
    pub bettor: AccountId,
    pub prediction: Outcome,
    pub amount: u64,
    pub placed_at: u64,
    pub claimed: bool,
}

/// A disbursed settlement, reported to the host for materialization.
#[derive(Clone, Copy, PartialEq, Eq, Structural, Debug)]
pub struct Payout {
    pub market_id: u64,
    pub winner: AccountId,
    pub amount: u64,
}

} // verus!
