//! Market store, pool accounting, claim ledger and the lifecycle state
//! machine, behind the market operation surface.
//!
//! The store keys markets by a sequentially assigned identifier (the index
//! in the store), owns the ordered bet sequence of each market, and keeps
//! the accounting invariant at every observable point: each outcome pool
//! equals the stake wagered on that side, and the total pool equals their
//! sum.  The claim ledger records each disbursed (market, account) pair
//! exactly once, before the payout is reported.

use vstd::prelude::*;
use crate::types::{
    AccountId,
    Bet,
    EngineError,
    Market,
    MarketCategory,
    MarketStatus,
    OracleMode,
    Outcome,
    MIN_BET_AMOUNT,
    MIN_MARKET_DURATION_MICROS,
    MAX_MARKET_DURATION_MICROS,
};
use crate::settlement::{
    settlement_amount,
    first_winning_bet,
    sum_side,
    payout_amount,
    lemma_first_winning_bet_bounds,
    lemma_sum_side_push,
};

verus! {

/// One claim ledger key: a (market, account) pair that has been paid.
#[derive(Clone, Copy, PartialEq, Eq, Structural, Debug)]
pub struct ClaimKey {
    pub market_id: u64,
    pub account: AccountId,
}

/// A request against the market engine.
#[derive(Debug)]
pub enum MarketOperation {
    CreateMarket {
        question: String,
        description: String,
        category: MarketCategory,
        duration_minutes: u64,
        oracle_mode: OracleMode,
    },
    PlaceBet { market_id: u64, prediction: Outcome, amount: u64 },
    ResolveMarket { market_id: u64, outcome: Outcome },
    ClaimWinnings { market_id: u64 },
    CancelMarket { market_id: u64 },
}

/// The structured result of a market operation.
#[derive(Clone, Copy, PartialEq, Eq, Structural, Debug)]
pub enum MarketResponse {
    Accepted,
    MarketId(u64),
    Payout(u64),
    Error(EngineError),
}

/// The market application state: market records, per-market bets, the
/// identifier sequence, the fee statistic, and the claim ledger.
pub struct MarketState {
    pub markets: Vec<Market>,
    pub bets: Vec<Vec<Bet>>,
    pub next_market_id: u64,
    pub platform_fees: u64,
    pub claimed: Vec<ClaimKey>,
}

/// A payout was already disbursed to `account` for `market_id`.
pub open spec fn has_claim(claims: Seq<ClaimKey>, market_id: u64, account: AccountId) -> bool {
    exists|i: int| 0 <= i < claims.len() && claims[i].market_id == market_id
        && claims[i].account == account
}

/// The close time of a market opened at `now` for `duration_minutes`,
/// saturating at the end of representable time.
pub open spec fn spec_close_time(now: u64, duration_minutes: u64) -> u64 {
    if now + duration_minutes * 60_000_000 > u64::MAX {
        u64::MAX
    } else {
        (now + duration_minutes * 60_000_000) as u64
    }
}

/// The record a creation request opens: active, empty pools, closing one
/// duration after `now`.
pub open spec fn fresh_market(
    id: u64,
    creator: AccountId,
    now: u64,
    question: String,
    description: String,
    category: MarketCategory,
    duration_minutes: u64,
    oracle_mode: OracleMode,
) -> Market {
    Market {
        id,
        creator,
        question,
        description,
        category,
        status: MarketStatus::Active,
        created_at: now,
        closes_at: spec_close_time(now, duration_minutes),
        resolved_at: None,
        outcome: None,
        total_pool: 0,
        up_pool: 0,
        down_pool: 0,
        oracle_mode,
        resolution_source: None,
    }
}

/// The market after an accepted bet: the total pool and the predicted
/// side's pool grow by the stake.
pub open spec fn market_after_bet(m: Market, prediction: Outcome, amount: u64) -> Market {
    Market {
        total_pool: (m.total_pool + amount) as u64,
        up_pool: if prediction == Outcome::Up {
            (m.up_pool + amount) as u64
        } else {
            m.up_pool
        },
        down_pool: if prediction == Outcome::Down {
            (m.down_pool + amount) as u64
        } else {
            m.down_pool
        },
        ..m
    }
}

/// The market after resolution: terminal, with the outcome fixed and the
/// resolution time stamped.
pub open spec fn market_resolved(m: Market, outcome: Outcome, now: u64) -> Market {
    Market {
        status: MarketStatus::Resolved,
        outcome: Some(outcome),
        resolved_at: Some(now),
        ..m
    }
}

/// The market after cancellation: terminal, pools untouched.  No refund
/// occurs here: a cancelled market never resolves, so its stakes stay in
/// the pools, unclaimable through settlement, unless a collaborator adds
/// an explicit refund path.
pub open spec fn market_cancelled(m: Market) -> Market {
    Market { status: MarketStatus::Cancelled, ..m }
}

/// The fee statistic recorded at resolution: 5% of the total pool.
pub open spec fn spec_fee(total_pool: u64) -> int {
    total_pool * 5 / 100
}

/// What a creation request answers, read off the pre-state.
pub open spec fn create_market_response(
    s: MarketState,
    caller: Option<AccountId>,
    duration_minutes: u64,
) -> MarketResponse {
    if caller is None {
        MarketResponse::Error(EngineError::Unauthenticated)
    } else if duration_minutes * 60_000_000 < MIN_MARKET_DURATION_MICROS
        || duration_minutes * 60_000_000 > MAX_MARKET_DURATION_MICROS {
        MarketResponse::Error(EngineError::DurationOutOfBounds)
    } else if s.next_market_id == u64::MAX {
        MarketResponse::Error(EngineError::Overflow)
    } else {
        MarketResponse::MarketId(s.next_market_id)
    }
}

/// What a bet request answers, read off the pre-state: betting is legal
/// only on an active market before its close time, at or above the minimum
/// stake, and only while the pool can still count the stake.
pub open spec fn place_bet_response(
    s: MarketState,
    caller: Option<AccountId>,
    now: u64,
    market_id: u64,
    amount: u64,
) -> MarketResponse {
    if caller is None {
        MarketResponse::Error(EngineError::Unauthenticated)
    } else if amount < MIN_BET_AMOUNT {
        MarketResponse::Error(EngineError::BelowMinimum)
    } else if market_id >= s.markets@.len() {
        MarketResponse::Error(EngineError::NotFound)
    } else if !s.markets@[market_id as int].spec_is_active(now) {
        MarketResponse::Error(EngineError::InvalidState)
    } else if s.markets@[market_id as int].total_pool + amount > u64::MAX {
        MarketResponse::Error(EngineError::Overflow)
    } else {
        MarketResponse::Accepted
    }
}

/// What a resolution request answers, read off the pre-state: resolution
/// is legal exactly once, any time while the market is still active.
pub open spec fn resolve_market_response(
    s: MarketState,
    caller: Option<AccountId>,
    market_id: u64,
) -> MarketResponse {
    if caller is None {
        MarketResponse::Error(EngineError::Unauthenticated)
    } else if market_id >= s.markets@.len() {
        MarketResponse::Error(EngineError::NotFound)
    } else if s.markets@[market_id as int].status == MarketStatus::Resolved {
        MarketResponse::Error(EngineError::AlreadyResolved)
    } else if s.markets@[market_id as int].status == MarketStatus::Cancelled {
        MarketResponse::Error(EngineError::AlreadyCancelled)
    } else {
        MarketResponse::Accepted
    }
}

/// What a claim answers, read off the pre-state: exactly once per
/// (market, account), only on a resolved market, and only when the
/// settlement is positive.
pub open spec fn claim_winnings_response(
    s: MarketState,
    caller: Option<AccountId>,
    market_id: u64,
) -> MarketResponse {
    if caller is None {
        MarketResponse::Error(EngineError::Unauthenticated)
    } else if has_claim(s.claimed@, market_id, caller->Some_0) {
        MarketResponse::Error(EngineError::AlreadyClaimed)
    } else if market_id >= s.markets@.len() {
        MarketResponse::Error(EngineError::NotFound)
    } else if s.markets@[market_id as int].status != MarketStatus::Resolved {
        MarketResponse::Error(EngineError::InvalidState)
    } else if settlement_amount(
        s.markets@[market_id as int],
        s.bets@[market_id as int]@,
        caller->Some_0,
    ) == 0 {
        MarketResponse::Error(EngineError::NothingToClaim)
    } else {
        MarketResponse::Payout(
            settlement_amount(
                s.markets@[market_id as int],
                s.bets@[market_id as int]@,
                caller->Some_0,
            ) as u64,
        )
    }
}

/// What a cancellation answers, read off the pre-state: creator-only, and
/// only while the market is still active.
pub open spec fn cancel_market_response(
    s: MarketState,
    caller: Option<AccountId>,
    market_id: u64,
) -> MarketResponse {
    if caller is None {
        MarketResponse::Error(EngineError::Unauthenticated)
    } else if market_id >= s.markets@.len() {
        MarketResponse::Error(EngineError::NotFound)
    } else if s.markets@[market_id as int].creator != caller->Some_0 {
        MarketResponse::Error(EngineError::Unauthorized)
    } else if s.markets@[market_id as int].status == MarketStatus::Resolved {
        MarketResponse::Error(EngineError::AlreadyResolved)
    } else if s.markets@[market_id as int].status == MarketStatus::Cancelled {
        MarketResponse::Error(EngineError::AlreadyCancelled)
    } else {
        MarketResponse::Accepted
    }
}

impl MarketState {
    /// Accounting and lifecycle validity of the record at index `i`: the
    /// identifier matches the index, each pool equals the stake recorded
    /// on its side, the total pool is their sum, a resolved market carries
    /// its outcome and resolution time, and the derived `Closed` state is
    /// never stored.
    pub open spec fn market_ok(self, i: int) -> bool {
        let m = self.markets@[i];
        &&& m.id as int == i
        &&& m.up_pool as int == sum_side(self.bets@[i]@, Outcome::Up)
        &&& m.down_pool as int == sum_side(self.bets@[i]@, Outcome::Down)
        &&& m.total_pool as int == m.up_pool as int + m.down_pool as int
        &&& (m.status == MarketStatus::Resolved ==> m.outcome is Some && m.resolved_at is Some)
        &&& m.status != MarketStatus::Closed
        &&& forall|j: int| 0 <= j < self.bets@[i]@.len()
            ==> (#[trigger] self.bets@[i]@[j]).market_id as int == i
    }

    /// Validity of the whole store.
    pub open spec fn wf(self) -> bool {
        &&& self.markets@.len() == self.bets@.len()
        &&& self.next_market_id as int == self.markets@.len()
        &&& forall|i: int| 0 <= i < self.markets@.len() ==> self.market_ok(i)
        &&& forall|i: int, j: int| 0 <= i < j < self.claimed@.len()
            ==> !(#[trigger] self.claimed@[i].market_id == #[trigger] self.claimed@[j].market_id
                && self.claimed@[i].account == self.claimed@[j].account)
    }

    /// An empty store.
    pub fn new() -> (r: MarketState)
        ensures
            r.wf(),
            r.markets@.len() == 0,
            r.claimed@.len() == 0,
            r.next_market_id == 0,
            r.platform_fees == 0,
    {
        MarketState {
            markets: Vec::new(),
            bets: Vec::new(),
            next_market_id: 0,
            platform_fees: 0,
            claimed: Vec::new(),
        }
    }

    /// Store a new market under the next sequential identifier.  The
    /// record must arrive active with empty pools; its `id` field is
    /// overwritten with the assigned identifier.
    pub fn create_market(&mut self, market: Market) -> (id: u64)
        requires
            old(self).wf(),
            old(self).next_market_id < u64::MAX,
            market.status == MarketStatus::Active,
            market.total_pool == 0,
            market.up_pool == 0,
            market.down_pool == 0,
        ensures
            final(self).wf(),
            id == old(self).next_market_id,
            final(self).markets@ == old(self).markets@.push((Market { id, ..market })),
            final(self).bets@.len() == old(self).bets@.len() + 1,
            final(self).bets@[old(self).bets@.len() as int]@ == Seq::<Bet>::empty(),
            forall|j: int| 0 <= j < old(self).bets@.len()
                ==> final(self).bets@[j] == old(self).bets@[j],
            final(self).next_market_id == old(self).next_market_id + 1,
            final(self).platform_fees == old(self).platform_fees,
            final(self).claimed == old(self).claimed,
    {
        let id = self.next_market_id;
        let mut m = market;
        m.id = id;
        self.markets.push(m);
        self.bets.push(Vec::new());
        self.next_market_id = id + 1;
        proof {
            let n = old(self).markets@.len() as int;
            assert(sum_side(Seq::<Bet>::empty(), Outcome::Up) == 0);
            assert(sum_side(Seq::<Bet>::empty(), Outcome::Down) == 0);
            assert(self.bets@[n]@ =~= Seq::<Bet>::empty());
            assert forall|i: int| 0 <= i < self.markets@.len() implies self.market_ok(i) by {
                if i < n {
                    assert(old(self).market_ok(i));
                    assert(self.markets@[i] == old(self).markets@[i]);
                    assert(self.bets@[i] == old(self).bets@[i]);
                }
            }
        }
        id
    }

    /// Look a market up by identifier.
    pub fn get_market(&self, id: u64) -> (r: Result<&Market, EngineError>)
        requires
            self.wf(),
        ensures
            match r {
                Ok(m) => id < self.markets@.len() && *m == self.markets@[id as int],
                Err(e) => id >= self.markets@.len() && e == EngineError::NotFound,
            },
    {
        if id < self.markets.len() as u64 {
            Ok(&self.markets[id as usize])
        } else {
            Err(EngineError::NotFound)
        }
    }

    /// Replace a stored market record.  The replacement must keep the
    /// accounting invariant against the bets already recorded for it.
    pub fn update_market(&mut self, market: Market)
        requires
            old(self).wf(),
            market.id < old(self).next_market_id,
            market.up_pool as int == sum_side(old(self).bets@[market.id as int]@, Outcome::Up),
            market.down_pool as int == sum_side(old(self).bets@[market.id as int]@, Outcome::Down),
            market.total_pool as int == market.up_pool as int + market.down_pool as int,
            market.status == MarketStatus::Resolved ==> market.outcome is Some
                && market.resolved_at is Some,
            market.status != MarketStatus::Closed,
        ensures
            final(self).wf(),
            final(self).markets@ == old(self).markets@.update(market.id as int, market),
            final(self).bets == old(self).bets,
            final(self).next_market_id == old(self).next_market_id,
            final(self).platform_fees == old(self).platform_fees,
            final(self).claimed == old(self).claimed,
    {
        let n = self.markets.len();
        proof {
            assert(market.id < n);
        }
        let i = market.id as usize;
        self.markets[i] = market;
        proof {
            assert forall|k: int| 0 <= k < self.markets@.len() implies self.market_ok(k) by {
                assert(old(self).market_ok(k));
                if k != i as int {
                    assert(self.markets@[k] == old(self).markets@[k]);
                }
                assert(self.bets@[k] == old(self).bets@[k]);
            }
        }
    }

    /// Record an accepted bet: append it to the market's bet sequence and
    /// grow the matching pools, in one atomic step so the accounting
    /// invariant holds at every observable point.  Rejects an unknown
    /// market, and a stake the total pool cannot count.
    ///
    /// The stake is counted in pool accounting only: the engine does not
    /// itself debit the bettor's value ledger — escrowing the stake is the
    /// hosting collaborator's responsibility.
    pub fn place_bet(&mut self, bet: Bet) -> (r: Result<(), EngineError>)
        requires
            old(self).wf(),
        ensures
            final(self).wf(),
            match r {
                Ok(()) => {
                    &&& bet.market_id < old(self).markets@.len()
                    &&& old(self).markets@[bet.market_id as int].total_pool + bet.amount
                        <= u64::MAX
                    &&& final(self).markets@ == old(self).markets@.update(
                        bet.market_id as int,
                        market_after_bet(
                            old(self).markets@[bet.market_id as int],
                            bet.prediction,
                            bet.amount,
                        ),
                    )
                    &&& final(self).bets@.len() == old(self).bets@.len()
                    &&& final(self).bets@[bet.market_id as int]@
                        == old(self).bets@[bet.market_id as int]@.push(bet)
                    &&& forall|j: int| 0 <= j < old(self).bets@.len() && j != bet.market_id as int
                        ==> final(self).bets@[j] == old(self).bets@[j]
                    &&& final(self).next_market_id == old(self).next_market_id
                    &&& final(self).platform_fees == old(self).platform_fees
                    &&& final(self).claimed == old(self).claimed
                },
                Err(EngineError::NotFound) => bet.market_id >= old(self).markets@.len()
                    && *final(self) == *old(self),
                Err(EngineError::Overflow) => bet.market_id < old(self).markets@.len()
                    && old(self).markets@[bet.market_id as int].total_pool + bet.amount > u64::MAX
                    && *final(self) == *old(self),
                Err(_) => false,
            },
    {
        if bet.market_id >= self.markets.len() as u64 {
            return Err(EngineError::NotFound);
        }
        let i = bet.market_id as usize;
        let total = self.markets[i].total_pool;
        if bet.amount > u64::MAX - total {
            return Err(EngineError::Overflow);
        }
        proof {
            assert(old(self).market_ok(i as int));
        }
        self.markets[i].total_pool = total + bet.amount;
        match bet.prediction {
            Outcome::Up => {
                let up = self.markets[i].up_pool;
                self.markets[i].up_pool = up + bet.amount;
            }
            Outcome::Down => {
                let down = self.markets[i].down_pool;
                self.markets[i].down_pool = down + bet.amount;
            }
        }
        self.bets[i].push(bet);
        proof {
            let ii = i as int;
            lemma_sum_side_push(old(self).bets@[ii]@, bet, Outcome::Up);
            lemma_sum_side_push(old(self).bets@[ii]@, bet, Outcome::Down);
            assert(self.markets@ =~= old(self).markets@.update(
                ii,
                market_after_bet(old(self).markets@[ii], bet.prediction, bet.amount),
            ));
            assert forall|k: int| 0 <= k < self.markets@.len() implies self.market_ok(k) by {
                assert(old(self).market_ok(k));
                if k != ii {
                    assert(self.markets@[k] == old(self).markets@[k]);
                    assert(self.bets@[k] == old(self).bets@[k]);
                } else {
                    assert(self.bets@[ii]@ == old(self).bets@[ii]@.push(bet));
                }
            }
        }
        Ok(())
    }

    /// All bets recorded for a market, in arrival order; empty for an
    /// unknown market.
    pub fn get_bets(&self, market_id: u64) -> (r: Vec<Bet>)
        requires
            self.wf(),
        ensures
            market_id < self.markets@.len() ==> r@ == self.bets@[market_id as int]@,
            market_id >= self.markets@.len() ==> r@ == Seq::<Bet>::empty(),
    {
        let mut out: Vec<Bet> = Vec::new();
        if market_id >= self.markets.len() as u64 {
            proof {
                assert(out@ =~= Seq::<Bet>::empty());
            }
            return out;
        }
        let i = market_id as usize;
        let n = self.bets[i].len();
        let mut k: usize = 0;
        while k < n
            invariant
                k <= n,
                market_id < self.markets@.len(),
                self.markets@.len() == self.bets@.len(),
                i == market_id as int,
                n == self.bets@[i as int]@.len(),
                out@ =~= self.bets@[i as int]@.take(k as int),
            decreases n - k,
        {
            out.push(self.bets[i][k]);
            k = k + 1;
        }
        proof {
            assert(out@ =~= self.bets@[i as int]@.take(n as int));
            assert(self.bets@[i as int]@.take(n as int) =~= self.bets@[i as int]@);
        }
        out
    }

    /// The settlement owed to `bettor` by market `market_id`: an error
    /// while the market is unknown or not yet resolved, and otherwise the
    /// fee-adjusted proportional payout of the claimant's first winning
    /// bet — zero when no bet matches the outcome or the winning side's
    /// pool is empty.
    pub fn calculate_payout(&self, market_id: u64, bettor: AccountId) -> (r: Result<
        u64,
        EngineError,
    >)
        requires
            self.wf(),
        ensures
            match r {
                Ok(p) => {
                    &&& market_id < self.markets@.len()
                    &&& self.markets@[market_id as int].status == MarketStatus::Resolved
                    &&& p as int == settlement_amount(
                        self.markets@[market_id as int],
                        self.bets@[market_id as int]@,
                        bettor,
                    )
                },
                Err(e) => (e == EngineError::NotFound && market_id >= self.markets@.len()) || (
                e == EngineError::InvalidState && market_id < self.markets@.len()
                    && self.markets@[market_id as int].status != MarketStatus::Resolved),
            },
    {
        if market_id >= self.markets.len() as u64 {
            return Err(EngineError::NotFound);
        }
        let i = market_id as usize;
        if self.markets[i].status != MarketStatus::Resolved {
            return Err(EngineError::InvalidState);
        }
        let outcome = match self.markets[i].outcome {
            Some(o) => o,
            None => {
                // unreachable: a resolved market always carries its outcome
                proof {
                    assert(self.market_ok(i as int));
                    assert(false);
                }
                return Err(EngineError::InvalidState);
            }
        };
        match find_first_winning(&self.bets[i], bettor, outcome) {
            None => Ok(0),
            Some(b) => {
                let winning_pool = match outcome {
                    Outcome::Up => self.markets[i].up_pool,
                    Outcome::Down => self.markets[i].down_pool,
                };
                if winning_pool == 0 {
                    Ok(0)
                } else {
                    proof {
                        assert(self.market_ok(i as int));
                        lemma_first_winning_bet_bounds(self.bets@[i as int]@, bettor, outcome);
                    }
                    let p = payout_amount(b.amount, self.markets[i].total_pool, winning_pool);
                    Ok(p)
                }
            }
        }
    }

    /// Whether a payout was already disbursed to `bettor` for this market.
    pub fn has_claimed(&self, market_id: u64, bettor: AccountId) -> (r: bool)
        ensures
            r == has_claim(self.claimed@, market_id, bettor),
    {
        let n = self.claimed.len();
        let mut k: usize = 0;
        while k < n
            invariant
                k <= n,
                n == self.claimed@.len(),
                forall|j: int| 0 <= j < k
                    ==> !((#[trigger] self.claimed@[j]).market_id == market_id
                        && self.claimed@[j].account == bettor),
            decreases n - k,
        {
            let c = self.claimed[k];
            if c.market_id == market_id && c.account == bettor {
                return true;
            }
            k = k + 1;
        }
        false
    }

    /// Durably record the claim for a (market, account) pair that has not
    /// claimed yet.
    pub fn mark_claimed(&mut self, market_id: u64, bettor: AccountId)
        requires
            old(self).wf(),
            !has_claim(old(self).claimed@, market_id, bettor),
        ensures
            final(self).wf(),
            final(self).claimed@ == old(self).claimed@.push(
                (ClaimKey { market_id, account: bettor }),
            ),
            final(self).markets == old(self).markets,
            final(self).bets == old(self).bets,
            final(self).next_market_id == old(self).next_market_id,
            final(self).platform_fees == old(self).platform_fees,
    {
        self.claimed.push(ClaimKey { market_id, account: bettor });
        proof {
            let s0 = old(self).claimed@;
            let s1 = self.claimed@;
            assert forall|i: int, j: int| 0 <= i < j < s1.len()
                implies !(#[trigger] s1[i].market_id == #[trigger] s1[j].market_id
                    && s1[i].account == s1[j].account) by {
                if j < s0.len() {
                    assert(s1[i] == s0[i] && s1[j] == s0[j]);
                } else {
                    assert(s1[i] == s0[i]);
                    assert(s1[j].market_id == market_id && s1[j].account == bettor);
                }
            }
            assert forall|k: int| 0 <= k < self.markets@.len() implies self.market_ok(k) by {
                assert(old(self).market_ok(k));
            }
        }
    }

    /// Execute one operation as an atomic, serializable step: the
    /// response is a function of the pre-state, a failed operation leaves
    /// every store exactly as before the attempt, and a successful one
    /// applies exactly the transition of its kind.
    pub fn execute_operation(
        &mut self,
        caller: Option<AccountId>,
        now: u64,
        op: MarketOperation,
    ) -> (r: MarketResponse)
        requires
            old(self).wf(),
        ensures
            final(self).wf(),
            match op {
                MarketOperation::CreateMarket {
                    question,
                    description,
                    category,
                    duration_minutes,
                    oracle_mode,
                } => {
                    &&& r == create_market_response(*old(self), caller, duration_minutes)
                    &&& (r is MarketId ==> {
                        &&& final(self).markets@ == old(self).markets@.push(
                            fresh_market(
                                old(self).next_market_id,
                                caller->Some_0,
                                now,
                                question,
                                description,
                                category,
                                duration_minutes,
                                oracle_mode,
                            ),
                        )
                        &&& final(self).bets@.len() == old(self).bets@.len() + 1
                        &&& final(self).next_market_id == old(self).next_market_id + 1
                        &&& final(self).platform_fees == old(self).platform_fees
                        &&& final(self).claimed == old(self).claimed
                    })
                    &&& (!(r is MarketId) ==> *final(self) == *old(self))
                },
                MarketOperation::PlaceBet { market_id, prediction, amount } => {
                    &&& r == place_bet_response(*old(self), caller, now, market_id, amount)
                    &&& (r == MarketResponse::Accepted ==> {
                        &&& final(self).markets@ == old(self).markets@.update(
                            market_id as int,
                            market_after_bet(
                                old(self).markets@[market_id as int],
                                prediction,
                                amount,
                            ),
                        )
                        &&& final(self).bets@.len() == old(self).bets@.len()
                        &&& final(self).bets@[market_id as int]@
                            == old(self).bets@[market_id as int]@.push(
                            (Bet {
                                market_id,
                                bettor: caller->Some_0,
                                prediction,
                                amount,
                                placed_at: now,
                                claimed: false,
                            }),
                        )
                        &&& forall|j: int| 0 <= j < old(self).bets@.len() && j != market_id as int
                            ==> final(self).bets@[j] == old(self).bets@[j]
                        &&& final(self).next_market_id == old(self).next_market_id
                        &&& final(self).platform_fees == old(self).platform_fees
                        &&& final(self).claimed == old(self).claimed
                    })
                    &&& (r != MarketResponse::Accepted ==> *final(self) == *old(self))
                },
                MarketOperation::ResolveMarket { market_id, outcome } => {
                    &&& r == resolve_market_response(*old(self), caller, market_id)
                    &&& (r == MarketResponse::Accepted ==> {
                        &&& final(self).markets@ == old(self).markets@.update(
                            market_id as int,
                            market_resolved(old(self).markets@[market_id as int], outcome, now),
                        )
                        &&& final(self).bets == old(self).bets
                        &&& final(self).next_market_id == old(self).next_market_id
                        &&& final(self).platform_fees as int == crate::ledger::sat_add_u64(
                            old(self).platform_fees as int,
                            spec_fee(old(self).markets@[market_id as int].total_pool),
                        )
                        &&& final(self).claimed == old(self).claimed
                    })
                    &&& (r != MarketResponse::Accepted ==> *final(self) == *old(self))
                },
                MarketOperation::ClaimWinnings { market_id } => {
                    &&& r == claim_winnings_response(*old(self), caller, market_id)
                    &&& (r is Payout ==> {
                        &&& final(self).claimed@ == old(self).claimed@.push(
                            (ClaimKey { market_id, account: caller->Some_0 }),
                        )
                        &&& final(self).markets == old(self).markets
                        &&& final(self).bets == old(self).bets
                        &&& final(self).next_market_id == old(self).next_market_id
                        &&& final(self).platform_fees == old(self).platform_fees
                    })
                    &&& (!(r is Payout) ==> *final(self) == *old(self))
                },
                MarketOperation::CancelMarket { market_id } => {
                    &&& r == cancel_market_response(*old(self), caller, market_id)
                    &&& (r == MarketResponse::Accepted ==> {
                        &&& final(self).markets@ == old(self).markets@.update(
                            market_id as int,
                            market_cancelled(old(self).markets@[market_id as int]),
                        )
                        &&& final(self).bets == old(self).bets
                        &&& final(self).next_market_id == old(self).next_market_id
                        &&& final(self).platform_fees == old(self).platform_fees
                        &&& final(self).claimed == old(self).claimed
                    })
                    &&& (r != MarketResponse::Accepted ==> *final(self) == *old(self))
                },
            },
    {
        match op {
            MarketOperation::CreateMarket {
                question,
                description,
                category,
                duration_minutes,
                oracle_mode,
            } => {
                let creator = match caller {
                    Some(c) => c,
                    None => {
                        return MarketResponse::Error(EngineError::Unauthenticated);
                    }
                };
                if duration_minutes < 1 {
                    return MarketResponse::Error(EngineError::DurationOutOfBounds);
                }
                if duration_minutes > MAX_MARKET_DURATION_MICROS / 60_000_000 {
                    return MarketResponse::Error(EngineError::DurationOutOfBounds);
                }
                if self.next_market_id == u64::MAX {
                    return MarketResponse::Error(EngineError::Overflow);
                }
                let duration_micros = duration_minutes * 60_000_000;
                let closes_at = now.saturating_add(duration_micros);
                let market = Market {
                    id: 0,
                    creator,
                    question,
                    description,
                    category,
                    status: MarketStatus::Active,
                    created_at: now,
                    closes_at,
                    resolved_at: None,
                    outcome: None,
                    total_pool: 0,
                    up_pool: 0,
                    down_pool: 0,
                    oracle_mode,
                    resolution_source: None,
                };
                let id = self.create_market(market);
                MarketResponse::MarketId(id)
            }
            MarketOperation::PlaceBet { market_id, prediction, amount } => {
                let bettor = match caller {
                    Some(c) => c,
                    None => {
                        return MarketResponse::Error(EngineError::Unauthenticated);
                    }
                };
                if amount < MIN_BET_AMOUNT {
                    return MarketResponse::Error(EngineError::BelowMinimum);
                }
                let can = match self.get_market(market_id) {
                    Ok(m) => m.can_bet(now),
                    Err(e) => {
                        return MarketResponse::Error(e);
                    }
                };
                if !can {
                    return MarketResponse::Error(EngineError::InvalidState);
                }
                let bet = Bet {
                    market_id,
                    bettor,
                    prediction,
                    amount,
                    placed_at: now,
                    claimed: false,
                };
                match self.place_bet(bet) {
                    Ok(()) => MarketResponse::Accepted,
                    Err(e) => MarketResponse::Error(e),
                }
            }
            MarketOperation::ResolveMarket { market_id, outcome } => {
                if caller.is_none() {
                    return MarketResponse::Error(EngineError::Unauthenticated);
                }
                if market_id >= self.markets.len() as u64 {
                    return MarketResponse::Error(EngineError::NotFound);
                }
                let i = market_id as usize;
                let status = self.markets[i].status;
                if status == MarketStatus::Resolved {
                    return MarketResponse::Error(EngineError::AlreadyResolved);
                }
                if status == MarketStatus::Cancelled {
                    return MarketResponse::Error(EngineError::AlreadyCancelled);
                }
                self.markets[i].status = MarketStatus::Resolved;
                self.markets[i].outcome = Some(outcome);
                self.markets[i].resolved_at = Some(now);
                let total = self.markets[i].total_pool;
                let fee128: u128 = (total as u128) * 5 / 100;
                proof {
                    vstd::arithmetic::div_mod::lemma_div_is_ordered(
                        total as int * 5,
                        total as int * 100,
                        100,
                    );
                    vstd::arithmetic::div_mod::lemma_div_multiples_vanish(total as int, 100);
                    vstd::arithmetic::mul::lemma_mul_is_commutative(100, total as int);
                }
                let fee = fee128 as u64;
                self.platform_fees = self.platform_fees.saturating_add(fee);
                proof {
                    let ii = i as int;
                    assert(self.markets@ =~= old(self).markets@.update(
                        ii,
                        market_resolved(old(self).markets@[ii], outcome, now),
                    ));
                    assert forall|k: int| 0 <= k < self.markets@.len() implies self.market_ok(k) by {
                        assert(old(self).market_ok(k));
                        if k != ii {
                            assert(self.markets@[k] == old(self).markets@[k]);
                        }
                        assert(self.bets@[k] == old(self).bets@[k]);
                    }
                }
                MarketResponse::Accepted
            }
            MarketOperation::ClaimWinnings { market_id } => {
                let bettor = match caller {
                    Some(c) => c,
                    None => {
                        return MarketResponse::Error(EngineError::Unauthenticated);
                    }
                };
                if self.has_claimed(market_id, bettor) {
                    return MarketResponse::Error(EngineError::AlreadyClaimed);
                }
                let payout = match self.calculate_payout(market_id, bettor) {
                    Ok(p) => p,
                    Err(e) => {
                        return MarketResponse::Error(e);
                    }
                };
                if payout == 0 {
                    return MarketResponse::Error(EngineError::NothingToClaim);
                }
                self.mark_claimed(market_id, bettor);
                MarketResponse::Payout(payout)
            }
            MarketOperation::CancelMarket { market_id } => {
                let canceller = match caller {
                    Some(c) => c,
                    None => {
                        return MarketResponse::Error(EngineError::Unauthenticated);
                    }
                };
                if market_id >= self.markets.len() as u64 {
                    return MarketResponse::Error(EngineError::NotFound);
                }
                let i = market_id as usize;
                if self.markets[i].creator != canceller {
                    return MarketResponse::Error(EngineError::Unauthorized);
                }
                let status = self.markets[i].status;
                if status == MarketStatus::Resolved {
                    return MarketResponse::Error(EngineError::AlreadyResolved);
                }
                if status == MarketStatus::Cancelled {
                    return MarketResponse::Error(EngineError::AlreadyCancelled);
                }
                self.markets[i].status = MarketStatus::Cancelled;
                proof {
                    let ii = i as int;
                    assert(self.markets@ =~= old(self).markets@.update(
                        ii,
                        market_cancelled(old(self).markets@[ii]),
                    ));
                    assert forall|k: int| 0 <= k < self.markets@.len() implies self.market_ok(k) by {
                        assert(old(self).market_ok(k));
                        if k != ii {
                            assert(self.markets@[k] == old(self).markets@[k]);
                        }
                        assert(self.bets@[k] == old(self).bets@[k]);
                    }
                }
                MarketResponse::Accepted
            }
        }
    }
}

/// The first bet in `bets` by `bettor` on side `outcome`, if any.
fn find_first_winning(bets: &Vec<Bet>, bettor: AccountId, outcome: Outcome) -> (r: Option<Bet>)
    ensures
        r == first_winning_bet(bets@, bettor, outcome),
{
    proof {
        assert(bets@.skip(0) =~= bets@);
    }
    let n = bets.len();
    let mut k: usize = 0;
    while k < n
        invariant
            k <= n,
            n == bets@.len(),
            first_winning_bet(bets@, bettor, outcome) == first_winning_bet(
                bets@.skip(k as int),
                bettor,
                outcome,
            ),
        decreases n - k,
    {
        let b = bets[k];
        proof {
            assert(bets@.skip(k as int)[0] == bets@[k as int]);
        }
        if b.bettor == bettor && b.prediction == outcome {
            return Some(b);
        }
        proof {
            assert(bets@.skip(k as int).drop_first() =~= bets@.skip(k as int + 1));
        }
        k = k + 1;
    }
    proof {
        assert(bets@.skip(n as int) =~= Seq::<Bet>::empty());
    }
    None
}

/// No double claim: once a successful claim for a (market, account) pair
/// has recorded its key, every later claim by that pair answers
/// `AlreadyClaimed` — so at most one claim per pair ever pays out.
pub proof fn lemma_no_double_claim(
    s1: MarketState,
    s2: MarketState,
    account: AccountId,
    market_id: u64,
)
    requires
        claim_winnings_response(s1, Some(account), market_id) is Payout,
        s2.claimed@ == s1.claimed@.push((ClaimKey { market_id, account })),
    ensures
        claim_winnings_response(s2, Some(account), market_id) == MarketResponse::Error(
            EngineError::AlreadyClaimed,
        ),
{
    let n = s1.claimed@.len() as int;
    assert(s2.claimed@[n].market_id == market_id && s2.claimed@[n].account == account);
    assert(has_claim(s2.claimed@, market_id, account));
}

/// Pool invariant: in every valid store, each market's total pool is the
/// sum of its two outcome pools, each of which records exactly the stake
/// wagered on that side.
pub proof fn lemma_pool_invariant(s: MarketState, i: int)
    requires
        s.wf(),
        0 <= i < s.markets@.len(),
    ensures
        s.markets@[i].total_pool as int == s.markets@[i].up_pool as int
            + s.markets@[i].down_pool as int,
        s.markets@[i].up_pool as int == sum_side(s.bets@[i]@, Outcome::Up),
        s.markets@[i].down_pool as int == sum_side(s.bets@[i]@, Outcome::Down),
{
    assert(s.market_ok(i));
}

} // verus!
