//! Resolution authority surface: price feeds, the oracle registry, and the
//! record of resolutions handed to the market engine.
//!
//! The oracle decides; the market engine settles.  A resolution request
//! that this component accepts is recorded here and handed back to the
//! host as a market command to forward — the cross-component invocation is
//! message passing, never shared state.

use vstd::prelude::*;
use crate::types::{AccountId, EngineError, Outcome};
use crate::market::MarketOperation;

verus! {

/// The latest submitted price of one symbol, in atto units, with its
/// submission time in microseconds.
pub struct PriceFeed {
    pub symbol: String,
    pub price: u64,
    pub timestamp: u64,
}

/// The record of one market resolution: what was decided, by which kind of
/// process, and when.  Confidence is counted in whole percent.
pub struct OracleResolution {
    pub market_id: u64,
    pub outcome: Outcome,
    pub confidence_percent: u64,
    pub reasoning: String,
    pub sources: Vec<String>,
    pub resolved_at: u64,
}

/// A request against the oracle.
#[derive(Debug)]
pub enum OracleOperation {
    SubmitPrice { symbol: String, price: u64 },
    ResolveMarketAI {
        market_id: u64,
        outcome: Outcome,
        confidence_percent: u64,
        reasoning: String,
        sources: Vec<String>,
    },
    ResolveMarketManual { market_id: u64, outcome: Outcome },
    RegisterOracle,
}

/// The structured result of an oracle operation.
#[derive(Clone, Copy, PartialEq, Eq, Structural, Debug)]
pub enum OracleResponse {
    Accepted,
    Error(EngineError),
}

/// The oracle application state: price feeds keyed by symbol, resolutions
/// keyed by market, the registry of accounts allowed to act as oracles,
/// and a running count of recorded resolutions.
pub struct OracleState {
    pub price_feeds: Vec<PriceFeed>,
    pub resolutions: Vec<OracleResolution>,
    pub oracles: Vec<AccountId>,
    pub resolution_count: u64,
}

/// The price stored for `symbol`, if any.
pub open spec fn price_of(feeds: Seq<PriceFeed>, symbol: Seq<char>) -> Option<u64>
    decreases feeds.len(),
{
    if feeds.len() == 0 {
        None
    } else if feeds[0].symbol@ == symbol {
        Some(feeds[0].price)
    } else {
        price_of(feeds.drop_first(), symbol)
    }
}

/// The resolution recorded for `market_id`, if any.
pub open spec fn resolution_of(rs: Seq<OracleResolution>, market_id: u64) -> Option<
    OracleResolution,
>
    decreases rs.len(),
{
    if rs.len() == 0 {
        None
    } else if rs[0].market_id == market_id {
        Some(rs[0])
    } else {
        resolution_of(rs.drop_first(), market_id)
    }
}

proof fn lemma_price_of_at(s: Seq<PriceFeed>, i: int)
    requires
        forall|x: int, y: int| 0 <= x < y < s.len() ==> s[x].symbol@ != s[y].symbol@,
        0 <= i < s.len(),
    ensures
        price_of(s, s[i].symbol@) == Some(s[i].price),
    decreases s.len(),
{
    if i > 0 {
        assert(s[0].symbol@ != s[i].symbol@);
        assert(forall|x: int| 0 <= x < s.len() - 1 ==> s.drop_first()[x] == s[x + 1]);
        lemma_price_of_at(s.drop_first(), i - 1);
    }
}

proof fn lemma_price_of_absent(s: Seq<PriceFeed>, symbol: Seq<char>)
    requires
        forall|j: int| 0 <= j < s.len() ==> s[j].symbol@ != symbol,
    ensures
        price_of(s, symbol) == None::<u64>,
    decreases s.len(),
{
    if s.len() > 0 {
        assert(forall|j: int| 0 <= j < s.len() - 1 ==> s.drop_first()[j] == s[j + 1]);
        lemma_price_of_absent(s.drop_first(), symbol);
    }
}

proof fn lemma_price_of_update(s: Seq<PriceFeed>, i: int, e: PriceFeed, symbol: Seq<char>)
    requires
        forall|x: int, y: int| 0 <= x < y < s.len() ==> s[x].symbol@ != s[y].symbol@,
        0 <= i < s.len(),
        e.symbol@ == s[i].symbol@,
    ensures
        price_of(s.update(i, e), symbol) == if symbol == e.symbol@ {
            Some(e.price)
        } else {
            price_of(s, symbol)
        },
    decreases s.len(),
{
    if i == 0 {
        assert(s.update(0, e).drop_first() =~= s.drop_first());
        if symbol == e.symbol@ {
            assert(forall|j: int| 0 <= j < s.len() - 1 ==> s.drop_first()[j] == s[j + 1]);
            lemma_price_of_absent(s.drop_first(), symbol);
        }
    } else {
        assert(s.update(i, e).drop_first() =~= s.drop_first().update(i - 1, e));
        assert(forall|x: int| 0 <= x < s.len() - 1 ==> s.drop_first()[x] == s[x + 1]);
        lemma_price_of_update(s.drop_first(), i - 1, e, symbol);
        assert(s[0].symbol@ != s[i].symbol@);
    }
}

proof fn lemma_price_of_push(s: Seq<PriceFeed>, e: PriceFeed, symbol: Seq<char>)
    requires
        forall|j: int| 0 <= j < s.len() ==> s[j].symbol@ != e.symbol@,
    ensures
        price_of(s.push(e), symbol) == if symbol == e.symbol@ {
            Some(e.price)
        } else {
            price_of(s, symbol)
        },
    decreases s.len(),
{
    if s.len() == 0 {
        assert(s.push(e).drop_first() =~= Seq::<PriceFeed>::empty());
        assert(price_of(Seq::<PriceFeed>::empty(), symbol) == None::<u64>);
    } else {
        assert(s.push(e).drop_first() =~= s.drop_first().push(e));
        assert(forall|j: int| 0 <= j < s.len() - 1 ==> s.drop_first()[j] == s[j + 1]);
        lemma_price_of_push(s.drop_first(), e, symbol);
    }
}

proof fn lemma_resolution_of_at(s: Seq<OracleResolution>, i: int)
    requires
        forall|x: int, y: int| 0 <= x < y < s.len() ==> s[x].market_id != s[y].market_id,
        0 <= i < s.len(),
    ensures
        resolution_of(s, s[i].market_id) == Some(s[i]),
    decreases s.len(),
{
    if i > 0 {
        assert(s[0].market_id != s[i].market_id);
        assert(forall|x: int| 0 <= x < s.len() - 1 ==> s.drop_first()[x] == s[x + 1]);
        lemma_resolution_of_at(s.drop_first(), i - 1);
    }
}

proof fn lemma_resolution_of_absent(s: Seq<OracleResolution>, market_id: u64)
    requires
        forall|j: int| 0 <= j < s.len() ==> s[j].market_id != market_id,
    ensures
        resolution_of(s, market_id) == None::<OracleResolution>,
    decreases s.len(),
{
    if s.len() > 0 {
        assert(forall|j: int| 0 <= j < s.len() - 1 ==> s.drop_first()[j] == s[j + 1]);
        lemma_resolution_of_absent(s.drop_first(), market_id);
    }
}

proof fn lemma_resolution_of_update(
    s: Seq<OracleResolution>,
    i: int,
    e: OracleResolution,
    market_id: u64,
)
    requires
        forall|x: int, y: int| 0 <= x < y < s.len() ==> s[x].market_id != s[y].market_id,
        0 <= i < s.len(),
        e.market_id == s[i].market_id,
    ensures
        resolution_of(s.update(i, e), market_id) == if market_id == e.market_id {
            Some(e)
        } else {
            resolution_of(s, market_id)
        },
    decreases s.len(),
{
    if i == 0 {
        assert(s.update(0, e).drop_first() =~= s.drop_first());
        if market_id == e.market_id {
            assert(forall|j: int| 0 <= j < s.len() - 1 ==> s.drop_first()[j] == s[j + 1]);
            lemma_resolution_of_absent(s.drop_first(), market_id);
        }
    } else {
        assert(s.update(i, e).drop_first() =~= s.drop_first().update(i - 1, e));
        assert(forall|x: int| 0 <= x < s.len() - 1 ==> s.drop_first()[x] == s[x + 1]);
        lemma_resolution_of_update(s.drop_first(), i - 1, e, market_id);
        assert(s[0].market_id != s[i].market_id);
    }
}

proof fn lemma_resolution_of_push(s: Seq<OracleResolution>, e: OracleResolution, market_id: u64)
    requires
        forall|j: int| 0 <= j < s.len() ==> s[j].market_id != e.market_id,
    ensures
        resolution_of(s.push(e), market_id) == if market_id == e.market_id {
            Some(e)
        } else {
            resolution_of(s, market_id)
        },
    decreases s.len(),
{
    if s.len() == 0 {
        assert(s.push(e).drop_first() =~= Seq::<OracleResolution>::empty());
        assert(resolution_of(Seq::<OracleResolution>::empty(), market_id)
            == None::<OracleResolution>);
    } else {
        assert(s.push(e).drop_first() =~= s.drop_first().push(e));
        assert(forall|j: int| 0 <= j < s.len() - 1 ==> s.drop_first()[j] == s[j + 1]);
        lemma_resolution_of_push(s.drop_first(), e, market_id);
    }
}

impl OracleState {
    /// Structural validity: one feed per symbol, one resolution per market.
    pub open spec fn wf(self) -> bool {
        &&& forall|x: int, y: int| 0 <= x < y < self.price_feeds@.len()
            ==> self.price_feeds@[x].symbol@ != self.price_feeds@[y].symbol@
        &&& forall|x: int, y: int| 0 <= x < y < self.resolutions@.len()
            ==> self.resolutions@[x].market_id != self.resolutions@[y].market_id
    }

    /// The price stored for `symbol`, if any.
    pub open spec fn spec_price(self, symbol: Seq<char>) -> Option<u64> {
        price_of(self.price_feeds@, symbol)
    }

    /// The resolution recorded for `market_id`, if any.
    pub open spec fn spec_resolution(self, market_id: u64) -> Option<OracleResolution> {
        resolution_of(self.resolutions@, market_id)
    }

    /// Whether `account` is a registered oracle.
    pub open spec fn spec_is_oracle(self, account: AccountId) -> bool {
        self.oracles@.contains(account)
    }

    /// An empty oracle state.
    pub fn new() -> (r: OracleState)
        ensures
            r.wf(),
            r.price_feeds@.len() == 0,
            r.resolutions@.len() == 0,
            r.oracles@.len() == 0,
            r.resolution_count == 0,
    {
        OracleState {
            price_feeds: Vec::new(),
            resolutions: Vec::new(),
            oracles: Vec::new(),
            resolution_count: 0,
        }
    }

    fn find_feed(&self, symbol: &String) -> (r: Option<usize>)
        ensures
            match r {
                Some(i) => i < self.price_feeds@.len()
                    && self.price_feeds@[i as int].symbol@ == symbol@,
                None => forall|j: int| 0 <= j < self.price_feeds@.len()
                    ==> self.price_feeds@[j].symbol@ != symbol@,
            },
    {
        let n = self.price_feeds.len();
        let mut i: usize = 0;
        while i < n
            invariant
                i <= n,
                n == self.price_feeds@.len(),
                forall|j: int| 0 <= j < i ==> self.price_feeds@[j].symbol@ != symbol@,
            decreases n - i,
        {
            if self.price_feeds[i].symbol == *symbol {
                return Some(i);
            }
            i = i + 1;
        }
        None
    }

    fn find_resolution(&self, market_id: u64) -> (r: Option<usize>)
        ensures
            match r {
                Some(i) => i < self.resolutions@.len()
                    && self.resolutions@[i as int].market_id == market_id,
                None => forall|j: int| 0 <= j < self.resolutions@.len()
                    ==> self.resolutions@[j].market_id != market_id,
            },
    {
        let n = self.resolutions.len();
        let mut i: usize = 0;
        while i < n
            invariant
                i <= n,
                n == self.resolutions@.len(),
                forall|j: int| 0 <= j < i ==> self.resolutions@[j].market_id != market_id,
            decreases n - i,
        {
            if self.resolutions[i].market_id == market_id {
                return Some(i);
            }
            i = i + 1;
        }
        None
    }

    /// Store the latest price for a symbol, replacing any earlier feed of
    /// the same symbol.
    pub fn submit_price(&mut self, symbol: String, price: u64, timestamp: u64)
        requires
            old(self).wf(),
        ensures
            final(self).wf(),
            final(self).spec_price(symbol@) == Some(price),
            forall|s2: Seq<char>| s2 != symbol@ ==> final(self).spec_price(s2) == old(
                self,
            ).spec_price(s2),
            final(self).resolutions == old(self).resolutions,
            final(self).oracles == old(self).oracles,
            final(self).resolution_count == old(self).resolution_count,
    {
        let ghost s0 = self.price_feeds@;
        let idx = self.find_feed(&symbol);
        let feed = PriceFeed { symbol, price, timestamp };
        match idx {
            Some(i) => {
                proof {
                    assert forall|s2: Seq<char>|
                        price_of(s0.update(i as int, feed), s2) == (if s2 == feed.symbol@ {
                            Some(feed.price)
                        } else {
                            price_of(s0, s2)
                        }) by {
                        lemma_price_of_update(s0, i as int, feed, s2);
                    }
                }
                self.price_feeds[i] = feed;
                proof {
                    assert forall|x: int, y: int| 0 <= x < y < self.price_feeds@.len()
                        implies self.price_feeds@[x].symbol@ != self.price_feeds@[y].symbol@ by {
                        assert(s0[x].symbol@ != s0[y].symbol@);
                    }
                }
            }
            None => {
                proof {
                    assert forall|s2: Seq<char>|
                        price_of(s0.push(feed), s2) == (if s2 == feed.symbol@ {
                            Some(feed.price)
                        } else {
                            price_of(s0, s2)
                        }) by {
                        lemma_price_of_push(s0, feed, s2);
                    }
                }
                self.price_feeds.push(feed);
                proof {
                    let s1 = self.price_feeds@;
                    assert forall|x: int, y: int| 0 <= x < y < s1.len()
                        implies s1[x].symbol@ != s1[y].symbol@ by {
                        if y < s0.len() {
                            assert(s1[x] == s0[x] && s1[y] == s0[y]);
                        } else {
                            assert(s1[x] == s0[x]);
                        }
                    }
                }
            }
        }
    }

    /// The latest price submitted for a symbol, if any.
    pub fn get_price(&self, symbol: &String) -> (r: Option<u64>)
        requires
            self.wf(),
        ensures
            r == self.spec_price(symbol@),
    {
        match self.find_feed(symbol) {
            Some(i) => {
                proof {
                    lemma_price_of_at(self.price_feeds@, i as int);
                }
                Some(self.price_feeds[i].price)
            }
            None => {
                proof {
                    lemma_price_of_absent(self.price_feeds@, symbol@);
                }
                None
            }
        }
    }

    /// Record a resolution under its market, replacing any earlier record
    /// for the same market, and count it.
    pub fn record_resolution(&mut self, resolution: OracleResolution)
        requires
            old(self).wf(),
            old(self).resolution_count < u64::MAX,
        ensures
            final(self).wf(),
            final(self).spec_resolution(resolution.market_id) == Some(resolution),
            forall|m2: u64| m2 != resolution.market_id ==> final(self).spec_resolution(m2) == old(
                self,
            ).spec_resolution(m2),
            final(self).resolution_count == old(self).resolution_count + 1,
            final(self).price_feeds == old(self).price_feeds,
            final(self).oracles == old(self).oracles,
    {
        let ghost s0 = self.resolutions@;
        let idx = self.find_resolution(resolution.market_id);
        let ghost e = resolution;
        match idx {
            Some(i) => {
                proof {
                    assert forall|m2: u64|
                        resolution_of(s0.update(i as int, e), m2) == (if m2 == e.market_id {
                            Some(e)
                        } else {
                            resolution_of(s0, m2)
                        }) by {
                        lemma_resolution_of_update(s0, i as int, e, m2);
                    }
                }
                self.resolutions[i] = resolution;
                proof {
                    assert forall|x: int, y: int| 0 <= x < y < self.resolutions@.len()
                        implies self.resolutions@[x].market_id != self.resolutions@[y].market_id
                    by {
                        assert(s0[x].market_id != s0[y].market_id);
                    }
                }
            }
            None => {
                proof {
                    assert forall|m2: u64|
                        resolution_of(s0.push(e), m2) == (if m2 == e.market_id {
                            Some(e)
                        } else {
                            resolution_of(s0, m2)
                        }) by {
                        lemma_resolution_of_push(s0, e, m2);
                    }
                }
                self.resolutions.push(resolution);
                proof {
                    let s1 = self.resolutions@;
                    assert forall|x: int, y: int| 0 <= x < y < s1.len()
                        implies s1[x].market_id != s1[y].market_id by {
                        if y < s0.len() {
                            assert(s1[x] == s0[x] && s1[y] == s0[y]);
                        } else {
                            assert(s1[x] == s0[x]);
                        }
                    }
                }
            }
        }
        self.resolution_count = self.resolution_count + 1;
    }

    /// Enter an account into the oracle registry.
    pub fn register_oracle(&mut self, oracle: AccountId)
        requires
            old(self).wf(),
        ensures
            final(self).wf(),
            final(self).spec_is_oracle(oracle),
            forall|o2: AccountId| o2 != oracle ==> final(self).spec_is_oracle(o2) == old(
                self,
            ).spec_is_oracle(o2),
            final(self).price_feeds == old(self).price_feeds,
            final(self).resolutions == old(self).resolutions,
            final(self).resolution_count == old(self).resolution_count,
    {
        if !self.is_oracle(&oracle) {
            self.oracles.push(oracle);
            proof {
                let s0 = old(self).oracles@;
                let s1 = self.oracles@;
                assert(s1[s0.len() as int] == oracle);
                assert forall|o2: AccountId| o2 != oracle && s1.contains(o2)
                    implies s0.contains(o2) by {
                    let w = choose|w: int| 0 <= w < s1.len() && s1[w] == o2;
                    assert(s0[w] == o2);
                }
                assert forall|o2: AccountId| o2 != oracle && s0.contains(o2)
                    implies s1.contains(o2) by {
                    let w = choose|w: int| 0 <= w < s0.len() && s0[w] == o2;
                    assert(s1[w] == o2);
                }
            }
        }
    }

    /// Whether an account is registered as an oracle.
    pub fn is_oracle(&self, account: &AccountId) -> (r: bool)
        ensures
            r == self.spec_is_oracle(*account),
    {
        let n = self.oracles.len();
        let mut i: usize = 0;
        while i < n
            invariant
                i <= n,
                n == self.oracles@.len(),
                forall|j: int| 0 <= j < i ==> self.oracles@[j] != *account,
            decreases n - i,
        {
            if self.oracles[i] == *account {
                proof {
                    assert(self.oracles@.contains(*account));
                }
                return true;
            }
            i = i + 1;
        }
        proof {
            if self.oracles@.contains(*account) {
                let w = choose|w: int| 0 <= w < self.oracles@.len() && self.oracles@[w]
                    == *account;
                assert(false);
            }
        }
        false
    }

    /// Execute one oracle operation as an atomic step.  An accepted
    /// resolution is recorded here and handed back as the market command
    /// the host must forward; every other request forwards nothing.
    pub fn execute_operation(
        &mut self,
        caller: Option<AccountId>,
        now: u64,
        op: OracleOperation,
    ) -> (r: (OracleResponse, Option<MarketOperation>))
        requires
            old(self).wf(),
        ensures
            final(self).wf(),
            caller is None ==> r.0 == OracleResponse::Error(EngineError::Unauthenticated) && r.1
                is None && *final(self) == *old(self),
            caller matches Some(c) && !old(self).spec_is_oracle(c) && !(op is RegisterOracle)
                ==> r.0 == OracleResponse::Error(EngineError::Unauthorized) && r.1 is None
                && *final(self) == *old(self),
            match op {
                OracleOperation::SubmitPrice { symbol, price } => caller matches Some(c) && old(
                    self,
                ).spec_is_oracle(c) ==> {
                    &&& r.0 == OracleResponse::Accepted
                    &&& r.1 is None
                    &&& final(self).spec_price(symbol@) == Some(price)
                    &&& forall|s2: Seq<char>| s2 != symbol@ ==> final(self).spec_price(s2) == old(
                        self,
                    ).spec_price(s2)
                    &&& final(self).resolutions == old(self).resolutions
                    &&& final(self).oracles == old(self).oracles
                    &&& final(self).resolution_count == old(self).resolution_count
                },
                OracleOperation::ResolveMarketAI {
                    market_id,
                    outcome,
                    confidence_percent,
                    reasoning,
                    sources,
                } => caller matches Some(c) && old(self).spec_is_oracle(c) ==> {
                    &&& (old(self).resolution_count == u64::MAX ==> r.0 == OracleResponse::Error(
                        EngineError::Overflow,
                    ) && r.1 is None && *final(self) == *old(self))
                    &&& (old(self).resolution_count < u64::MAX ==> {
                        &&& r.0 == OracleResponse::Accepted
                        &&& r.1 == Some(MarketOperation::ResolveMarket { market_id, outcome })
                        &&& final(self).spec_resolution(market_id) == Some(
                            (OracleResolution {
                                market_id,
                                outcome,
                                confidence_percent,
                                reasoning,
                                sources,
                                resolved_at: now,
                            }),
                        )
                        &&& forall|m2: u64| m2 != market_id ==> final(self).spec_resolution(m2)
                            == old(self).spec_resolution(m2)
                        &&& final(self).resolution_count == old(self).resolution_count + 1
                        &&& final(self).price_feeds == old(self).price_feeds
                        &&& final(self).oracles == old(self).oracles
                    })
                },
                OracleOperation::ResolveMarketManual { market_id, outcome } => caller matches Some(
                    c,
                ) && old(self).spec_is_oracle(c) ==> {
                    &&& (old(self).resolution_count == u64::MAX ==> r.0 == OracleResponse::Error(
                        EngineError::Overflow,
                    ) && r.1 is None && *final(self) == *old(self))
                    &&& (old(self).resolution_count < u64::MAX ==> {
                        &&& r.0 == OracleResponse::Accepted
                        &&& r.1 == Some(MarketOperation::ResolveMarket { market_id, outcome })
                        &&& final(self).spec_resolution(market_id) is Some
                        &&& ({
                            let rec = final(self).spec_resolution(market_id)->Some_0;
                            &&& rec.market_id == market_id
                            &&& rec.outcome == outcome
                            &&& rec.confidence_percent == 100
                            &&& rec.reasoning@ == "Manual resolution"@
                            &&& rec.sources@.len() == 0
                            &&& rec.resolved_at == now
                        })
                        &&& forall|m2: u64| m2 != market_id ==> final(self).spec_resolution(m2)
                            == old(self).spec_resolution(m2)
                        &&& final(self).resolution_count == old(self).resolution_count + 1
                        &&& final(self).price_feeds == old(self).price_feeds
                        &&& final(self).oracles == old(self).oracles
                    })
                },
                OracleOperation::RegisterOracle => caller matches Some(c) ==> {
                    &&& r.0 == OracleResponse::Accepted
                    &&& r.1 is None
                    &&& final(self).spec_is_oracle(c)
                    &&& forall|o2: AccountId| o2 != c ==> final(self).spec_is_oracle(o2) == old(
                        self,
                    ).spec_is_oracle(o2)
                    &&& final(self).price_feeds == old(self).price_feeds
                    &&& final(self).resolutions == old(self).resolutions
                    &&& final(self).resolution_count == old(self).resolution_count
                },
            },
    {
        let submitter = match caller {
            Some(c) => c,
            None => {
                return (OracleResponse::Error(EngineError::Unauthenticated), None);
            }
        };
        match op {
            OracleOperation::SubmitPrice { symbol, price } => {
                if !self.is_oracle(&submitter) {
                    return (OracleResponse::Error(EngineError::Unauthorized), None);
                }
                self.submit_price(symbol, price, now);
                (OracleResponse::Accepted, None)
            }
            OracleOperation::ResolveMarketAI {
                market_id,
                outcome,
                confidence_percent,
                reasoning,
                sources,
            } => {
                if !self.is_oracle(&submitter) {
                    return (OracleResponse::Error(EngineError::Unauthorized), None);
                }
                if self.resolution_count == u64::MAX {
                    return (OracleResponse::Error(EngineError::Overflow), None);
                }
                let resolution = OracleResolution {
                    market_id,
                    outcome,
                    confidence_percent,
                    reasoning,
                    sources,
                    resolved_at: now,
                };
                self.record_resolution(resolution);
                (
                    OracleResponse::Accepted,
                    Some(MarketOperation::ResolveMarket { market_id, outcome }),
                )
            }
            OracleOperation::ResolveMarketManual { market_id, outcome } => {
                if !self.is_oracle(&submitter) {
                    return (OracleResponse::Error(EngineError::Unauthorized), None);
                }
                if self.resolution_count == u64::MAX {
                    return (OracleResponse::Error(EngineError::Overflow), None);
                }
                let resolution = OracleResolution {
                    market_id,
                    outcome,
                    confidence_percent: 100,
                    reasoning: manual_reasoning(),
                    sources: Vec::new(),
                    resolved_at: now,
                };
                self.record_resolution(resolution);
                (
                    OracleResponse::Accepted,
                    Some(MarketOperation::ResolveMarket { market_id, outcome }),
                )
            }
            OracleOperation::RegisterOracle => {
                self.register_oracle(submitter);
                (OracleResponse::Accepted, None)
            }
        }
    }
}

/// The fixed annotation a manual resolution is recorded with.
fn manual_reasoning() -> (r: String)
    ensures
        r@ == "Manual resolution"@,
{
    let s: String = "Manual resolution".to_string();
    s
}

} // verus!
