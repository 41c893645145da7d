//! Autonomous betting agents: their records, statistics, and the agent
//! operation surface.
//!
//! An agent is an external strategy wrapper around the market engine: a
//! bet it places is handed back to the host as a market command to
//! forward, and only the agent's own statistics are kept here.  Accuracy
//! is tracked in basis points of won bets over placed bets.

use vstd::prelude::*;
use crate::types::{AccountId, AgentStrategy, EngineError, Outcome};
use crate::ledger::sat_add_u64;
use crate::market::MarketOperation;

verus! {

/// One agent: identity, strategy, and running statistics.
pub struct AIAgent {
    pub id: u64,
    pub name: String,
    pub strategy: AgentStrategy,
    pub total_bets: u64,
    pub wins: u64,
    pub losses: u64,
    pub total_profit: u64,
    pub accuracy_bps: u64,
    pub active: bool,
}

impl AIAgent {
    /// Recorded wins and losses never outnumber recorded bets.
    pub open spec fn stats_ok(self) -> bool {
        self.wins <= self.total_bets && self.losses <= self.total_bets
    }

    /// The share of placed bets that won, in basis points; zero while no
    /// bet was placed.
    pub open spec fn spec_win_rate_bps(self) -> int {
        if self.total_bets == 0 {
            0
        } else {
            self.wins * 10000 / (self.total_bets as int)
        }
    }

    pub fn win_rate_bps(&self) -> (r: u64)
        requires
            self.stats_ok(),
        ensures
            r == self.spec_win_rate_bps(),
            r <= 10000,
    {
        if self.total_bets == 0 {
            0
        } else {
            let x: u128 = (self.wins as u128) * 10000;
            let r128: u128 = x / (self.total_bets as u128);
            proof {
                vstd::arithmetic::div_mod::lemma_div_is_ordered(
                    self.wins * 10000,
                    self.total_bets * 10000,
                    self.total_bets as int,
                );
                vstd::arithmetic::div_mod::lemma_div_by_multiple(10000, self.total_bets as int);
                vstd::arithmetic::mul::lemma_mul_is_commutative(self.total_bets as int, 10000);
                vstd::arithmetic::mul::lemma_mul_inequality(
                    self.wins as int,
                    self.total_bets as int,
                    10000,
                );
            }
            r128 as u64
        }
    }

    /// Record the result of one settled bet: one more bet, a win or a
    /// loss, the profit added to the running total (saturating), and the
    /// accuracy recomputed.
    pub fn update_stats(&mut self, won: bool, profit: u64)
        requires
            old(self).stats_ok(),
            old(self).total_bets < u64::MAX,
        ensures
            final(self).stats_ok(),
            final(self).total_bets == old(self).total_bets + 1,
            final(self).wins == old(self).wins + (if won { 1int } else { 0 }),
            final(self).losses == old(self).losses + (if won { 0int } else { 1 }),
            final(self).total_profit == sat_add_u64(old(self).total_profit as int, profit as int),
            final(self).accuracy_bps == final(self).spec_win_rate_bps(),
            final(self).id == old(self).id,
            final(self).name == old(self).name,
            final(self).strategy == old(self).strategy,
            final(self).active == old(self).active,
    {
        self.total_bets = self.total_bets + 1;
        if won {
            self.wins = self.wins + 1;
        } else {
            self.losses = self.losses + 1;
        }
        self.total_profit = self.total_profit.saturating_add(profit);
        let accuracy = self.win_rate_bps();
        self.accuracy_bps = accuracy;
    }
}

/// A request against the agent component.
#[derive(Debug)]
pub enum AIAgentOperation {
    CreateAgent { name: String, strategy: AgentStrategy },
    PlaceBet { agent_id: u64, market_id: u64, prediction: Outcome, amount: u64 },
    UpdateStats { agent_id: u64, won: bool, profit: u64 },
    ToggleAgent { agent_id: u64 },
}

/// The structured result of an agent operation.
#[derive(Clone, Copy, PartialEq, Eq, Structural, Debug)]
pub enum AIAgentResponse {
    Accepted,
    AgentId(u64),
    Error(EngineError),
}

/// The agent application state: agent records keyed by a sequentially
/// assigned identifier.
pub struct AIAgentState {
    pub agents: Vec<AIAgent>,
    pub next_agent_id: u64,
}

impl AIAgentState {
    /// Structural validity: identifiers match indices and statistics are
    /// consistent.
    pub open spec fn wf(self) -> bool {
        &&& self.next_agent_id as int == self.agents@.len()
        &&& forall|i: int| 0 <= i < self.agents@.len()
            ==> (#[trigger] self.agents@[i]).id as int == i && self.agents@[i].stats_ok()
    }

    /// An empty agent store.
    pub fn new() -> (r: AIAgentState)
        ensures
            r.wf(),
            r.agents@.len() == 0,
            r.next_agent_id == 0,
    {
        AIAgentState { agents: Vec::new(), next_agent_id: 0 }
    }

    /// Store a new agent under the next sequential identifier; its `id`
    /// field is overwritten with the assigned identifier.
    pub fn create_agent(&mut self, agent: AIAgent) -> (id: u64)
        requires
            old(self).wf(),
            old(self).next_agent_id < u64::MAX,
            agent.stats_ok(),
        ensures
            final(self).wf(),
            id == old(self).next_agent_id,
            final(self).agents@ == old(self).agents@.push((AIAgent { id, ..agent })),
            final(self).next_agent_id == old(self).next_agent_id + 1,
    {
        let id = self.next_agent_id;
        let mut a = agent;
        a.id = id;
        self.agents.push(a);
        self.next_agent_id = id + 1;
        id
    }

    /// Look an agent up by identifier.
    pub fn get_agent(&self, id: u64) -> (r: Result<&AIAgent, EngineError>)
        requires
            self.wf(),
        ensures
            match r {
                Ok(a) => id < self.agents@.len() && *a == self.agents@[id as int],
                Err(e) => id >= self.agents@.len() && e == EngineError::NotFound,
            },
    {
        if id < self.agents.len() as u64 {
            Ok(&self.agents[id as usize])
        } else {
            Err(EngineError::NotFound)
        }
    }

    /// Replace a stored agent record.
    pub fn update_agent(&mut self, agent: AIAgent)
        requires
            old(self).wf(),
            agent.id < old(self).next_agent_id,
            agent.stats_ok(),
        ensures
            final(self).wf(),
            final(self).agents@ == old(self).agents@.update(agent.id as int, agent),
            final(self).next_agent_id == old(self).next_agent_id,
    {
        let n = self.agents.len();
        proof {
            assert(agent.id < n);
        }
        let i = agent.id as usize;
        self.agents[i] = agent;
    }

    /// Execute one agent operation as an atomic step.  A bet placed by an
    /// active agent is counted in its statistics and handed back as the
    /// market command the host must forward.
    pub fn execute_operation(&mut self, caller: Option<AccountId>, op: AIAgentOperation) -> (r: (
        AIAgentResponse,
        Option<MarketOperation>,
    ))
        requires
            old(self).wf(),
        ensures
            final(self).wf(),
            match op {
                AIAgentOperation::CreateAgent { name, strategy } => {
                    &&& (caller is None ==> r.0 == AIAgentResponse::Error(
                        EngineError::Unauthenticated,
                    ) && r.1 is None && *final(self) == *old(self))
                    &&& (caller is Some && old(self).next_agent_id == u64::MAX ==> r.0
                        == AIAgentResponse::Error(EngineError::Overflow) && r.1 is None && *final(self) == *old(self))
                    &&& (caller is Some && old(self).next_agent_id < u64::MAX ==> {
                        &&& r.0 == AIAgentResponse::AgentId(old(self).next_agent_id)
                        &&& r.1 is None
                        &&& final(self).agents@.len() == old(self).agents@.len() + 1
                        &&& ({
                            let a = final(self).agents@.last();
                            &&& a.name == name
                            &&& a.strategy == strategy
                            &&& a.total_bets == 0
                            &&& a.wins == 0
                            &&& a.losses == 0
                            &&& a.total_profit == 0
                            &&& a.accuracy_bps == 0
                            &&& a.active
                        })
                        &&& forall|j: int| 0 <= j < old(self).agents@.len() ==> final(self).agents@[j] == old(self).agents@[j]
                    })
                },
                AIAgentOperation::PlaceBet { agent_id, market_id, prediction, amount } => {
                    &&& (agent_id >= old(self).agents@.len() ==> r.0 == AIAgentResponse::Error(
                        EngineError::NotFound,
                    ) && r.1 is None && *final(self) == *old(self))
                    &&& (agent_id < old(self).agents@.len()
                        && !old(self).agents@[agent_id as int].active ==> r.0
                        == AIAgentResponse::Error(EngineError::InvalidState) && r.1 is None
                        && *final(self) == *old(self))
                    &&& (agent_id < old(self).agents@.len()
                        && old(self).agents@[agent_id as int].active
                        && old(self).agents@[agent_id as int].total_bets == u64::MAX ==> r.0
                        == AIAgentResponse::Error(EngineError::Overflow) && r.1 is None && *final(self) == *old(self))
                    &&& (agent_id < old(self).agents@.len()
                        && old(self).agents@[agent_id as int].active
                        && old(self).agents@[agent_id as int].total_bets < u64::MAX ==> {
                        &&& r.0 == AIAgentResponse::Accepted
                        &&& r.1 == Some(
                            MarketOperation::PlaceBet { market_id, prediction, amount },
                        )
                        &&& final(self).agents@ == old(self).agents@.update(
                            agent_id as int,
                            (AIAgent {
                                total_bets: (old(self).agents@[agent_id as int].total_bets
                                    + 1) as u64,
                                ..old(self).agents@[agent_id as int]
                            }),
                        )
                    })
                },
                AIAgentOperation::UpdateStats { agent_id, won, profit } => {
                    &&& (agent_id >= old(self).agents@.len() ==> r.0 == AIAgentResponse::Error(
                        EngineError::NotFound,
                    ) && r.1 is None && *final(self) == *old(self))
                    &&& (agent_id < old(self).agents@.len()
                        && old(self).agents@[agent_id as int].total_bets == u64::MAX ==> r.0
                        == AIAgentResponse::Error(EngineError::Overflow) && r.1 is None && *final(self) == *old(self))
                    &&& (agent_id < old(self).agents@.len()
                        && old(self).agents@[agent_id as int].total_bets < u64::MAX ==> {
                        &&& r.0 == AIAgentResponse::Accepted
                        &&& r.1 is None
                        &&& final(self).agents@.len() == old(self).agents@.len()
                        &&& ({
                            let a0 = old(self).agents@[agent_id as int];
                            let a1 = final(self).agents@[agent_id as int];
                            &&& a1.total_bets == a0.total_bets + 1
                            &&& a1.wins == a0.wins + (if won { 1int } else { 0 })
                            &&& a1.losses == a0.losses + (if won { 0int } else { 1 })
                            &&& a1.total_profit == sat_add_u64(
                                a0.total_profit as int,
                                profit as int,
                            )
                            &&& a1.accuracy_bps == a1.spec_win_rate_bps()
                            &&& a1.name == a0.name
                            &&& a1.active == a0.active
                        })
                        &&& forall|j: int| 0 <= j < old(self).agents@.len() && j != agent_id as int
                            ==> final(self).agents@[j] == old(self).agents@[j]
                    })
                },
                AIAgentOperation::ToggleAgent { agent_id } => {
                    &&& (agent_id >= old(self).agents@.len() ==> r.0 == AIAgentResponse::Error(
                        EngineError::NotFound,
                    ) && r.1 is None && *final(self) == *old(self))
                    &&& (agent_id < old(self).agents@.len() ==> {
                        &&& r.0 == AIAgentResponse::Accepted
                        &&& r.1 is None
                        &&& final(self).agents@ == old(self).agents@.update(
                            agent_id as int,
                            (AIAgent {
                                active: !old(self).agents@[agent_id as int].active,
                                ..old(self).agents@[agent_id as int]
                            }),
                        )
                    })
                },
            },
    {
        match op {
            AIAgentOperation::CreateAgent { name, strategy } => {
                if caller.is_none() {
                    return (AIAgentResponse::Error(EngineError::Unauthenticated), None);
                }
                if self.next_agent_id == u64::MAX {
                    return (AIAgentResponse::Error(EngineError::Overflow), None);
                }
                let agent = AIAgent {
                    id: 0,
                    name,
                    strategy,
                    total_bets: 0,
                    wins: 0,
                    losses: 0,
                    total_profit: 0,
                    accuracy_bps: 0,
                    active: true,
                };
                let id = self.create_agent(agent);
                (AIAgentResponse::AgentId(id), None)
            }
            AIAgentOperation::PlaceBet { agent_id, market_id, prediction, amount } => {
                if agent_id >= self.agents.len() as u64 {
                    return (AIAgentResponse::Error(EngineError::NotFound), None);
                }
                let i = agent_id as usize;
                if !self.agents[i].active {
                    return (AIAgentResponse::Error(EngineError::InvalidState), None);
                }
                let total = self.agents[i].total_bets;
                if total == u64::MAX {
                    return (AIAgentResponse::Error(EngineError::Overflow), None);
                }
                self.agents[i].total_bets = total + 1;
                (
                    AIAgentResponse::Accepted,
                    Some(MarketOperation::PlaceBet { market_id, prediction, amount }),
                )
            }
            AIAgentOperation::UpdateStats { agent_id, won, profit } => {
                if agent_id >= self.agents.len() as u64 {
                    return (AIAgentResponse::Error(EngineError::NotFound), None);
                }
                let i = agent_id as usize;
                if self.agents[i].total_bets == u64::MAX {
                    return (AIAgentResponse::Error(EngineError::Overflow), None);
                }
                let r = &mut self.agents[i];
                r.update_stats(won, profit);
                (AIAgentResponse::Accepted, None)
            }
            AIAgentOperation::ToggleAgent { agent_id } => {
                if agent_id >= self.agents.len() as u64 {
                    return (AIAgentResponse::Error(EngineError::NotFound), None);
                }
                let i = agent_id as usize;
                let active = self.agents[i].active;
                self.agents[i].active = !active;
                (AIAgentResponse::Accepted, None)
            }
        }
    }
}

} // verus!
