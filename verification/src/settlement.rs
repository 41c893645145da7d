//! Settlement calculator: the fee-adjusted proportional payout of a
//! resolved market.
//!
//! The payout of a winning stake is
//! `floor(stake * total_pool * 95 / (winning_pool * 100))`: the claimant's
//! proportional share of the combined pool after the fixed 5% platform fee,
//! computed in integer arithmetic with the multiplication before the
//! division.  The product is taken in a double-width (128-bit) intermediate
//! so it cannot overflow for any representable value.

use vstd::prelude::*;
use vstd::arithmetic::div_mod::{
    lemma_div_is_ordered,
    lemma_div_is_ordered_by_denominator,
    lemma_div_multiples_vanish,
    lemma_div_denominator,
    lemma_fundamental_div_mod,
    lemma_fundamental_div_mod_converse_div,
    lemma_mod_division_less_than_divisor,
};
use vstd::arithmetic::mul::{
    lemma_mul_inequality,
    lemma_mul_is_associative,
    lemma_mul_is_distributive_add,
    lemma_mul_is_commutative,
};
use crate::types::{AccountId, Bet, Market, Outcome};

verus! {

/// The fee-adjusted proportional payout of a winning stake, as a
/// mathematical integer: `floor(stake * total_pool * 95 / (winning_pool * 100))`.
pub open spec fn payout_calc(stake: int, total_pool: int, winning_pool: int) -> int {
    (stake * total_pool * 95) / (winning_pool * 100)
}

/// The first bet in arrival order placed by `bettor` on side `outcome`,
/// if any.  Settlement pays the first matching bet of the claimant.
pub open spec fn first_winning_bet(bets: Seq<Bet>, bettor: AccountId, outcome: Outcome) -> Option<
    Bet,
>
    decreases bets.len(),
{
    if bets.len() == 0 {
        None
    } else if bets[0].bettor == bettor && bets[0].prediction == outcome {
        Some(bets[0])
    } else {
        first_winning_bet(bets.drop_first(), bettor, outcome)
    }
}

/// The total stake wagered on side `outcome`.
pub open spec fn sum_side(bets: Seq<Bet>, outcome: Outcome) -> int
    decreases bets.len(),
{
    if bets.len() == 0 {
        0
    } else {
        (if bets[0].prediction == outcome {
            bets[0].amount as int
        } else {
            0
        }) + sum_side(bets.drop_first(), outcome)
    }
}

/// What a claim by `bettor` pays on market `m` with bet sequence `bets`:
/// zero when the claimant holds no bet on the resolved side or when the
/// winning pool is empty, and the fee-adjusted proportional share
/// otherwise.  A pool whose winning side drew no stake is permanently
/// unclaimable through this path, by design.
pub open spec fn settlement_amount(m: Market, bets: Seq<Bet>, bettor: AccountId) -> int {
    match m.outcome {
        None => 0,
        Some(o) => match first_winning_bet(bets, bettor, o) {
            None => 0,
            Some(b) => {
                if m.spec_side_pool(o) == 0 {
                    0
                } else {
                    payout_calc(b.amount as int, m.total_pool as int, m.spec_side_pool(o) as int)
                }
            },
        },
    }
}

pub proof fn lemma_sum_side_nonneg(bets: Seq<Bet>, outcome: Outcome)
    ensures
        0 <= sum_side(bets, outcome),
    decreases bets.len(),
{
    if bets.len() > 0 {
        lemma_sum_side_nonneg(bets.drop_first(), outcome);
    }
}

/// Appending one bet grows the side sums by its stake on its side only.
pub proof fn lemma_sum_side_push(bets: Seq<Bet>, b: Bet, outcome: Outcome)
    ensures
        sum_side(bets.push(b), outcome) == sum_side(bets, outcome) + (if b.prediction == outcome {
            b.amount as int
        } else {
            0
        }),
    decreases bets.len(),
{
    if bets.len() == 0 {
        assert(bets.push(b).drop_first() =~= Seq::<Bet>::empty());
        assert(sum_side(Seq::<Bet>::empty(), outcome) == 0);
    } else {
        assert(bets.push(b).drop_first() =~= bets.drop_first().push(b));
        lemma_sum_side_push(bets.drop_first(), b, outcome);
    }
}

/// The first winning bet of any claimant stakes no more than the whole
/// winning side, and indeed matches the claimant and the side.
pub proof fn lemma_first_winning_bet_bounds(bets: Seq<Bet>, bettor: AccountId, outcome: Outcome)
    requires
        first_winning_bet(bets, bettor, outcome) is Some,
    ensures
        ({
            let b = first_winning_bet(bets, bettor, outcome)->Some_0;
            &&& b.bettor == bettor
            &&& b.prediction == outcome
            &&& b.amount as int <= sum_side(bets, outcome)
        }),
    decreases bets.len(),
{
    if bets[0].bettor == bettor && bets[0].prediction == outcome {
        lemma_sum_side_nonneg(bets.drop_first(), outcome);
    } else {
        lemma_first_winning_bet_bounds(bets.drop_first(), bettor, outcome);
        if bets[0].prediction == outcome {
        }
    }
}

/// Computes the fee-adjusted proportional payout exactly, using a 128-bit
/// intermediate so the triple product cannot overflow.  The result never
/// exceeds the fee-reduced total pool.
pub fn payout_amount(stake: u64, total_pool: u64, winning_pool: u64) -> (r: u64)
    requires
        0 < winning_pool,
        stake <= winning_pool,
        winning_pool <= total_pool,
    ensures
        r == payout_calc(stake as int, total_pool as int, winning_pool as int),
        r as int <= total_pool as int * 95 / 100,
        r <= total_pool,
{
    proof {
        assert(stake as int * total_pool as int <= u64::MAX as int * u64::MAX as int)
            by (nonlinear_arith)
            requires stake <= u64::MAX && total_pool <= u64::MAX;
    }
    let a: u128 = (stake as u128) * (total_pool as u128);
    let b: u128 = (winning_pool as u128) * 100;
    let ghost ai = stake as int * total_pool as int;
    let ghost bi = winning_pool as int * 100;
    let q: u128 = a / b;
    let rem: u128 = a % b;
    proof {
        // the quotient is at most the total pool
        lemma_mul_inequality(stake as int, winning_pool as int, total_pool as int);
        lemma_div_is_ordered_by_denominator(ai, winning_pool as int, bi);
        lemma_div_is_ordered(ai, winning_pool as int * total_pool as int, winning_pool as int);
        lemma_div_multiples_vanish(total_pool as int, winning_pool as int);
        assert(q <= total_pool);
        lemma_mod_division_less_than_divisor(ai, bi);
    }
    let scaled: u128 = q * 95;
    let tail: u128 = (rem * 95) / b;
    let r128: u128 = scaled + tail;
    proof {
        let q2 = rem as int * 95 / bi;
        let r2 = rem as int * 95 % bi;
        lemma_fundamental_div_mod(ai, bi);
        lemma_fundamental_div_mod(rem as int * 95, bi);
        lemma_mod_division_less_than_divisor(rem as int * 95, bi);
        // a * 95 decomposes as b * (95 q + q2) + r2
        assert(ai * 95 == bi * (q as int * 95) + rem as int * 95) by {
            assert(ai == bi * q + rem);
            assert((bi * q + rem) * 95 == bi * q * 95 + rem as int * 95)
                by (nonlinear_arith);
            assert(bi * q * 95 == bi * (q as int * 95)) by (nonlinear_arith);
        }
        assert(ai * 95 == bi * (q as int * 95 + q2) + r2) by {
            assert(rem as int * 95 == bi * q2 + r2);
            lemma_mul_is_distributive_add(bi, q as int * 95, q2);
        }
        assert((q as int * 95 + q2) * bi + r2 == ai * 95) by {
            lemma_mul_is_commutative(bi, q as int * 95 + q2);
        }
        lemma_fundamental_div_mod_converse_div(ai * 95, bi, q as int * 95 + q2, r2);
        assert(r128 == ai * 95 / bi);
        assert(stake as int * total_pool as int * 95 == ai * 95);
        // bound: the payout never exceeds the fee-reduced total pool
        let w = winning_pool as int;
        let t = total_pool as int;
        assert(ai * 95 <= (w * t) * 95) by {
            lemma_mul_inequality(stake as int, w, t);
            lemma_mul_inequality(ai, w * t, 95);
        }
        lemma_div_is_ordered(ai * 95, w * t * 95, bi);
        assert(w * t * 95 / bi == t * 95 / 100) by {
            assert(w * t * 95 == w * (t * 95)) by {
                lemma_mul_is_associative(w, t, 95);
            }
            lemma_div_denominator(w * (t * 95), w, 100);
            lemma_div_multiples_vanish(t * 95, w);
        }
        assert(t * 95 / 100 <= t) by {
            lemma_div_is_ordered(t * 95, t * 100, 100);
            lemma_div_multiples_vanish(t, 100);
            assert(100 * t == t * 100) by {
                lemma_mul_is_commutative(100, t);
            }
        }
        assert(r128 <= total_pool);
    }
    r128 as u64
}

/// What any one claim settles to is bounded by the fee-reduced total
/// pool, whenever the winning pool records exactly the stake wagered on
/// the resolved side and fits the total pool — as it does in every valid
/// market store.
pub proof fn lemma_settlement_le_pool(m: Market, bets: Seq<Bet>, bettor: AccountId)
    requires
        m.outcome matches Some(o) ==> m.spec_side_pool(o) as int == sum_side(bets, o)
            && m.spec_side_pool(o) <= m.total_pool,
    ensures
        0 <= settlement_amount(m, bets, bettor) <= m.total_pool as int * 95 / 100,
        m.total_pool as int * 95 / 100 <= m.total_pool,
{
    let t = m.total_pool as int;
    assert(0 <= t * 95 / 100 <= t) by {
        vstd::arithmetic::div_mod::lemma_div_pos_is_pos(t * 95, 100);
        lemma_div_is_ordered(t * 95, t * 100, 100);
        lemma_div_multiples_vanish(t, 100);
        lemma_mul_is_commutative(100, t);
    }
    if m.outcome is Some {
        let o = m.outcome->0;
        if first_winning_bet(bets, bettor, o) is Some && m.spec_side_pool(o) != 0 {
            let b = first_winning_bet(bets, bettor, o)->Some_0;
            let w = m.spec_side_pool(o) as int;
            lemma_first_winning_bet_bounds(bets, bettor, o);
            let single = Seq::<u64>::empty().push(b.amount);
            assert(sum_stakes(single) == b.amount) by {
                assert(single[0] == b.amount);
                assert(single.drop_first() =~= Seq::<u64>::empty());
                assert(sum_stakes(Seq::<u64>::empty()) == 0);
            }
            lemma_payout_conservation(single, t, w);
            assert(sum_payouts(single, t, w) == payout_calc(b.amount as int, t, w)) by {
                assert(single[0] == b.amount);
                assert(single.drop_first() =~= Seq::<u64>::empty());
                assert(sum_payouts(Seq::<u64>::empty(), t, w) == 0);
            }
            assert(payout_calc(b.amount as int, t, w) >= 0) by {
                assert(b.amount as int * t * 95 >= 0) by (nonlinear_arith)
                    requires b.amount as int >= 0 && t >= 0;
                assert(w * 100 > 0) by (nonlinear_arith)
                    requires w > 0;
                vstd::arithmetic::div_mod::lemma_div_pos_is_pos(b.amount as int * t * 95, w * 100);
            }
        }
    }
}

/// The recorded payouts of a sequence of winning stakes, each settled by
/// the same resolved pools.
pub open spec fn sum_payouts(stakes: Seq<u64>, total_pool: int, winning_pool: int) -> int
    decreases stakes.len(),
{
    if stakes.len() == 0 {
        0
    } else {
        payout_calc(stakes[0] as int, total_pool, winning_pool) + sum_payouts(
            stakes.drop_first(),
            total_pool,
            winning_pool,
        )
    }
}

/// Sum of a sequence of stakes.
pub open spec fn sum_stakes(stakes: Seq<u64>) -> int
    decreases stakes.len(),
{
    if stakes.len() == 0 {
        0
    } else {
        stakes[0] + sum_stakes(stakes.drop_first())
    }
}

/// The floor division is superadditive: settling two stakes separately
/// never pays more than settling their sum.
proof fn lemma_payout_superadditive(s1: int, s2: int, total_pool: int, winning_pool: int)
    requires
        0 <= s1,
        0 <= s2,
        0 <= total_pool,
        0 < winning_pool,
    ensures
        payout_calc(s1, total_pool, winning_pool) + payout_calc(s2, total_pool, winning_pool)
            <= payout_calc(s1 + s2, total_pool, winning_pool),
{
    let b = winning_pool * 100;
    let x1 = s1 * total_pool * 95;
    let x2 = s2 * total_pool * 95;
    assert(winning_pool * 100 > 0) by (nonlinear_arith)
        requires 0 < winning_pool;
    assert(s1 * total_pool * 95 >= 0) by (nonlinear_arith)
        requires 0 <= s1 && 0 <= total_pool;
    assert(s2 * total_pool * 95 >= 0) by (nonlinear_arith)
        requires 0 <= s2 && 0 <= total_pool;
    assert((s1 + s2) * total_pool * 95 == s1 * total_pool * 95 + s2 * total_pool * 95)
        by (nonlinear_arith);
    lemma_fundamental_div_mod(x1, b);
    lemma_fundamental_div_mod(x2, b);
    lemma_mod_division_less_than_divisor(x1, b);
    lemma_mod_division_less_than_divisor(x2, b);
    let q1 = x1 / b;
    let q2 = x2 / b;
    assert(x1 + x2 == b * (q1 + q2) + (x1 % b + x2 % b)) by {
        lemma_mul_is_distributive_add(b, q1, q2);
    }
    assert(q1 + q2 <= (x1 + x2) / b) by {
        assert((q1 + q2) * b <= x1 + x2) by {
            lemma_mul_is_commutative(b, q1 + q2);
        }
        assert((q1 + q2) * b / b <= (x1 + x2) / b) by {
            lemma_div_is_ordered((q1 + q2) * b, x1 + x2, b);
        }
        assert((q1 + q2) * b / b == q1 + q2) by {
            vstd::arithmetic::div_mod::lemma_div_by_multiple(q1 + q2, b);
            assert(q1 + q2 >= 0) by {
                vstd::arithmetic::div_mod::lemma_div_pos_is_pos(x1, b);
                vstd::arithmetic::div_mod::lemma_div_pos_is_pos(x2, b);
            }
        }
    }
}

/// Payout conservation: however the winning side's stake is split among
/// winning bets, the payouts together never exceed the fee-reduced total
/// pool, and so never the total pool itself.
pub proof fn lemma_payout_conservation(stakes: Seq<u64>, total_pool: int, winning_pool: int)
    requires
        0 < winning_pool <= total_pool,
        sum_stakes(stakes) <= winning_pool,
    ensures
        sum_payouts(stakes, total_pool, winning_pool) <= total_pool * 95 / 100,
        total_pool * 95 / 100 <= total_pool,
    decreases stakes.len(),
{
    let b = winning_pool * 100;
    assert(total_pool * 95 / 100 <= total_pool) by {
        lemma_div_is_ordered(total_pool * 95, total_pool * 100, 100);
        lemma_div_multiples_vanish(total_pool, 100);
        lemma_mul_is_commutative(100, total_pool);
    }
    // the summed payouts never exceed the payout of the summed stake
    lemma_sum_payouts_le_whole(stakes, total_pool, winning_pool);
    assert(payout_calc(sum_stakes(stakes), total_pool, winning_pool) <= total_pool * 95 / 100) by {
        let s = sum_stakes(stakes);
        lemma_sum_stakes_nonneg(stakes);
        assert(s * total_pool * 95 <= winning_pool * total_pool * 95) by {
            lemma_mul_inequality(s, winning_pool, total_pool);
            lemma_mul_inequality(s * total_pool, winning_pool * total_pool, 95);
        }
        assert(s * total_pool * 95 >= 0) by (nonlinear_arith)
            requires 0 <= s && 0 <= total_pool;
        lemma_div_is_ordered(s * total_pool * 95, winning_pool * total_pool * 95, b);
        assert(winning_pool * total_pool * 95 / b == total_pool * 95 / 100) by {
            assert(winning_pool * total_pool * 95 == winning_pool * (total_pool * 95)) by {
                lemma_mul_is_associative(winning_pool, total_pool, 95);
            }
            lemma_div_denominator(winning_pool * (total_pool * 95), winning_pool, 100);
            lemma_div_multiples_vanish(total_pool * 95, winning_pool);
        }
    }
}

proof fn lemma_sum_stakes_nonneg(stakes: Seq<u64>)
    ensures
        0 <= sum_stakes(stakes),
    decreases stakes.len(),
{
    if stakes.len() > 0 {
        lemma_sum_stakes_nonneg(stakes.drop_first());
    }
}

/// Settling stakes one by one pays no more than settling their sum at once.
proof fn lemma_sum_payouts_le_whole(stakes: Seq<u64>, total_pool: int, winning_pool: int)
    requires
        0 < winning_pool <= total_pool,
    ensures
        sum_payouts(stakes, total_pool, winning_pool) <= payout_calc(
            sum_stakes(stakes),
            total_pool,
            winning_pool,
        ),
    decreases stakes.len(),
{
    if stakes.len() == 0 {
        assert(payout_calc(0, total_pool, winning_pool) == 0) by {
            assert(0int * total_pool * 95 == 0) by (nonlinear_arith);
            assert(winning_pool * 100 > 0) by (nonlinear_arith)
                requires 0 < winning_pool;
        }
    } else {
        lemma_sum_payouts_le_whole(stakes.drop_first(), total_pool, winning_pool);
        lemma_sum_stakes_nonneg(stakes.drop_first());
        lemma_payout_superadditive(
            stakes[0] as int,
            sum_stakes(stakes.drop_first()),
            total_pool,
            winning_pool,
        );
    }
}

/// The stake settlement attributes to one claimant: the stake of its
/// first winning bet, or zero.
pub open spec fn claimant_stake(bets: Seq<Bet>, c: AccountId, outcome: Outcome) -> int {
    match first_winning_bet(bets, c, outcome) {
        None => 0,
        Some(b) => b.amount as int,
    }
}

/// The stakes settlement attributes to a sequence of claimants.
pub open spec fn sum_claimant_stakes(bets: Seq<Bet>, claimants: Seq<AccountId>, outcome: Outcome) -> int
    decreases claimants.len(),
{
    if claimants.len() == 0 {
        0
    } else {
        claimant_stake(bets, claimants[0], outcome) + sum_claimant_stakes(
            bets,
            claimants.drop_first(),
            outcome,
        )
    }
}

/// What a sequence of claimants is paid in all.
pub open spec fn sum_settlements(m: Market, bets: Seq<Bet>, claimants: Seq<AccountId>) -> int
    decreases claimants.len(),
{
    if claimants.len() == 0 {
        0
    } else {
        settlement_amount(m, bets, claimants[0]) + sum_settlements(
            m,
            bets,
            claimants.drop_first(),
        )
    }
}

proof fn lemma_claimant_stake_nonneg(bets: Seq<Bet>, c: AccountId, outcome: Outcome)
    ensures
        0 <= claimant_stake(bets, c, outcome),
{
}

proof fn lemma_sum_claimant_stakes_nonneg(bets: Seq<Bet>, claimants: Seq<AccountId>, outcome: Outcome)
    ensures
        0 <= sum_claimant_stakes(bets, claimants, outcome),
    decreases claimants.len(),
{
    if claimants.len() > 0 {
        lemma_sum_claimant_stakes_nonneg(bets, claimants.drop_first(), outcome);
    }
}

/// Two bet sequences that attribute the same stake to every listed
/// claimant sum the same.
proof fn lemma_sum_stakes_congruent(
    bets1: Seq<Bet>,
    bets2: Seq<Bet>,
    claimants: Seq<AccountId>,
    outcome: Outcome,
)
    requires
        forall|k: int| 0 <= k < claimants.len() ==> claimant_stake(bets1, #[trigger] claimants[k], outcome)
            == claimant_stake(bets2, claimants[k], outcome),
    ensures
        sum_claimant_stakes(bets1, claimants, outcome) == sum_claimant_stakes(
            bets2,
            claimants,
            outcome,
        ),
    decreases claimants.len(),
{
    if claimants.len() > 0 {
        assert(forall|k: int| 0 <= k < claimants.len() - 1
            ==> claimants.drop_first()[k] == claimants[k + 1]);
        lemma_sum_stakes_congruent(bets1, bets2, claimants.drop_first(), outcome);
    }
}

/// Dropping a first bet that matches the resolved side costs the summed
/// stakes at most that bet's stake, for claimants that never repeat.
proof fn lemma_sum_stakes_head_match(bets: Seq<Bet>, claimants: Seq<AccountId>, outcome: Outcome)
    requires
        bets.len() > 0,
        bets[0].prediction == outcome,
        crate::ledger::distinct_accounts(claimants),
    ensures
        sum_claimant_stakes(bets, claimants, outcome) <= (if claimants.contains(bets[0].bettor) {
            bets[0].amount as int
        } else {
            0
        }) + sum_claimant_stakes(bets.drop_first(), claimants, outcome),
    decreases claimants.len(),
{
    if claimants.len() > 0 {
        let c1 = claimants[0];
        let tail = claimants.drop_first();
        assert(forall|k: int| 0 <= k < tail.len() ==> tail[k] == claimants[k + 1]);
        assert(crate::ledger::distinct_accounts(tail));
        lemma_sum_stakes_head_match(bets, tail, outcome);
        lemma_sum_claimant_stakes_nonneg(bets.drop_first(), tail, outcome);
        if c1 == bets[0].bettor {
            assert(claimant_stake(bets, c1, outcome) == bets[0].amount as int);
            assert(!tail.contains(c1)) by {
                if tail.contains(c1) {
                    let j = choose|j: int| 0 <= j < tail.len() && tail[j] == c1;
                    assert(claimants[j + 1] == c1);
                }
            }
            assert(claimants.contains(bets[0].bettor)) by {
                assert(claimants[0] == bets[0].bettor);
            }
            lemma_claimant_stake_nonneg(bets.drop_first(), c1, outcome);
        } else {
            assert(claimant_stake(bets, c1, outcome) == claimant_stake(
                bets.drop_first(),
                c1,
                outcome,
            ));
            if tail.contains(bets[0].bettor) {
                assert(claimants.contains(bets[0].bettor)) by {
                    let j = choose|j: int| 0 <= j < tail.len() && tail[j] == bets[0].bettor;
                    assert(claimants[j + 1] == bets[0].bettor);
                }
            }
        }
    }
}

/// Claimants that never repeat are attributed, in all, no more stake than
/// the whole winning side holds: each winning bet settles for at most one
/// of them.
proof fn lemma_claimant_stakes_le_side(bets: Seq<Bet>, claimants: Seq<AccountId>, outcome: Outcome)
    requires
        crate::ledger::distinct_accounts(claimants),
    ensures
        sum_claimant_stakes(bets, claimants, outcome) <= sum_side(bets, outcome),
    decreases bets.len(),
{
    if bets.len() == 0 {
        assert(bets =~= Seq::<Bet>::empty());
        lemma_sum_stakes_empty(claimants, outcome);
    } else {
        let rest = bets.drop_first();
        lemma_claimant_stakes_le_side(rest, claimants, outcome);
        assert(sum_side(bets, outcome) == (if bets[0].prediction == outcome {
            bets[0].amount as int
        } else {
            0
        }) + sum_side(rest, outcome));
        if bets[0].prediction == outcome {
            lemma_sum_stakes_head_match(bets, claimants, outcome);
        } else {
            assert forall|k: int| 0 <= k < claimants.len() implies claimant_stake(
                bets,
                #[trigger] claimants[k],
                outcome,
            ) == claimant_stake(rest, claimants[k], outcome) by {
            }
            lemma_sum_stakes_congruent(bets, rest, claimants, outcome);
        }
    }
}

proof fn lemma_sum_stakes_empty(claimants: Seq<AccountId>, outcome: Outcome)
    ensures
        sum_claimant_stakes(Seq::<Bet>::empty(), claimants, outcome) == 0,
    decreases claimants.len(),
{
    if claimants.len() > 0 {
        lemma_sum_stakes_empty(claimants.drop_first(), outcome);
    }
}

/// Settling the claimants one by one pays no more than settling their
/// attributed stake at once.
proof fn lemma_sum_settlements_le_whole(
    m: Market,
    bets: Seq<Bet>,
    claimants: Seq<AccountId>,
    outcome: Outcome,
)
    requires
        m.outcome == Some(outcome),
        0 < m.spec_side_pool(outcome) <= m.total_pool,
    ensures
        sum_settlements(m, bets, claimants) <= payout_calc(
            sum_claimant_stakes(bets, claimants, outcome),
            m.total_pool as int,
            m.spec_side_pool(outcome) as int,
        ),
    decreases claimants.len(),
{
    let t = m.total_pool as int;
    let w = m.spec_side_pool(outcome) as int;
    if claimants.len() == 0 {
        assert(payout_calc(0, t, w) == 0) by {
            assert(0int * t * 95 == 0) by (nonlinear_arith);
            assert(w * 100 > 0) by (nonlinear_arith)
                requires 0 < w;
        }
    } else {
        let c1 = claimants[0];
        let s1 = claimant_stake(bets, c1, outcome);
        lemma_sum_settlements_le_whole(m, bets, claimants.drop_first(), outcome);
        lemma_claimant_stake_nonneg(bets, c1, outcome);
        lemma_sum_claimant_stakes_nonneg(bets, claimants.drop_first(), outcome);
        assert(settlement_amount(m, bets, c1) == payout_calc(s1, t, w)) by {
            if first_winning_bet(bets, c1, outcome) is None {
                assert(payout_calc(0, t, w) == 0) by {
                    assert(0int * t * 95 == 0) by (nonlinear_arith);
                    assert(w * 100 > 0) by (nonlinear_arith)
                        requires 0 < w;
                }
            }
        }
        lemma_payout_superadditive(
            s1,
            sum_claimant_stakes(bets, claimants.drop_first(), outcome),
            t,
            w,
        );
    }
}

/// Payout conservation over a whole market: however many claimants come,
/// as long as no account claims twice, what settlement pays them in all
/// never exceeds the total pool less the 5% platform fee — and so never
/// the pool itself.  The winning pool must record exactly the stake
/// wagered on the resolved side and fit the total pool, as it does in
/// every valid market store.
pub proof fn lemma_market_payout_conservation(
    m: Market,
    bets: Seq<Bet>,
    claimants: Seq<AccountId>,
)
    requires
        crate::ledger::distinct_accounts(claimants),
        m.outcome matches Some(o) ==> m.spec_side_pool(o) as int == sum_side(bets, o)
            && m.spec_side_pool(o) <= m.total_pool,
    ensures
        sum_settlements(m, bets, claimants) <= m.total_pool as int * 95 / 100,
        m.total_pool as int * 95 / 100 <= m.total_pool,
    decreases claimants.len(),
{
    let t = m.total_pool as int;
    assert(0 <= t * 95 / 100 <= t) by {
        vstd::arithmetic::div_mod::lemma_div_pos_is_pos(t * 95, 100);
        lemma_div_is_ordered(t * 95, t * 100, 100);
        lemma_div_multiples_vanish(t, 100);
        lemma_mul_is_commutative(100, t);
    }
    match m.outcome {
        None => {
            if claimants.len() > 0 {
                assert(forall|k: int| 0 <= k < claimants.len() - 1
                    ==> claimants.drop_first()[k] == claimants[k + 1]);
                lemma_market_payout_conservation(m, bets, claimants.drop_first());
            }
        },
        Some(o) => {
            let w = m.spec_side_pool(o) as int;
            if w == 0 {
                // a claim against an empty winning side settles to zero
                if claimants.len() > 0 {
                    assert(forall|k: int| 0 <= k < claimants.len() - 1
                        ==> claimants.drop_first()[k] == claimants[k + 1]);
                    lemma_market_payout_conservation(m, bets, claimants.drop_first());
                }
            } else {
                lemma_sum_settlements_le_whole(m, bets, claimants, o);
                lemma_claimant_stakes_le_side(bets, claimants, o);
                lemma_sum_claimant_stakes_nonneg(bets, claimants, o);
                let s = sum_claimant_stakes(bets, claimants, o);
                assert(payout_calc(s, t, w) <= payout_calc(w, t, w)) by {
                    assert(s * t * 95 <= w * t * 95) by {
                        lemma_mul_inequality(s, w, t);
                        lemma_mul_inequality(s * t, w * t, 95);
                    }
                    assert(s * t * 95 >= 0) by (nonlinear_arith)
                        requires 0 <= s && 0 <= t;
                    assert(w * 100 > 0) by (nonlinear_arith)
                        requires 0 < w;
                    lemma_div_is_ordered(s * t * 95, w * t * 95, w * 100);
                }
                assert(payout_calc(w, t, w) == t * 95 / 100) by {
                    assert(w * t * 95 == w * (t * 95)) by {
                        lemma_mul_is_associative(w, t, 95);
                    }
                    lemma_div_denominator(w * (t * 95), w, 100);
                    lemma_div_multiples_vanish(t * 95, w);
                }
            }
        },
    }
}

} // verus!
