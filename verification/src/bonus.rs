//! Bonus timer: a per-account, cooldown-gated entitlement that grants a
//! fixed value once per cooldown window.
//!
//! A record that has never granted carries no grant time, so its very
//! first claim is always eligible — even at the epoch origin; each later
//! claim waits out a full cooldown window from the last grant.  One grant
//! is worth the fixed [`DAILY_BONUS_AMOUNT`]: value is counted in 64-bit
//! atto units, so the grant is declared in atto directly (a hundred whole
//! display units of 10^18 atto each would not fit the value type).

use vstd::prelude::*;
use crate::types::{DAILY_BONUS_AMOUNT, DAILY_BONUS_COOLDOWN_MICROS};

verus! {

/// Per-account bonus record: when the bonus was last granted — `None`
/// while it never was — and the fixed value one grant is worth.  All
/// times are microseconds.
#[derive(Clone, Copy, PartialEq, Eq, Structural, Debug)]
pub struct DailyBonus {
    pub last_claim: Option<u64>,
    pub amount: u64,
}

impl DailyBonus {
    /// Time elapsed since the last grant, saturating at zero if the clock
    /// reads earlier than the recorded grant; zero while nothing was ever
    /// granted.
    pub open spec fn spec_elapsed(self, current_time: u64) -> int {
        match self.last_claim {
            None => 0,
            Some(l) => if current_time >= l {
                current_time - l
            } else {
                0
            },
        }
    }

    /// A claim at `current_time` is eligible: the record never granted,
    /// or a full cooldown window has passed since the last grant.
    pub open spec fn spec_can_claim(self, current_time: u64) -> bool {
        self.last_claim is None || self.spec_elapsed(current_time)
            >= DAILY_BONUS_COOLDOWN_MICROS
    }

    /// The record after a claim at `current_time`: the grant time moves
    /// to `current_time` when the claim is eligible, and nothing changes
    /// otherwise.
    pub open spec fn spec_after_claim(self, current_time: u64) -> DailyBonus {
        if self.spec_can_claim(current_time) {
            DailyBonus { last_claim: Some(current_time), amount: self.amount }
        } else {
            self
        }
    }

    /// The value a claim at `current_time` grants: the fixed amount when
    /// eligible, zero otherwise.
    pub open spec fn spec_granted(self, current_time: u64) -> u64 {
        if self.spec_can_claim(current_time) {
            self.amount
        } else {
            0
        }
    }

    /// A fresh record: never claimed, worth the fixed bonus amount.
    pub fn new() -> (r: DailyBonus)
        ensures
            r.last_claim is None,
            r.amount == DAILY_BONUS_AMOUNT,
    {
        DailyBonus { last_claim: None, amount: DAILY_BONUS_AMOUNT }
    }

    pub fn can_claim(&self, current_time: u64) -> (r: bool)
        ensures
            r == self.spec_can_claim(current_time),
    {
        match self.last_claim {
            None => true,
            Some(l) => {
                let elapsed = if current_time >= l {
                    current_time - l
                } else {
                    0
                };
                elapsed >= DAILY_BONUS_COOLDOWN_MICROS
            }
        }
    }

    /// Claim the bonus: grants the fixed amount and restarts the cooldown
    /// when eligible, otherwise grants zero and leaves the record
    /// unchanged.  The very first claim of a record is always granted.
    pub fn claim(&mut self, current_time: u64) -> (r: u64)
        ensures
            r == old(self).spec_granted(current_time),
            *final(self) == old(self).spec_after_claim(current_time),
    {
        if self.can_claim(current_time) {
            self.last_claim = Some(current_time);
            self.amount
        } else {
            0
        }
    }

    /// The wait that remains until the next claim is eligible: zero when
    /// a claim is already eligible, otherwise the unexpired part of the
    /// cooldown.
    pub fn time_until_next_claim(&self, current_time: u64) -> (r: u64)
        ensures
            self.spec_can_claim(current_time) ==> r == 0,
            !self.spec_can_claim(current_time) ==> r == DAILY_BONUS_COOLDOWN_MICROS
                - self.spec_elapsed(current_time),
    {
        match self.last_claim {
            None => 0,
            Some(l) => {
                let elapsed = if current_time >= l {
                    current_time - l
                } else {
                    0
                };
                if elapsed >= DAILY_BONUS_COOLDOWN_MICROS {
                    0
                } else {
                    DAILY_BONUS_COOLDOWN_MICROS - elapsed
                }
            }
        }
    }
}

/// The bonus cooldown is idempotent within one window: of two claims made
/// less than one cooldown apart, at most one is granted.
pub proof fn lemma_bonus_single_grant_per_window(b: DailyBonus, t1: u64, t2: u64)
    requires
        t1 <= t2,
        t2 - t1 < DAILY_BONUS_COOLDOWN_MICROS,
    ensures
        !(b.spec_granted(t1) > 0 && b.spec_after_claim(t1).spec_granted(t2) > 0),
{
}

/// The times of a claim sequence, in the order the claims arrive.
pub open spec fn nondecreasing(times: Seq<u64>) -> bool {
    forall|i: int, j: int| 0 <= i <= j < times.len() ==> times[i] <= times[j]
}

/// How many of the claims at `times`, made in order against record `b`,
/// are granted.
pub open spec fn grants_given(b: DailyBonus, times: Seq<u64>) -> int
    decreases times.len(),
{
    if times.len() == 0 {
        0
    } else {
        let g: int = if b.spec_can_claim(times[0]) { 1 } else { 0 };
        g + grants_given(b.spec_after_claim(times[0]), times.drop_first())
    }
}

/// Rate limit for a record that has granted before: over any ordered
/// sequence of claims after that grant, at most one grant per full
/// cooldown window elapsed since it.
pub proof fn lemma_bonus_rate_limit_claimed(b: DailyBonus, times: Seq<u64>)
    requires
        times.len() > 0,
        nondecreasing(times),
        b.last_claim is Some,
        b.last_claim->0 <= times[0],
    ensures
        grants_given(b, times) * DAILY_BONUS_COOLDOWN_MICROS <= times.last() - b.last_claim->0,
    decreases times.len(),
{
    let cd = DAILY_BONUS_COOLDOWN_MICROS as int;
    let l = b.last_claim->0;
    if times.len() == 1 {
        assert(times.drop_first().len() == 0);
        assert(grants_given(b.spec_after_claim(times[0]), times.drop_first()) == 0);
        if b.spec_can_claim(times[0]) {
            assert(times[0] - l >= cd);
        }
    } else {
        let rest = times.drop_first();
        let b2 = b.spec_after_claim(times[0]);
        assert(nondecreasing(rest)) by {
            assert(forall|i: int, j: int| 0 <= i <= j < rest.len()
                ==> rest[i] == times[i + 1] && rest[j] == times[j + 1]);
        }
        assert(times[0] <= rest[0]);
        assert(rest.last() == times.last());
        if b.spec_can_claim(times[0]) {
            assert(grants_given(b, times) == 1 + grants_given(b2, rest));
            assert(b2.last_claim == Some(times[0]));
            assert(times[0] - l >= cd);
            lemma_bonus_rate_limit_claimed(b2, rest);
        } else {
            assert(grants_given(b, times) == grants_given(b2, rest));
            assert(b2 == b);
            lemma_bonus_rate_limit_claimed(b, rest);
        }
    }
}

/// Rate limit on the bonus: over any ordered sequence of claims, a fresh
/// record is granted at most once per elapsed cooldown window plus the
/// always-eligible first claim, and a record that has granted before at
/// most once per window elapsed since that grant — never more than
/// `elapsed / cooldown + 1` grants.
pub proof fn lemma_bonus_rate_limit(b: DailyBonus, times: Seq<u64>)
    requires
        times.len() > 0,
        nondecreasing(times),
        b.last_claim matches Some(l) ==> l <= times[0],
    ensures
        b.last_claim is Some ==> grants_given(b, times) * DAILY_BONUS_COOLDOWN_MICROS
            <= times.last() - b.last_claim->0,
        b.last_claim is None ==> grants_given(b, times) * DAILY_BONUS_COOLDOWN_MICROS
            <= times.last() - times[0] + DAILY_BONUS_COOLDOWN_MICROS,
{
    if b.last_claim is Some {
        lemma_bonus_rate_limit_claimed(b, times);
    } else {
        assert(b.spec_can_claim(times[0]));
        let b2 = b.spec_after_claim(times[0]);
        assert(b2.last_claim == Some(times[0]));
        if times.len() == 1 {
            assert(times.drop_first().len() == 0);
            assert(grants_given(b2, times.drop_first()) == 0);
            assert(grants_given(b, times) == 1);
        } else {
            let rest = times.drop_first();
            assert(nondecreasing(rest)) by {
                assert(forall|i: int, j: int| 0 <= i <= j < rest.len()
                    ==> rest[i] == times[i + 1] && rest[j] == times[j + 1]);
            }
            assert(times[0] <= rest[0]);
            assert(rest.last() == times.last());
            lemma_bonus_rate_limit_claimed(b2, rest);
            assert(grants_given(b, times) == 1 + grants_given(b2, rest));
        }
    }
}

} // verus!
