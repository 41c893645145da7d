//! Value ledger: per-account balances of a fixed-point value unit, with
//! conservation-preserving credit, debit and transfer, plus the bonus
//! records and the token operation surface.
//!
//! The conservation invariant — the sum of all balances equals the
//! `total_supply` register — is stated by [`TokenState::conserved`] and is
//! preserved by every operation, except that a credit which saturates the
//! total supply at the ceiling of the value type cannot keep it (the ledger
//! then holds more value than the register can count).

use vstd::prelude::*;
use crate::types::{AccountId, EngineError, DAILY_BONUS_AMOUNT, DAILY_BONUS_COOLDOWN_MICROS};
use crate::bonus::DailyBonus;

verus! {

/// A request against the token ledger.
#[derive(Clone, Copy, PartialEq, Eq, Structural, Debug)]
pub enum TokenOperation {
    Transfer { to: AccountId, amount: u64 },
    ClaimBonus,
    Mint { to: AccountId, amount: u64 },
}

/// The structured result of a token operation.
#[derive(Clone, Copy, PartialEq, Eq, Structural, Debug)]
pub enum TokenResponse {
    Accepted,
    Balance(u64),
    Error(EngineError),
}

/// No account appears twice.
pub open spec fn distinct_accounts(s: Seq<AccountId>) -> bool {
    forall|i: int, j: int| 0 <= i < j < s.len() ==> s[i] != s[j]
}

/// One ledger row: an account and its current balance in atto units.
#[derive(Clone, Copy, PartialEq, Eq, Structural, Debug)]
pub struct LedgerEntry {
    pub owner: AccountId,
    pub balance: u64,
}

/// One bonus row: an account and its cooldown record.
#[derive(Clone, Copy, PartialEq, Eq, Structural, Debug)]
pub struct BonusEntry {
    pub owner: AccountId,
    pub bonus: DailyBonus,
}

/// The token application state: account balances, bonus records, and the
/// total supply register.
pub struct TokenState {
    pub accounts: Vec<LedgerEntry>,
    pub daily_bonuses: Vec<BonusEntry>,
    pub total_supply: u64,
}

/// `a + b` clamped to the `u64` range from above.
pub open spec fn sat_add_u64(a: int, b: int) -> int {
    if a + b > u64::MAX {
        u64::MAX as int
    } else {
        a + b
    }
}

/// `a - b` clamped to zero from below.
pub open spec fn sat_sub_u64(a: int, b: int) -> int {
    if a - b < 0 {
        0
    } else {
        a - b
    }
}

/// Sum of all balances in the ledger rows.
pub open spec fn sum_balances(s: Seq<LedgerEntry>) -> int
    decreases s.len(),
{
    if s.len() == 0 {
        0
    } else {
        s[0].balance + sum_balances(s.drop_first())
    }
}

/// The balance the ledger holds for `o`: the balance of its row, or zero
/// when no row exists.
pub open spec fn balance_of(s: Seq<LedgerEntry>, o: AccountId) -> int
    decreases s.len(),
{
    if s.len() == 0 {
        0
    } else if s[0].owner == o {
        s[0].balance as int
    } else {
        balance_of(s.drop_first(), o)
    }
}

/// The bonus record stored for `o`, or the fresh default when none exists.
pub open spec fn bonus_of(s: Seq<BonusEntry>, o: AccountId) -> DailyBonus
    decreases s.len(),
{
    if s.len() == 0 {
        DailyBonus { last_claim: None, amount: DAILY_BONUS_AMOUNT }
    } else if s[0].owner == o {
        s[0].bonus
    } else {
        bonus_of(s.drop_first(), o)
    }
}

/// Every account owns at most one ledger row.
pub open spec fn unique_ledger_owners(s: Seq<LedgerEntry>) -> bool {
    forall|i: int, j: int| 0 <= i < j < s.len() ==> s[i].owner != s[j].owner
}

/// Every account owns at most one bonus row, and each row grants the fixed
/// bonus value.
pub open spec fn unique_bonus_owners(s: Seq<BonusEntry>) -> bool {
    &&& forall|i: int, j: int| 0 <= i < j < s.len() ==> s[i].owner != s[j].owner
    &&& forall|i: int| 0 <= i < s.len() ==> #[trigger] s[i].bonus.amount == DAILY_BONUS_AMOUNT
}

proof fn lemma_sum_nonneg(s: Seq<LedgerEntry>)
    ensures
        sum_balances(s) >= 0,
    decreases s.len(),
{
    if s.len() > 0 {
        lemma_sum_nonneg(s.drop_first());
    }
}

proof fn lemma_sum_update(s: Seq<LedgerEntry>, i: int, e: LedgerEntry)
    requires
        0 <= i < s.len(),
    ensures
        sum_balances(s.update(i, e)) == sum_balances(s) - s[i].balance + e.balance,
    decreases s.len(),
{
    if i == 0 {
        assert(s.update(0, e).drop_first() =~= s.drop_first());
    } else {
        assert(s.update(i, e).drop_first() =~= s.drop_first().update(i - 1, e));
        lemma_sum_update(s.drop_first(), i - 1, e);
    }
}

proof fn lemma_sum_push(s: Seq<LedgerEntry>, e: LedgerEntry)
    ensures
        sum_balances(s.push(e)) == sum_balances(s) + e.balance,
    decreases s.len(),
{
    if s.len() == 0 {
        assert(s.push(e).drop_first() =~= Seq::<LedgerEntry>::empty());
        assert(sum_balances(Seq::<LedgerEntry>::empty()) == 0);
    } else {
        assert(s.push(e).drop_first() =~= s.drop_first().push(e));
        lemma_sum_push(s.drop_first(), e);
    }
}

/// No single balance exceeds the sum of all balances.
proof fn lemma_balance_of_le_sum(s: Seq<LedgerEntry>, o: AccountId)
    ensures
        0 <= balance_of(s, o) <= sum_balances(s),
    decreases s.len(),
{
    if s.len() > 0 {
        lemma_sum_nonneg(s.drop_first());
        lemma_balance_of_le_sum(s.drop_first(), o);
    }
}

/// Every balance the ledger reports fits the value type.
proof fn lemma_balance_of_bound(s: Seq<LedgerEntry>, o: AccountId)
    ensures
        0 <= balance_of(s, o) <= u64::MAX,
    decreases s.len(),
{
    if s.len() > 0 {
        lemma_balance_of_bound(s.drop_first(), o);
    }
}

proof fn lemma_balance_of_at(s: Seq<LedgerEntry>, i: int)
    requires
        unique_ledger_owners(s),
        0 <= i < s.len(),
    ensures
        balance_of(s, s[i].owner) == s[i].balance,
    decreases s.len(),
{
    if i > 0 {
        assert(s[0].owner != s[i].owner);
        assert(unique_ledger_owners(s.drop_first())) by {
            assert(forall|x: int, y: int| 0 <= x < y < s.len() - 1
                ==> s.drop_first()[x] == s[x + 1] && s.drop_first()[y] == s[y + 1]);
        }
        lemma_balance_of_at(s.drop_first(), i - 1);
    }
}

proof fn lemma_balance_of_absent(s: Seq<LedgerEntry>, o: AccountId)
    requires
        forall|j: int| 0 <= j < s.len() ==> s[j].owner != o,
    ensures
        balance_of(s, o) == 0,
    decreases s.len(),
{
    if s.len() > 0 {
        assert(forall|j: int| 0 <= j < s.len() - 1 ==> s.drop_first()[j] == s[j + 1]);
        lemma_balance_of_absent(s.drop_first(), o);
    }
}

proof fn lemma_balance_of_update(s: Seq<LedgerEntry>, i: int, e: LedgerEntry, o: AccountId)
    requires
        unique_ledger_owners(s),
        0 <= i < s.len(),
        e.owner == s[i].owner,
    ensures
        balance_of(s.update(i, e), o) == if o == e.owner {
            e.balance as int
        } else {
            balance_of(s, o)
        },
    decreases s.len(),
{
    if i == 0 {
        assert(s.update(0, e).drop_first() =~= s.drop_first());
        if o == e.owner && o != s[0].owner {
            assert(false);
        }
        if o == e.owner {
            // rows below the head never hold the head's owner
            assert(forall|j: int| 0 <= j < s.len() - 1 ==> s.drop_first()[j] == s[j + 1]);
            lemma_balance_of_absent(s.drop_first(), o);
        }
    } else {
        assert(s.update(i, e).drop_first() =~= s.drop_first().update(i - 1, e));
        assert(unique_ledger_owners(s.drop_first())) by {
            assert(forall|x: int, y: int| 0 <= x < y < s.len() - 1
                ==> s.drop_first()[x] == s[x + 1] && s.drop_first()[y] == s[y + 1]);
        }
        lemma_balance_of_update(s.drop_first(), i - 1, e, o);
        assert(s[0].owner != s[i].owner);
    }
}

proof fn lemma_balance_of_push(s: Seq<LedgerEntry>, e: LedgerEntry, o: AccountId)
    requires
        forall|j: int| 0 <= j < s.len() ==> s[j].owner != e.owner,
    ensures
        balance_of(s.push(e), o) == if o == e.owner {
            e.balance as int
        } else {
            balance_of(s, o)
        },
    decreases s.len(),
{
    if s.len() == 0 {
        assert(s.push(e).drop_first() =~= Seq::<LedgerEntry>::empty());
        assert(balance_of(Seq::<LedgerEntry>::empty(), o) == 0);
    } else {
        assert(s.push(e).drop_first() =~= s.drop_first().push(e));
        assert(forall|j: int| 0 <= j < s.len() - 1 ==> s.drop_first()[j] == s[j + 1]);
        lemma_balance_of_push(s.drop_first(), e, o);
    }
}

proof fn lemma_bonus_of_at(s: Seq<BonusEntry>, i: int)
    requires
        unique_bonus_owners(s),
        0 <= i < s.len(),
    ensures
        bonus_of(s, s[i].owner) == s[i].bonus,
    decreases s.len(),
{
    if i > 0 {
        assert(s[0].owner != s[i].owner);
        assert(unique_bonus_owners(s.drop_first())) by {
            assert(forall|x: int, y: int| 0 <= x < y < s.len() - 1
                ==> s.drop_first()[x] == s[x + 1] && s.drop_first()[y] == s[y + 1]);
            assert(forall|x: int| 0 <= x < s.len() - 1 ==> s.drop_first()[x] == s[x + 1]);
        }
        lemma_bonus_of_at(s.drop_first(), i - 1);
    }
}

proof fn lemma_bonus_of_absent(s: Seq<BonusEntry>, o: AccountId)
    requires
        forall|j: int| 0 <= j < s.len() ==> s[j].owner != o,
    ensures
        bonus_of(s, o) == (DailyBonus { last_claim: None, amount: DAILY_BONUS_AMOUNT }),
    decreases s.len(),
{
    if s.len() > 0 {
        assert(forall|j: int| 0 <= j < s.len() - 1 ==> s.drop_first()[j] == s[j + 1]);
        lemma_bonus_of_absent(s.drop_first(), o);
    }
}

proof fn lemma_bonus_of_update(s: Seq<BonusEntry>, i: int, e: BonusEntry, o: AccountId)
    requires
        unique_bonus_owners(s),
        0 <= i < s.len(),
        e.owner == s[i].owner,
    ensures
        bonus_of(s.update(i, e), o) == if o == e.owner {
            e.bonus
        } else {
            bonus_of(s, o)
        },
    decreases s.len(),
{
    if i == 0 {
        assert(s.update(0, e).drop_first() =~= s.drop_first());
        if o == e.owner {
            assert(forall|j: int| 0 <= j < s.len() - 1 ==> s.drop_first()[j] == s[j + 1]);
            lemma_bonus_of_absent(s.drop_first(), o);
        }
    } else {
        assert(s.update(i, e).drop_first() =~= s.drop_first().update(i - 1, e));
        assert(unique_bonus_owners(s.drop_first())) by {
            assert(forall|x: int, y: int| 0 <= x < y < s.len() - 1
                ==> s.drop_first()[x] == s[x + 1] && s.drop_first()[y] == s[y + 1]);
            assert(forall|x: int| 0 <= x < s.len() - 1 ==> s.drop_first()[x] == s[x + 1]);
        }
        lemma_bonus_of_update(s.drop_first(), i - 1, e, o);
        assert(s[0].owner != s[i].owner);
    }
}

proof fn lemma_bonus_of_push(s: Seq<BonusEntry>, e: BonusEntry, o: AccountId)
    requires
        forall|j: int| 0 <= j < s.len() ==> s[j].owner != e.owner,
    ensures
        bonus_of(s.push(e), o) == if o == e.owner {
            e.bonus
        } else {
            bonus_of(s, o)
        },
    decreases s.len(),
{
    if s.len() == 0 {
        assert(s.push(e).drop_first() =~= Seq::<BonusEntry>::empty());
        assert(bonus_of(Seq::<BonusEntry>::empty(), o)
            == (DailyBonus { last_claim: None, amount: DAILY_BONUS_AMOUNT }));
    } else {
        assert(s.push(e).drop_first() =~= s.drop_first().push(e));
        assert(forall|j: int| 0 <= j < s.len() - 1 ==> s.drop_first()[j] == s[j + 1]);
        lemma_bonus_of_push(s.drop_first(), e, o);
    }
}

impl TokenState {
    /// Structural validity: one row per account on both sides.
    pub open spec fn wf(self) -> bool {
        &&& unique_ledger_owners(self.accounts@)
        &&& unique_bonus_owners(self.daily_bonuses@)
    }

    /// Conservation: the total supply register equals the sum of all
    /// balances.
    pub open spec fn conserved(self) -> bool {
        self.total_supply == sum_balances(self.accounts@)
    }

    /// The balance the ledger holds for `o` (zero for unknown accounts).
    pub open spec fn spec_balance(self, o: AccountId) -> int {
        balance_of(self.accounts@, o)
    }

    /// The bonus record for `o` (the fresh default for unknown accounts).
    pub open spec fn spec_bonus(self, o: AccountId) -> DailyBonus {
        bonus_of(self.daily_bonuses@, o)
    }

    /// An empty ledger: no rows, zero supply; conservation holds.
    pub fn new() -> (r: TokenState)
        ensures
            r.wf(),
            r.conserved(),
            r.accounts@.len() == 0,
            r.daily_bonuses@.len() == 0,
            r.total_supply == 0,
    {
        TokenState { accounts: Vec::new(), daily_bonuses: Vec::new(), total_supply: 0 }
    }

    /// Index of the ledger row owned by `owner`, if any.
    fn find_account(&self, owner: AccountId) -> (r: Option<usize>)
        ensures
            match r {
                Some(i) => i < self.accounts@.len() && self.accounts@[i as int].owner == owner,
                None => forall|j: int| 0 <= j < self.accounts@.len()
                    ==> self.accounts@[j].owner != owner,
            },
    {
        let n = self.accounts.len();
        let mut i: usize = 0;
        while i < n
            invariant
                i <= n,
                n == self.accounts@.len(),
                forall|j: int| 0 <= j < i ==> self.accounts@[j].owner != owner,
            decreases n - i,
        {
            if self.accounts[i].owner == owner {
                return Some(i);
            }
            i = i + 1;
        }
        None
    }

    /// Index of the bonus row owned by `owner`, if any.
    fn find_bonus(&self, owner: AccountId) -> (r: Option<usize>)
        ensures
            match r {
                Some(i) => i < self.daily_bonuses@.len()
                    && self.daily_bonuses@[i as int].owner == owner,
                None => forall|j: int| 0 <= j < self.daily_bonuses@.len()
                    ==> self.daily_bonuses@[j].owner != owner,
            },
    {
        let n = self.daily_bonuses.len();
        let mut i: usize = 0;
        while i < n
            invariant
                i <= n,
                n == self.daily_bonuses@.len(),
                forall|j: int| 0 <= j < i ==> self.daily_bonuses@[j].owner != owner,
            decreases n - i,
        {
            if self.daily_bonuses[i].owner == owner {
                return Some(i);
            }
            i = i + 1;
        }
        None
    }

    /// Current balance of an account; zero for accounts without a row.
    pub fn balance(&self, owner: AccountId) -> (r: u64)
        requires
            self.wf(),
        ensures
            r == self.spec_balance(owner),
    {
        match self.find_account(owner) {
            Some(i) => {
                proof {
                    lemma_balance_of_at(self.accounts@, i as int);
                }
                self.accounts[i].balance
            }
            None => {
                proof {
                    lemma_balance_of_absent(self.accounts@, owner);
                }
                0
            }
        }
    }

    /// Credit an account: its balance and the total supply both grow by
    /// `amount`, saturating at the ceiling of the value type.  Always
    /// succeeds.  Conservation is preserved whenever the total supply does
    /// not saturate.
    pub fn credit(&mut self, owner: AccountId, amount: u64)
        requires
            old(self).wf(),
        ensures
            final(self).wf(),
            final(self).spec_balance(owner) == sat_add_u64(old(self).spec_balance(owner), amount as int),
            forall|o2: AccountId| o2 != owner
                ==> final(self).spec_balance(o2) == old(self).spec_balance(o2),
            final(self).total_supply == sat_add_u64(old(self).total_supply as int, amount as int),
            final(self).daily_bonuses == old(self).daily_bonuses,
            old(self).conserved() && old(self).total_supply + amount <= u64::MAX
                ==> final(self).conserved(),
    {
        let ghost s0 = self.accounts@;
        match self.find_account(owner) {
            Some(i) => {
                let cur = self.accounts[i].balance;
                let nb = cur.saturating_add(amount);
                proof {
                    lemma_balance_of_at(s0, i as int);
                    lemma_sum_update(s0, i as int, LedgerEntry { owner, balance: nb });
                    lemma_balance_of_le_sum(s0, owner);
                    assert forall|o2: AccountId|
                        balance_of(s0.update(i as int, LedgerEntry { owner, balance: nb }), o2)
                            == if o2 == owner { nb as int } else { balance_of(s0, o2) } by {
                        lemma_balance_of_update(
                            s0,
                            i as int,
                            LedgerEntry { owner, balance: nb },
                            o2,
                        );
                    }
                }
                self.accounts[i] = LedgerEntry { owner, balance: nb };
            }
            None => {
                proof {
                    lemma_balance_of_absent(s0, owner);
                    lemma_sum_push(s0, LedgerEntry { owner, balance: amount });
                    assert forall|o2: AccountId|
                        balance_of(s0.push(LedgerEntry { owner, balance: amount }), o2)
                            == if o2 == owner { amount as int } else { balance_of(s0, o2) } by {
                        lemma_balance_of_push(s0, LedgerEntry { owner, balance: amount }, o2);
                    }
                }
                self.accounts.push(LedgerEntry { owner, balance: amount });
            }
        }
        self.total_supply = self.total_supply.saturating_add(amount);
    }

    /// Debit an account: fails with `InsufficientBalance` when the balance
    /// does not cover `amount`, and otherwise shrinks the balance and the
    /// total supply by `amount`.  A failed debit changes nothing.
    pub fn debit(&mut self, owner: AccountId, amount: u64) -> (r: Result<(), EngineError>)
        requires
            old(self).wf(),
        ensures
            final(self).wf(),
            r is Ok <==> old(self).spec_balance(owner) >= amount,
            r is Err ==> *final(self) == *old(self) && r == Err::<(), EngineError>(
                EngineError::InsufficientBalance,
            ),
            r is Ok ==> {
                &&& final(self).spec_balance(owner) == old(self).spec_balance(owner) - amount
                &&& forall|o2: AccountId| o2 != owner
                    ==> final(self).spec_balance(o2) == old(self).spec_balance(o2)
                &&& final(self).total_supply == sat_sub_u64(old(self).total_supply as int, amount as int)
                &&& final(self).daily_bonuses == old(self).daily_bonuses
                &&& (old(self).conserved() ==> final(self).conserved()
                    && final(self).total_supply == old(self).total_supply - amount)
            },
    {
        let ghost s0 = self.accounts@;
        match self.find_account(owner) {
            Some(i) => {
                let cur = self.accounts[i].balance;
                proof {
                    lemma_balance_of_at(s0, i as int);
                }
                if cur < amount {
                    return Err(EngineError::InsufficientBalance);
                }
                let nb = cur - amount;
                proof {
                    lemma_sum_update(s0, i as int, LedgerEntry { owner, balance: nb });
                    lemma_balance_of_le_sum(s0, owner);
                    assert forall|o2: AccountId|
                        balance_of(s0.update(i as int, LedgerEntry { owner, balance: nb }), o2)
                            == if o2 == owner { nb as int } else { balance_of(s0, o2) } by {
                        lemma_balance_of_update(
                            s0,
                            i as int,
                            LedgerEntry { owner, balance: nb },
                            o2,
                        );
                    }
                }
                self.accounts[i] = LedgerEntry { owner, balance: nb };
                self.total_supply = self.total_supply.saturating_sub(amount);
                Ok(())
            }
            None => {
                proof {
                    lemma_balance_of_absent(s0, owner);
                }
                if amount > 0 {
                    return Err(EngineError::InsufficientBalance);
                }
                proof {
                    lemma_sum_push(s0, LedgerEntry { owner, balance: 0 });
                    assert forall|o2: AccountId|
                        balance_of(s0.push(LedgerEntry { owner, balance: 0 }), o2)
                            == if o2 == owner { 0int } else { balance_of(s0, o2) } by {
                        lemma_balance_of_push(s0, LedgerEntry { owner, balance: 0 }, o2);
                    }
                }
                self.accounts.push(LedgerEntry { owner, balance: 0 });
                self.total_supply = self.total_supply.saturating_sub(0);
                Ok(())
            }
        }
    }

    /// Transfer between accounts: a debit of `from` followed by a credit of
    /// `to`, atomic as a pair — when the debit fails no credit occurs and
    /// nothing changes.  On a conserved ledger the total supply is
    /// unchanged and conservation is preserved.
    pub fn transfer(&mut self, from: AccountId, to: AccountId, amount: u64) -> (r: Result<
        (),
        EngineError,
    >)
        requires
            old(self).wf(),
        ensures
            final(self).wf(),
            r is Ok <==> old(self).spec_balance(from) >= amount,
            r is Err ==> *final(self) == *old(self) && r == Err::<(), EngineError>(
                EngineError::InsufficientBalance,
            ),
            r is Ok ==> {
                &&& final(self).daily_bonuses == old(self).daily_bonuses
                &&& (from == to ==> forall|o2: AccountId|
                    final(self).spec_balance(o2) == old(self).spec_balance(o2))
                &&& (from != to ==> {
                    &&& final(self).spec_balance(from) == old(self).spec_balance(from) - amount
                    &&& final(self).spec_balance(to) == sat_add_u64(
                        old(self).spec_balance(to),
                        amount as int,
                    )
                    &&& forall|o2: AccountId| o2 != from && o2 != to
                        ==> final(self).spec_balance(o2) == old(self).spec_balance(o2)
                })
                &&& (old(self).conserved() ==> final(self).conserved()
                    && final(self).total_supply == old(self).total_supply
                    && (from != to ==> final(self).spec_balance(to)
                        == old(self).spec_balance(to) + amount))
            },
    {
        let ghost pre = *self;
        match self.debit(from, amount) {
            Ok(()) => {
                proof {
                    if pre.conserved() {
                        lemma_balance_of_le_sum(self.accounts@, to);
                    }
                    lemma_balance_of_bound(pre.accounts@, from);
                    lemma_balance_of_bound(pre.accounts@, to);
                    lemma_balance_of_bound(self.accounts@, to);
                }
                self.credit(to, amount);
                Ok(())
            }
            Err(e) => Err(e),
        }
    }

    /// Claim the cooldown-gated bonus: when the account's window has
    /// passed, restart its cooldown, credit the fixed bonus value and
    /// report it; otherwise fail with the remaining wait and change
    /// nothing.
    pub fn claim_bonus(&mut self, owner: AccountId, now: u64) -> (r: Result<u64, EngineError>)
        requires
            old(self).wf(),
        ensures
            final(self).wf(),
            r is Ok <==> old(self).spec_bonus(owner).spec_can_claim(now),
            r is Err ==> *final(self) == *old(self) && r == Err::<u64, EngineError>(
                (EngineError::NotYetEligible {
                    remaining_micros: (DAILY_BONUS_COOLDOWN_MICROS - old(self).spec_bonus(
                        owner,
                    ).spec_elapsed(now)) as u64,
                }),
            ),
            r is Ok ==> ({
                &&& r == Ok::<u64, EngineError>(DAILY_BONUS_AMOUNT)
                &&& final(self).spec_bonus(owner) == old(self).spec_bonus(owner).spec_after_claim(
                    now,
                )
                &&& forall|o2: AccountId| o2 != owner ==> final(self).spec_bonus(o2) == old(self).spec_bonus(o2)
                &&& final(self).spec_balance(owner) == sat_add_u64(
                    old(self).spec_balance(owner),
                    DAILY_BONUS_AMOUNT as int,
                )
                &&& forall|o2: AccountId| o2 != owner ==> final(self).spec_balance(o2) == old(self).spec_balance(o2)
                &&& final(self).total_supply == sat_add_u64(
                    old(self).total_supply as int,
                    DAILY_BONUS_AMOUNT as int,
                )
                &&& (old(self).conserved() && old(self).total_supply + DAILY_BONUS_AMOUNT
                    <= u64::MAX ==> final(self).conserved())
            }),
    {
        let ghost s0 = self.daily_bonuses@;
        let idx = self.find_bonus(owner);
        let mut b = match idx {
            Some(i) => {
                proof {
                    lemma_bonus_of_at(s0, i as int);
                }
                self.daily_bonuses[i].bonus
            }
            None => {
                proof {
                    lemma_bonus_of_absent(s0, owner);
                }
                DailyBonus::new()
            }
        };
        let granted = b.claim(now);
        if granted == 0 {
            let rem = b.time_until_next_claim(now);
            return Err(EngineError::NotYetEligible { remaining_micros: rem });
        }
        let entry = BonusEntry { owner, bonus: b };
        match idx {
            Some(i) => {
                proof {
                    assert forall|o2: AccountId|
                        bonus_of(s0.update(i as int, entry), o2) == (if o2 == owner {
                            entry.bonus
                        } else {
                            bonus_of(s0, o2)
                        }) by {
                        lemma_bonus_of_update(s0, i as int, entry, o2);
                    }
                }
                self.daily_bonuses[i] = entry;
            }
            None => {
                proof {
                    assert forall|o2: AccountId|
                        bonus_of(s0.push(entry), o2) == (if o2 == owner {
                            entry.bonus
                        } else {
                            bonus_of(s0, o2)
                        }) by {
                        lemma_bonus_of_push(s0, entry, o2);
                    }
                    let s1 = s0.push(entry);
                    assert forall|i: int, j: int| 0 <= i < j < s1.len()
                        implies s1[i].owner != s1[j].owner by {
                        if j < s0.len() {
                            assert(s1[i] == s0[i] && s1[j] == s0[j]);
                        } else {
                            assert(s1[i] == s0[i] && s1[j] == entry);
                        }
                    }
                    assert forall|i: int| 0 <= i < s1.len()
                        implies #[trigger] s1[i].bonus.amount == DAILY_BONUS_AMOUNT by {
                        if i < s0.len() {
                            assert(s1[i] == s0[i]);
                        } else {
                            assert(s1[i] == entry);
                        }
                    }
                }
                self.daily_bonuses.push(entry);
            }
        }
        self.credit(owner, granted);
        Ok(granted)
    }

    /// Mint the initial supply at bootstrap: credit every listed owner
    /// with the same starting value.
    pub fn instantiate(&mut self, super_owners: &Vec<AccountId>, initial_supply: u64)
        requires
            old(self).wf(),
            distinct_accounts(super_owners@),
        ensures
            final(self).wf(),
            final(self).daily_bonuses == old(self).daily_bonuses,
            forall|o: AccountId| !super_owners@.contains(o) ==> final(self).spec_balance(o) == old(self).spec_balance(o),
            forall|k: int| 0 <= k < super_owners@.len() ==> final(self).spec_balance(
                super_owners@[k],
            ) == sat_add_u64(old(self).spec_balance(super_owners@[k]), initial_supply as int),
    {
        let n = super_owners.len();
        let mut i: usize = 0;
        while i < n
            invariant
                i <= n,
                n == super_owners@.len(),
                distinct_accounts(super_owners@),
                self.wf(),
                self.daily_bonuses == old(self).daily_bonuses,
                forall|o: AccountId| !super_owners@.contains(o) ==> self.spec_balance(o) == old(self).spec_balance(o),
                forall|k: int| 0 <= k < i ==> self.spec_balance(super_owners@[k]) == sat_add_u64(
                    old(self).spec_balance(super_owners@[k]),
                    initial_supply as int,
                ),
                forall|k: int| i <= k < n ==> self.spec_balance(super_owners@[k]) == old(self).spec_balance(super_owners@[k]),
            decreases n - i,
        {
            proof {
                assert(super_owners@.contains(super_owners@[i as int]));
            }
            self.credit(super_owners[i], initial_supply);
            i = i + 1;
        }
    }

    /// Execute one token operation as an atomic step: transfers move
    /// value between accounts, bonus claims are cooldown-gated, and
    /// minting is reserved to a super owner.
    pub fn execute_operation(
        &mut self,
        caller: Option<AccountId>,
        caller_is_super_owner: bool,
        now: u64,
        op: TokenOperation,
    ) -> (r: TokenResponse)
        requires
            old(self).wf(),
        ensures
            final(self).wf(),
            caller is None ==> r == TokenResponse::Error(EngineError::Unauthenticated) && *final(self) == *old(self),
            match op {
                TokenOperation::Transfer { to, amount } => caller matches Some(from) ==> {
                    &&& (r == TokenResponse::Accepted <==> old(self).spec_balance(from) >= amount)
                    &&& (r != TokenResponse::Accepted ==> r == TokenResponse::Error(
                        EngineError::InsufficientBalance,
                    ) && *final(self) == *old(self))
                    &&& (r == TokenResponse::Accepted ==> {
                        &&& final(self).daily_bonuses == old(self).daily_bonuses
                        &&& (from != to ==> final(self).spec_balance(from) == old(self).spec_balance(from) - amount && final(self).spec_balance(to)
                            == sat_add_u64(old(self).spec_balance(to), amount as int) && (
                        forall|o2: AccountId| o2 != from && o2 != to ==> final(self).spec_balance(
                            o2,
                        ) == old(self).spec_balance(o2)))
                        &&& (from == to ==> forall|o2: AccountId|
                            final(self).spec_balance(o2) == old(self).spec_balance(o2))
                        &&& (old(self).conserved() ==> final(self).conserved() && final(self).total_supply == old(self).total_supply)
                    })
                },
                TokenOperation::ClaimBonus => caller matches Some(owner) ==> {
                    &&& (r == TokenResponse::Accepted <==> old(self).spec_bonus(
                        owner,
                    ).spec_can_claim(now))
                    &&& (r != TokenResponse::Accepted ==> *final(self) == *old(self) && r
                        == TokenResponse::Error(
                        (EngineError::NotYetEligible {
                            remaining_micros: (DAILY_BONUS_COOLDOWN_MICROS - old(self).spec_bonus(
                                owner,
                            ).spec_elapsed(now)) as u64,
                        }),
                    ))
                    &&& (r == TokenResponse::Accepted ==> {
                        &&& final(self).spec_bonus(owner) == old(self).spec_bonus(
                            owner,
                        ).spec_after_claim(now)
                        &&& forall|o2: AccountId| o2 != owner ==> final(self).spec_bonus(o2)
                            == old(self).spec_bonus(o2)
                        &&& final(self).spec_balance(owner) == sat_add_u64(
                            old(self).spec_balance(owner),
                            DAILY_BONUS_AMOUNT as int,
                        )
                        &&& forall|o2: AccountId| o2 != owner ==> final(self).spec_balance(o2)
                            == old(self).spec_balance(o2)
                        &&& final(self).total_supply == sat_add_u64(
                            old(self).total_supply as int,
                            DAILY_BONUS_AMOUNT as int,
                        )
                        &&& (old(self).conserved() && old(self).total_supply + DAILY_BONUS_AMOUNT
                            <= u64::MAX ==> final(self).conserved())
                    })
                },
                TokenOperation::Mint { to, amount } => caller matches Some(minter) ==> {
                    &&& (!caller_is_super_owner ==> r == TokenResponse::Error(
                        EngineError::Unauthorized,
                    ) && *final(self) == *old(self))
                    &&& (caller_is_super_owner ==> {
                        &&& r == TokenResponse::Accepted
                        &&& final(self).spec_balance(to) == sat_add_u64(
                            old(self).spec_balance(to),
                            amount as int,
                        )
                        &&& forall|o2: AccountId| o2 != to ==> final(self).spec_balance(o2) == old(self).spec_balance(o2)
                        &&& final(self).total_supply == sat_add_u64(
                            old(self).total_supply as int,
                            amount as int,
                        )
                        &&& final(self).daily_bonuses == old(self).daily_bonuses
                        &&& (old(self).conserved() && old(self).total_supply + amount <= u64::MAX
                            ==> final(self).conserved())
                    })
                },
            },
    {
        match op {
            TokenOperation::Transfer { to, amount } => {
                let from = match caller {
                    Some(c) => c,
                    None => {
                        return TokenResponse::Error(EngineError::Unauthenticated);
                    }
                };
                match self.transfer(from, to, amount) {
                    Ok(()) => TokenResponse::Accepted,
                    Err(e) => TokenResponse::Error(e),
                }
            }
            TokenOperation::ClaimBonus => {
                let owner = match caller {
                    Some(c) => c,
                    None => {
                        return TokenResponse::Error(EngineError::Unauthenticated);
                    }
                };
                match self.claim_bonus(owner, now) {
                    Ok(_) => TokenResponse::Accepted,
                    Err(e) => TokenResponse::Error(e),
                }
            }
            TokenOperation::Mint { to, amount } => {
                if caller.is_none() {
                    return TokenResponse::Error(EngineError::Unauthenticated);
                }
                if !caller_is_super_owner {
                    return TokenResponse::Error(EngineError::Unauthorized);
                }
                self.credit(to, amount);
                TokenResponse::Accepted
            }
        }
    }
}

} // verus!
