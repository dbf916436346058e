//! A single market: its outcome set, its append-only book of bets and its
//! resolution state.

use vstd::prelude::*;

use solana_program::pubkey::Pubkey;

use crate::identity::same_key;

verus! {

/// A stake placed by one account on one outcome.
#[derive(Debug, PartialEq, Eq)]
pub struct Bet {
    pub bettor: Pubkey,
    pub amount: u64,
    pub prediction: String,
}

/// A value movement that the core asks the ledger to perform.
#[derive(Clone, Copy, Debug, PartialEq, Eq)]
pub struct TransferIntent {
    pub recipient: Pubkey,
    pub amount: u64,
}

/// Why an operation was refused. A refused operation changes nothing.
#[derive(Clone, Copy, Debug, PartialEq, Eq, Structural)]
pub enum MarketError {
    /// No market has the given id.
    NotFound,
    /// The outcome list is empty or names a label twice.
    InvalidOutcomeSet,
    /// The bet names a label that is not an outcome of the market.
    InvalidPrediction,
    /// The bet stakes nothing.
    ZeroAmount,
    /// The market has been resolved already.
    AlreadyResolved,
    /// The market has not been resolved yet.
    NotYetResolved,
    /// The winning label is not an outcome of the market.
    InvalidOutcome,
    /// Nobody staked on the winning outcome.
    ZeroWinningPool,
    /// The caller is not the creator of the market.
    Unauthorized,
    /// A stake total or the market counter would exceed `u64::MAX`.
    Overflow,
}

/// One wagering topic with a fixed outcome set.
#[derive(Debug)]
pub struct Market {
    pub id: u64,
    pub description: String,
    pub outcomes: Vec<String>,
    pub bets: Vec<Bet>,
    pub resolved: bool,
    pub winning_outcome: Option<String>,
    pub total_staked: u64,
    /// What resolution and withdrawals have handed out of the pot so far.
    pub distributed_amount: u64,
    pub creator: Pubkey,
}

/// Sum of the amounts of a sequence of bets.
pub open spec fn sum_amounts(bets: Seq<Bet>) -> nat
    decreases bets.len(),
{
    if bets.len() == 0 {
        0
    } else {
        sum_amounts(bets.drop_last()) + bets.last().amount as nat
    }
}

/// The bets that predicted `outcome`, in the order they were placed.
pub open spec fn winning_bets(bets: Seq<Bet>, outcome: Seq<char>) -> Seq<Bet>
    decreases bets.len(),
{
    if bets.len() == 0 {
        Seq::empty()
    } else {
        let rest = winning_bets(bets.drop_last(), outcome);
        if bets.last().prediction@ == outcome {
            rest.push(bets.last())
        } else {
            rest
        }
    }
}

/// Total staked on `outcome`.
pub open spec fn stake_on_spec(bets: Seq<Bet>, outcome: Seq<char>) -> nat {
    sum_amounts(winning_bets(bets, outcome))
}

/// `label` is one of `outcomes`.
pub open spec fn has_label(outcomes: Seq<String>, label: Seq<char>) -> bool {
    exists|i: int| 0 <= i < outcomes.len() && #[trigger] outcomes[i]@ == label
}

/// No label occurs twice in `outcomes`.
pub open spec fn unique_labels(outcomes: Seq<String>) -> bool {
    forall|i: int, j: int|
        0 <= i < outcomes.len() && 0 <= j < outcomes.len() && i != j ==> #[trigger] outcomes[i]@
            != #[trigger] outcomes[j]@
}

/// A usable outcome set: non-empty, without duplicates.
pub open spec fn valid_outcomes(outcomes: Seq<String>) -> bool {
    outcomes.len() > 0 && unique_labels(outcomes)
}

/// The first check that refuses a bet of `amount` on `prediction`, if any.
pub open spec fn bet_error(m: Market, prediction: Seq<char>, amount: u64) -> Option<MarketError> {
    if m.resolved {
        Some(MarketError::AlreadyResolved)
    } else if !has_label(m.outcomes@, prediction) {
        Some(MarketError::InvalidPrediction)
    } else if amount == 0 {
        Some(MarketError::ZeroAmount)
    } else if m.total_staked + amount > u64::MAX {
        Some(MarketError::Overflow)
    } else {
        None
    }
}

/// `new` is `old` with one more bet at the end of its book and the stake
/// raised by its amount; nothing else differs.
pub open spec fn bet_appended(old: Market, new: Market, bet: Bet) -> bool {
    &&& new.bets@ == old.bets@.push(bet)
    &&& new.total_staked == old.total_staked + bet.amount
    &&& new.id == old.id
    &&& new.description == old.description
    &&& new.outcomes == old.outcomes
    &&& new.resolved == old.resolved
    &&& new.winning_outcome == old.winning_outcome
    &&& new.distributed_amount == old.distributed_amount
    &&& new.creator == old.creator
}

impl Market {
    /// The invariant every market of a store keeps.
    pub open spec fn wf(&self) -> bool {
        &&& valid_outcomes(self.outcomes@)
        &&& forall|i: int|
            0 <= i < self.bets@.len() ==> (#[trigger] self.bets@[i]).amount > 0 && has_label(
                self.outcomes@,
                self.bets@[i].prediction@,
            )
        &&& self.total_staked == sum_amounts(self.bets@)
        &&& self.resolved <==> self.winning_outcome.is_some()
        &&& self.resolved ==> has_label(self.outcomes@, self.winning_outcome.unwrap()@)
        &&& self.distributed_amount <= self.total_staked
        &&& !self.resolved ==> self.distributed_amount == 0
    }

    /// Whether `label` is one of the market's outcomes.
    pub fn has_outcome(&self, label: &String) -> (r: bool)
        ensures
            r == has_label(self.outcomes@, label@),
    {
        let mut i: usize = 0;
        while i < self.outcomes.len()
            invariant
                0 <= i <= self.outcomes@.len(),
                forall|k: int| 0 <= k < i ==> self.outcomes@[k]@ != label@,
            decreases self.outcomes@.len() - i,
        {
            if self.outcomes[i] == *label {
                assert(self.outcomes@[i as int]@ == label@);
                return true;
            }
            i = i + 1;
        }
        false
    }

    /// Total staked on `outcome` over the whole book.
    pub fn stake_on(&self, outcome: &String) -> (r: u64)
        requires
            self.wf(),
        ensures
            r == stake_on_spec(self.bets@, outcome@),
    {
        let mut acc: u64 = 0;
        let mut i: usize = 0;
        while i < self.bets.len()
            invariant
                0 <= i <= self.bets@.len(),
                self.wf(),
                acc == stake_on_spec(self.bets@.subrange(0, i as int), outcome@),
            decreases self.bets@.len() - i,
        {
            proof {
                lemma_winning_step(self.bets@, outcome@, i as int);
                lemma_winning_prefix_bounded(self.bets@, outcome@, i as int + 1);
                lemma_winning_le_all(self.bets@, outcome@);
            }
            if self.bets[i].prediction == *outcome {
                acc = acc + self.bets[i].amount;
            }
            i = i + 1;
        }
        assert(self.bets@.subrange(0, self.bets@.len() as int) =~= self.bets@);
        acc
    }

    /// Appends a bet while the market is open, keeping the stake total in
    /// step with the book.
    pub fn place_bet(&mut self, prediction: String, bettor: Pubkey, amount: u64) -> (r: Result<
        (),
        MarketError,
    >)
        requires
            old(self).wf(),
        ensures
            final(self).wf(),
            match bet_error(*old(self), prediction@, amount) {
                Some(e) => r == Err::<(), MarketError>(e) && *final(self) == *old(self),
                None => r is Ok && bet_appended(
                    *old(self),
                    *final(self),
                    Bet { bettor, amount, prediction },
                ),
            },
    {
        if self.resolved {
            return Err(MarketError::AlreadyResolved);
        }
        if !self.has_outcome(&prediction) {
            return Err(MarketError::InvalidPrediction);
        }
        if amount == 0 {
            return Err(MarketError::ZeroAmount);
        }
        if amount > u64::MAX - self.total_staked {
            return Err(MarketError::Overflow);
        }
        let ghost before = self.bets@;
        let bet = Bet { bettor, amount, prediction };
        self.bets.push(bet);
        self.total_staked = self.total_staked + amount;
        proof {
            assert(self.bets@.drop_last() =~= before);
        }
        Ok(())
    }

    /// Whether `who` created this market.
    pub fn is_creator(&self, who: &Pubkey) -> (r: bool)
        ensures
            r == (self.creator == *who),
    {
        same_key(&self.creator, who)
    }
}

/// Whether `outcomes` is a usable outcome set: non-empty, without duplicates.
pub fn check_outcomes(outcomes: &Vec<String>) -> (r: bool)
    ensures
        r == valid_outcomes(outcomes@),
{
    let n = outcomes.len();
    if n == 0 {
        return false;
    }
    let mut i: usize = 0;
    while i < n
        invariant
            n == outcomes@.len(),
            0 <= i <= n,
            forall|a: int, b: int|
                0 <= a < i && 0 <= b < n && a != b ==> #[trigger] outcomes@[a]@
                    != #[trigger] outcomes@[b]@,
        decreases n - i,
    {
        let mut j: usize = i + 1;
        while j < n
            invariant
                n == outcomes@.len(),
                0 <= i < n,
                i + 1 <= j <= n,
                forall|a: int, b: int|
                    0 <= a < i && 0 <= b < n && a != b ==> #[trigger] outcomes@[a]@
                        != #[trigger] outcomes@[b]@,
                forall|b: int| i < b < j ==> outcomes@[i as int]@ != #[trigger] outcomes@[b]@,
            decreases n - j,
        {
            if outcomes[i] == outcomes[j] {
                assert(outcomes@[i as int]@ == outcomes@[j as int]@);
                return false;
            }
            j = j + 1;
        }
        i = i + 1;
    }
    true
}

/// Taking one more bet of the book into account adds it to the winning bets
/// exactly when it predicted `outcome`.
pub proof fn lemma_winning_step(bets: Seq<Bet>, outcome: Seq<char>, i: int)
    requires
        0 <= i < bets.len(),
    ensures
        stake_on_spec(bets.subrange(0, i + 1), outcome) == stake_on_spec(bets.subrange(0, i), outcome)
            + if bets[i].prediction@ == outcome {
            bets[i].amount as nat
        } else {
            0
        },
        winning_bets(bets.subrange(0, i + 1), outcome) == if bets[i].prediction@ == outcome {
            winning_bets(bets.subrange(0, i), outcome).push(bets[i])
        } else {
            winning_bets(bets.subrange(0, i), outcome)
        },
{
    assert(bets.subrange(0, i + 1).drop_last() =~= bets.subrange(0, i));
    lemma_sum_push(winning_bets(bets.subrange(0, i), outcome), bets[i]);
}

/// Appending a bet adds its amount to the sum.
pub proof fn lemma_sum_push(bets: Seq<Bet>, bet: Bet)
    ensures
        sum_amounts(bets.push(bet)) == sum_amounts(bets) + bet.amount,
{
    assert(bets.push(bet).drop_last() =~= bets);
}

/// The stake on an outcome over a prefix of the book is at most the stake on
/// it over the whole book.
pub proof fn lemma_winning_prefix_bounded(bets: Seq<Bet>, outcome: Seq<char>, i: int)
    requires
        0 <= i <= bets.len(),
    ensures
        stake_on_spec(bets.subrange(0, i), outcome) <= stake_on_spec(bets, outcome),
    decreases bets.len() - i,
{
    if i == bets.len() {
        assert(bets.subrange(0, i) =~= bets);
    } else {
        lemma_winning_step(bets, outcome, i);
        lemma_winning_prefix_bounded(bets, outcome, i + 1);
    }
}

/// The stake on one outcome is at most the sum of all stakes.
pub proof fn lemma_winning_le_all(bets: Seq<Bet>, outcome: Seq<char>)
    ensures
        stake_on_spec(bets, outcome) <= sum_amounts(bets),
    decreases bets.len(),
{
    if bets.len() > 0 {
        lemma_winning_le_all(bets.drop_last(), outcome);
        lemma_sum_push(winning_bets(bets.drop_last(), outcome), bets.last());
    }
}

} // verus!
