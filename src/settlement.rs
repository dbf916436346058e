//! Pro-rata payouts at resolution, in integer arithmetic.
//!
//! Each winning bet receives `floor(amount * pot / pool)`, where `pool` is the
//! stake on the winning outcome. What the floors leave over goes to the first
//! winning bet with the largest amount, so the payouts add up to the pot.

use vstd::prelude::*;

use solana_program::pubkey::Pubkey;

use crate::market::{
    has_label, lemma_sum_push, lemma_winning_prefix_bounded,
    lemma_winning_step, stake_on_spec, sum_amounts, winning_bets, Bet, Market, MarketError,
    TransferIntent,
};

verus! {

/// A bet's truncated share of the pot.
pub open spec fn share(amount: nat, pot: nat, pool: nat) -> nat
    recommends
        pool > 0,
{
    if pool == 0 {
        0
    } else {
        (amount * pot) / pool
    }
}

/// Sum of the truncated shares of a sequence of bets.
pub open spec fn sum_shares(bets: Seq<Bet>, pot: nat, pool: nat) -> nat
    decreases bets.len(),
{
    if bets.len() == 0 {
        0
    } else {
        sum_shares(bets.drop_last(), pot, pool) + share(bets.last().amount as nat, pot, pool)
    }
}

/// Index of the first bet of largest amount (0 for an empty sequence).
pub open spec fn largest_index(bets: Seq<Bet>) -> int
    decreases bets.len(),
{
    if bets.len() <= 1 {
        0
    } else {
        let i = largest_index(bets.drop_last());
        if bets.last().amount > bets[i].amount {
            bets.len() - 1
        } else {
            i
        }
    }
}

/// What the `k`-th of the winning bets `w` receives.
pub open spec fn payout_amount(w: Seq<Bet>, k: int, pot: nat, pool: nat) -> nat {
    share(w[k].amount as nat, pot, pool) + if k == largest_index(w) {
        (pot - sum_shares(w, pot, pool)) as nat
    } else {
        0
    }
}

/// The payouts owed when `outcome` wins a book `bets` with pot `pot`: one per
/// winning bet, in the order the bets were placed.
pub open spec fn payout_list(bets: Seq<Bet>, outcome: Seq<char>, pot: nat) -> Seq<(Pubkey, nat)> {
    let w = winning_bets(bets, outcome);
    let pool = sum_amounts(w);
    Seq::new(w.len(), |k: int| (w[k].bettor, payout_amount(w, k, pot, pool)))
}

/// Transfer intents seen as (recipient, amount) pairs.
pub open spec fn transfers_view(t: Seq<TransferIntent>) -> Seq<(Pubkey, nat)> {
    t.map_values(|x: TransferIntent| (x.recipient, x.amount as nat))
}

/// Sum of the amounts of a list of payouts.
pub open spec fn total_paid(p: Seq<(Pubkey, nat)>) -> nat
    decreases p.len(),
{
    if p.len() == 0 {
        0
    } else {
        total_paid(p.drop_last()) + p.last().1
    }
}

/// A truncated share times the pool never exceeds the exact product.
proof fn lemma_share_scaled(amount: nat, pot: nat, pool: nat)
    requires
        pool > 0,
    ensures
        share(amount, pot, pool) * pool <= amount * pot,
{
    let q = (amount * pot) / pool;
    vstd::arithmetic::div_mod::lemma_fundamental_div_mod((amount * pot) as int, pool as int);
    vstd::arithmetic::div_mod::lemma_mod_pos_bound((amount * pot) as int, pool as int);
    vstd::arithmetic::mul::lemma_mul_is_commutative(pool as int, q as int);
}

/// The shares of a sequence of bets, scaled by the pool, stay within its
/// stake scaled by the pot.
proof fn lemma_shares_scaled(bets: Seq<Bet>, pot: nat, pool: nat)
    requires
        pool > 0,
    ensures
        sum_shares(bets, pot, pool) * pool <= sum_amounts(bets) * pot,
    decreases bets.len(),
{
    if bets.len() > 0 {
        let rest = bets.drop_last();
        let a = bets.last().amount as nat;
        let s0 = sum_shares(rest, pot, pool);
        let s1 = share(a, pot, pool);
        lemma_shares_scaled(rest, pot, pool);
        lemma_share_scaled(a, pot, pool);
        assert(sum_shares(bets, pot, pool) == s0 + s1);
        assert(sum_amounts(bets) == sum_amounts(rest) + a);
        let a0 = sum_amounts(rest);
        assert((s0 + s1) * pool <= (a0 + a) * pot) by (nonlinear_arith)
            requires
                s0 * pool <= a0 * pot,
                s1 * pool <= a * pot,
        ;
    } else {
        assert(0 * pool <= 0 * pot) by (nonlinear_arith);
    }
}

/// Where the bets stake at most the pool, their shares add up to at most the pot.
pub proof fn lemma_shares_within_pot(bets: Seq<Bet>, pot: nat, pool: nat)
    requires
        pool > 0,
        sum_amounts(bets) <= pool,
    ensures
        sum_shares(bets, pot, pool) <= pot,
{
    let s = sum_shares(bets, pot, pool);
    lemma_shares_scaled(bets, pot, pool);
    vstd::arithmetic::mul::lemma_mul_inequality(sum_amounts(bets) as int, pool as int, pot as int);
    vstd::arithmetic::mul::lemma_mul_is_commutative(pool as int, pot as int);
    assert(s * pool <= pot * pool);
    if s > pot {
        vstd::arithmetic::mul::lemma_mul_strict_inequality(pot as int, s as int, pool as int);
    }
}

/// A single stake of at most the pool gets at most the pot.
pub proof fn lemma_share_within_pot(amount: nat, pot: nat, pool: nat)
    requires
        pool > 0,
        amount <= pool,
    ensures
        share(amount, pot, pool) <= pot,
{
    let s = share(amount, pot, pool);
    lemma_share_scaled(amount, pot, pool);
    vstd::arithmetic::mul::lemma_mul_inequality(amount as int, pool as int, pot as int);
    vstd::arithmetic::mul::lemma_mul_is_commutative(pool as int, pot as int);
    if s > pot {
        vstd::arithmetic::mul::lemma_mul_strict_inequality(pot as int, s as int, pool as int);
    }
}

/// Sum of the first `n` payouts of `w` where the bet at `lucky` gets `extra`
/// on top of its share.
proof fn lemma_total_paid_prefix(w: Seq<Bet>, n: int, pot: nat, pool: nat, lucky: int, extra: nat)
    requires
        0 <= n <= w.len(),
    ensures
        total_paid(
            Seq::new(
                n as nat,
                |k: int|
                    (
                        w[k].bettor,
                        share(w[k].amount as nat, pot, pool) + if k == lucky {
                            extra
                        } else {
                            0
                        },
                    ),
            ),
        ) == sum_shares(w.take(n), pot, pool) + if 0 <= lucky < n {
            extra
        } else {
            0
        },
    decreases n,
{
    let f = |k: int|
        (
            w[k].bettor,
            share(w[k].amount as nat, pot, pool) + if k == lucky {
                extra
            } else {
                0
            },
        );
    if n > 0 {
        lemma_total_paid_prefix(w, n - 1, pot, pool, lucky, extra);
        assert(Seq::new(n as nat, f).drop_last() =~= Seq::new((n - 1) as nat, f));
        assert(w.take(n).drop_last() =~= w.take(n - 1));
    } else {
        assert(w.take(0) =~= Seq::<Bet>::empty());
    }
}

/// The payouts of a resolution add up to the pot exactly, whenever someone
/// staked on the winning outcome.
pub proof fn lemma_payouts_sum_to_pot(bets: Seq<Bet>, outcome: Seq<char>, pot: nat)
    requires
        stake_on_spec(bets, outcome) > 0,
    ensures
        total_paid(payout_list(bets, outcome, pot)) == pot,
{
    let w = winning_bets(bets, outcome);
    let pool = sum_amounts(w);
    let lucky = largest_index(w);
    let extra = (pot - sum_shares(w, pot, pool)) as nat;
    lemma_shares_within_pot(w, pot, pool);
    lemma_largest_index_in_range(w);
    lemma_total_paid_prefix(w, w.len() as int, pot, pool, lucky, extra);
    assert(w.take(w.len() as int) =~= w);
    assert(payout_list(bets, outcome, pot) =~= Seq::new(
        w.len(),
        |k: int|
            (
                w[k].bettor,
                share(w[k].amount as nat, pot, pool) + if k == lucky {
                    extra
                } else {
                    0
                },
            ),
    ));
}

/// The largest bet of a non-empty sequence is one of its bets.
proof fn lemma_largest_index_in_range(w: Seq<Bet>)
    ensures
        w.len() > 0 ==> 0 <= largest_index(w) < w.len(),
    decreases w.len(),
{
    if w.len() > 1 {
        lemma_largest_index_in_range(w.drop_last());
    }
}

/// Adding a bet at the end keeps the first largest bet unless the new one is
/// strictly larger.
proof fn lemma_largest_index_push(w: Seq<Bet>, b: Bet)
    requires
        w.len() > 0,
    ensures
        largest_index(w.push(b)) == if b.amount > w[largest_index(w)].amount {
            w.len() as int
        } else {
            largest_index(w)
        },
{
    lemma_largest_index_in_range(w);
    assert(w.push(b).drop_last() =~= w);
}

/// One bet's share is part of the sum of the shares.
proof fn lemma_share_le_sum(w: Seq<Bet>, k: int, pot: nat, pool: nat)
    requires
        0 <= k < w.len(),
    ensures
        share(w[k].amount as nat, pot, pool) <= sum_shares(w, pot, pool),
    decreases w.len(),
{
    if k < w.len() - 1 {
        lemma_share_le_sum(w.drop_last(), k, pot, pool);
    }
}

/// Adding a bet at the end adds its share.
proof fn lemma_sum_shares_push(w: Seq<Bet>, b: Bet, pot: nat, pool: nat)
    ensures
        sum_shares(w.push(b), pot, pool) == sum_shares(w, pot, pool) + share(b.amount as nat, pot, pool),
{
    assert(w.push(b).drop_last() =~= w);
}

/// The payouts owed when `outcome` wins the book `bets` holding `pot`.
pub fn compute_payouts(bets: &Vec<Bet>, outcome: &String, pot: u64, pool: u64) -> (r: Vec<
    TransferIntent,
>)
    requires
        pool > 0,
        pool == stake_on_spec(bets@, outcome@),
    ensures
        transfers_view(r@) == payout_list(bets@, outcome@, pot as nat),
{
    let ghost pot_n = pot as nat;
    let ghost pool_n = pool as nat;
    let mut out: Vec<TransferIntent> = Vec::new();
    let mut paid: u64 = 0;
    let mut lucky: usize = 0;
    let mut best: u64 = 0;
    let mut i: usize = 0;
    while i < bets.len()
        invariant
            0 <= i <= bets@.len(),
            pool > 0,
            pool == stake_on_spec(bets@, outcome@),
            pot_n == pot,
            pool_n == pool,
            ({
                let w = winning_bets(bets@.subrange(0, i as int), outcome@);
                &&& out@.len() == w.len()
                &&& forall|k: int|
                    0 <= k < w.len() ==> (#[trigger] out@[k]).recipient == w[k].bettor
                        && out@[k].amount == share(w[k].amount as nat, pot_n, pool_n)
                &&& paid == sum_shares(w, pot_n, pool_n)
                &&& paid <= pot
                &&& w.len() > 0 ==> lucky == largest_index(w) && best == w[lucky as int].amount
            }),
        decreases bets@.len() - i,
    {
        let ghost w0 = winning_bets(bets@.subrange(0, i as int), outcome@);
        proof {
            lemma_winning_step(bets@, outcome@, i as int);
            lemma_winning_prefix_bounded(bets@, outcome@, i as int + 1);
        }
        if bets[i].prediction == *outcome {
            let amount = bets[i].amount;
            let ghost w1 = w0.push(bets@[i as int]);
            proof {
                lemma_sum_push(w0, bets@[i as int]);
                lemma_share_within_pot(amount as nat, pot_n, pool_n);
                lemma_sum_shares_push(w0, bets@[i as int], pot_n, pool_n);
                lemma_shares_within_pot(w1, pot_n, pool_n);
                lemma_largest_index_in_range(w0);
                if w0.len() > 0 {
                    lemma_largest_index_push(w0, bets@[i as int]);
                }
                assert((amount as u128) * (pot as u128) <= u64::MAX as u128 * u64::MAX as u128)
                    by (nonlinear_arith)
                    requires
                        amount <= u64::MAX,
                        pot <= u64::MAX,
                ;
            }
            let s = ((amount as u128) * (pot as u128) / (pool as u128)) as u64;
            if out.len() == 0 || amount > best {
                lucky = out.len();
                best = amount;
            }
            out.push(TransferIntent { recipient: bets[i].bettor, amount: s });
            paid = paid + s;
        }
        i = i + 1;
    }
    let ghost w = winning_bets(bets@, outcome@);
    assert(bets@.subrange(0, bets@.len() as int) =~= bets@);
    proof {
        lemma_largest_index_in_range(w);
        lemma_shares_within_pot(w, pot_n, pool_n);
    }
    let rest = pot - paid;
    if out.len() > 0 {
        proof {
            lemma_share_le_sum(w, lucky as int, pot_n, pool_n);
        }
        let old_t = out[lucky];
        out.set(lucky, TransferIntent { recipient: old_t.recipient, amount: old_t.amount + rest });
    }
    assert(transfers_view(out@) =~= payout_list(bets@, outcome@, pot as nat));
    out
}

/// The first check that refuses to resolve `m` with `outcome` on behalf of
/// `caller`, if any.
pub open spec fn resolve_error(m: Market, outcome: Seq<char>, caller: Pubkey) -> Option<MarketError> {
    if m.resolved {
        Some(MarketError::AlreadyResolved)
    } else if caller != m.creator {
        Some(MarketError::Unauthorized)
    } else if !has_label(m.outcomes@, outcome) {
        Some(MarketError::InvalidOutcome)
    } else if stake_on_spec(m.bets@, outcome) == 0 {
        Some(MarketError::ZeroWinningPool)
    } else {
        None
    }
}

/// `new` is `old` resolved in favour of `outcome`, with the whole pot handed
/// out; the book and the stake total are kept.
pub open spec fn resolved_as(old: Market, new: Market, outcome: String) -> bool {
    &&& new.resolved
    &&& new.winning_outcome == Some(outcome)
    &&& new.distributed_amount == old.total_staked
    &&& new.bets == old.bets
    &&& new.total_staked == old.total_staked
    &&& new.id == old.id
    &&& new.description == old.description
    &&& new.outcomes == old.outcomes
    &&& new.creator == old.creator
}

impl Market {
    /// Resolves the market in favour of `winning_outcome` and returns the
    /// payouts to the winning bets. Every check comes before any change, so a
    /// refused call leaves the market as it was.
    pub fn resolve(&mut self, winning_outcome: String, caller: Pubkey) -> (r: Result<
        Vec<TransferIntent>,
        MarketError,
    >)
        requires
            old(self).wf(),
        ensures
            final(self).wf(),
            match resolve_error(*old(self), winning_outcome@, caller) {
                Some(e) => r == Err::<Vec<TransferIntent>, MarketError>(e) && *final(self) == *old(
                    self,
                ),
                None => match r {
                    Ok(p) => {
                        &&& resolved_as(*old(self), *final(self), winning_outcome)
                        &&& transfers_view(p@) == payout_list(
                            old(self).bets@,
                            winning_outcome@,
                            old(self).total_staked as nat,
                        )
                        &&& total_paid(transfers_view(p@)) == old(self).total_staked
                    },
                    Err(_) => false,
                },
            },
    {
        if self.resolved {
            return Err(MarketError::AlreadyResolved);
        }
        if !self.is_creator(&caller) {
            return Err(MarketError::Unauthorized);
        }
        if !self.has_outcome(&winning_outcome) {
            return Err(MarketError::InvalidOutcome);
        }
        let pool = self.stake_on(&winning_outcome);
        if pool == 0 {
            return Err(MarketError::ZeroWinningPool);
        }
        let payouts = compute_payouts(&self.bets, &winning_outcome, self.total_staked, pool);
        proof {
            lemma_payouts_sum_to_pot(self.bets@, winning_outcome@, self.total_staked as nat);
        }
        self.winning_outcome = Some(winning_outcome);
        self.resolved = true;
        self.distributed_amount = self.total_staked;
        Ok(payouts)
    }
}

} // verus!
