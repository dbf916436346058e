//! The store of all markets: it hands out sequential ids and routes each
//! operation to the market it names.

use vstd::prelude::*;

use solana_program::pubkey::Pubkey;

use crate::market::{
    bet_appended, bet_error, check_outcomes, has_label, stake_on_spec, sum_amounts,
    valid_outcomes, Bet, Market, MarketError, TransferIntent,
};
use crate::settlement::{payout_list, resolve_error, resolved_as, total_paid, transfers_view};
use crate::withdrawal::{residual, residual_released, withdraw_error};

verus! {

/// Owns every market, indexed by id.
pub struct PredictionMarketContract {
    markets: Vec<Market>,
    market_count: u64,
    events: Vec<MarketEvent>,
}

/// A record of one successful operation, for observers of the store.
#[derive(Debug, PartialEq, Eq)]
pub enum MarketEvent {
    /// A market was created under `market_id`.
    MarketCreated { market_id: u64, creator: Pubkey },
    /// A bet was accepted.
    BetPlaced { market_id: u64, bettor: Pubkey, prediction: String, amount: u64 },
    /// A market was resolved and its payouts handed back.
    MarketResolved { market_id: u64, winning_outcome: String },
    /// A market's residual was handed back to its creator.
    FundsWithdrawn { market_id: u64, recipient: Pubkey, amount: u64 },
}

/// `m` is a freshly created market: no bets, open, nothing staked.
pub open spec fn fresh_market(
    m: Market,
    id: u64,
    description: String,
    outcomes: Vec<String>,
    creator: Pubkey,
) -> bool {
    &&& m.id == id
    &&& m.description == description
    &&& m.outcomes == outcomes
    &&& m.bets@ == Seq::<Bet>::empty()
    &&& !m.resolved
    &&& m.winning_outcome == None::<String>
    &&& m.total_staked == 0
    &&& m.distributed_amount == 0
    &&& m.creator == creator
}

/// `new` differs from `old` at most in the market at `id`.
pub open spec fn others_kept(old: Seq<Market>, new: Seq<Market>, id: int) -> bool {
    &&& new.len() == old.len()
    &&& forall|j: int| 0 <= j < old.len() && j != id ==> #[trigger] new[j] == old[j]
}

impl View for PredictionMarketContract {
    type V = Seq<Market>;

    closed spec fn view(&self) -> Seq<Market> {
        self.markets@
    }
}

impl Default for PredictionMarketContract {
    fn default() -> (r: Self)
        ensures
            r.wf(),
            r@ == Seq::<Market>::empty(),
            r.log() == Seq::<MarketEvent>::empty(),
    {
        PredictionMarketContract { markets: Vec::new(), market_count: 0, events: Vec::new() }
    }
}

impl PredictionMarketContract {
    /// The id counter is in step with the markets held.
    pub closed spec fn count_in_step(&self) -> bool {
        self.market_count == self.markets@.len()
    }

    /// The events recorded so far, oldest first.
    pub closed spec fn log(&self) -> Seq<MarketEvent> {
        self.events@
    }

    /// The events recorded so far, oldest first.
    pub fn events(&self) -> (r: &Vec<MarketEvent>)
        ensures
            r@ == self.log(),
    {
        &self.events
    }

    /// The store's invariant: market `i` has id `i` and is well formed.
    pub open spec fn wf(&self) -> bool {
        &&& self.count_in_step()
        &&& forall|i: int| 0 <= i < self@.len() ==> (#[trigger] self@[i]).id == i && self@[i].wf()
    }

    /// Creates a market with the given outcomes and returns its id, the next
    /// one in sequence.
    pub fn create_market(&mut self, description: String, outcomes: Vec<String>, creator: Pubkey) -> (r:
        Result<u64, MarketError>)
        requires
            old(self).wf(),
        ensures
            final(self).wf(),
            !valid_outcomes(outcomes@) ==> r == Err::<u64, MarketError>(
                MarketError::InvalidOutcomeSet,
            ) && final(self)@ == old(self)@,
            r is Err ==> final(self).log() == old(self).log(),
            valid_outcomes(outcomes@) && old(self)@.len() >= u64::MAX ==> r == Err::<
                u64,
                MarketError,
            >(MarketError::Overflow) && final(self)@ == old(self)@,
            valid_outcomes(outcomes@) && old(self)@.len() < u64::MAX ==> {
                &&& r == Ok::<u64, MarketError>(old(self)@.len() as u64)
                &&& final(self)@.len() == old(self)@.len() + 1
                &&& final(self)@.drop_last() == old(self)@
                &&& final(self).log() == old(self).log().push(
                    MarketEvent::MarketCreated { market_id: old(self)@.len() as u64, creator },
                )
                &&& fresh_market(
                    final(self)@.last(),
                    old(self)@.len() as u64,
                    description,
                    outcomes,
                    creator,
                )
            },
    {
        if !check_outcomes(&outcomes) {
            return Err(MarketError::InvalidOutcomeSet);
        }
        if self.market_count == u64::MAX {
            return Err(MarketError::Overflow);
        }
        let id = self.market_count;
        let market = Market {
            id,
            description,
            outcomes,
            bets: Vec::new(),
            resolved: false,
            winning_outcome: None,
            total_staked: 0,
            distributed_amount: 0,
            creator,
        };
        let ghost before = self.markets@;
        self.markets.push(market);
        self.market_count = self.market_count + 1;
        self.events.push(MarketEvent::MarketCreated { market_id: id, creator });
        proof {
            assert(self.markets@.drop_last() =~= before);
            assert(self.markets@.last().bets@ =~= Seq::<Bet>::empty());
        }
        Ok(id)
    }

    /// The market with id `market_id`.
    pub fn get_market(&self, market_id: u64) -> (r: Result<&Market, MarketError>)
        ensures
            match r {
                Ok(m) => market_id < self@.len() && *m == self@[market_id as int],
                Err(e) => market_id >= self@.len() && e == MarketError::NotFound,
            },
    {
        if market_id >= self.markets.len() as u64 {
            return Err(MarketError::NotFound);
        }
        Ok(&self.markets[market_id as usize])
    }

    /// Places a bet on market `market_id`.
    pub fn place_bet(&mut self, market_id: u64, prediction: String, bettor: Pubkey, amount: u64) -> (r:
        Result<(), MarketError>)
        requires
            old(self).wf(),
        ensures
            final(self).wf(),
            market_id >= old(self)@.len() ==> r == Err::<(), MarketError>(MarketError::NotFound)
                && final(self)@ == old(self)@,
            market_id < old(self)@.len() && old(self)@[market_id as int].resolved ==> r == Err::<
                (),
                MarketError,
            >(MarketError::AlreadyResolved) && final(self)@ == old(self)@,
            market_id < old(self)@.len() ==> match bet_error(
                old(self)@[market_id as int],
                prediction@,
                amount,
            ) {
                Some(e) => r == Err::<(), MarketError>(e) && final(self)@ == old(self)@,
                None => {
                    &&& r is Ok
                    &&& final(self).log() == old(self).log().push(
                        MarketEvent::BetPlaced { market_id, bettor, prediction, amount },
                    )
                    &&& others_kept(old(self)@, final(self)@, market_id as int)
                    &&& bet_appended(
                        old(self)@[market_id as int],
                        final(self)@[market_id as int],
                        Bet { bettor, amount, prediction },
                    )
                },
            },
    {
        if market_id >= self.markets.len() as u64 {
            return Err(MarketError::NotFound);
        }
        let i = market_id as usize;
        let ghost before = self.markets@;
        let label = prediction.clone();
        let r = self.markets[i].place_bet(prediction, bettor, amount);
        proof {
            if r is Err {
                assert(self.markets@ =~= before);
            }
        }
        if r.is_ok() {
            self.events.push(
                MarketEvent::BetPlaced { market_id, bettor, prediction: label, amount },
            );
        }
        r
    }

    /// Resolves market `market_id` in favour of `winning_outcome` and returns
    /// the payouts to the winning bets.
    pub fn settle_market(&mut self, market_id: u64, winning_outcome: String, caller: Pubkey) -> (r:
        Result<Vec<TransferIntent>, MarketError>)
        requires
            old(self).wf(),
        ensures
            final(self).wf(),
            market_id >= old(self)@.len() ==> r == Err::<Vec<TransferIntent>, MarketError>(
                MarketError::NotFound,
            ) && final(self)@ == old(self)@,
            r is Err ==> final(self).log() == old(self).log(),
            market_id < old(self)@.len() && old(self)@[market_id as int].resolved ==> r == Err::<
                Vec<TransferIntent>,
                MarketError,
            >(MarketError::AlreadyResolved) && final(self)@ == old(self)@,
            market_id < old(self)@.len() && stake_on_spec(
                old(self)@[market_id as int].bets@,
                winning_outcome@,
            ) == 0 ==> r is Err && final(self)@ == old(self)@,
            market_id < old(self)@.len() && !old(self)@[market_id as int].resolved && caller == old(
                self,
            )@[market_id as int].creator && has_label(
                old(self)@[market_id as int].outcomes@,
                winning_outcome@,
            ) && stake_on_spec(old(self)@[market_id as int].bets@, winning_outcome@) == 0 ==> r
                == Err::<Vec<TransferIntent>, MarketError>(MarketError::ZeroWinningPool)
                && !final(self)@[market_id as int].resolved,
            market_id < old(self)@.len() ==> match resolve_error(
                old(self)@[market_id as int],
                winning_outcome@,
                caller,
            ) {
                Some(e) => r == Err::<Vec<TransferIntent>, MarketError>(e) && final(self)@ == old(
                    self,
                )@,
                None => match r {
                    Ok(p) => {
                        let m = old(self)@[market_id as int];
                        &&& final(self).log() == old(self).log().push(
                            MarketEvent::MarketResolved { market_id, winning_outcome },
                        )
                        &&& others_kept(old(self)@, final(self)@, market_id as int)
                        &&& resolved_as(m, final(self)@[market_id as int], winning_outcome)
                        &&& transfers_view(p@) == payout_list(
                            m.bets@,
                            winning_outcome@,
                            m.total_staked as nat,
                        )
                        &&& total_paid(transfers_view(p@)) == m.total_staked
                    },
                    Err(_) => false,
                },
            },
    {
        if market_id >= self.markets.len() as u64 {
            return Err(MarketError::NotFound);
        }
        let i = market_id as usize;
        let ghost before = self.markets@;
        let label = winning_outcome.clone();
        let r = self.markets[i].resolve(winning_outcome, caller);
        proof {
            if r is Err {
                assert(self.markets@ =~= before);
            }
        }
        if r.is_ok() {
            self.events.push(MarketEvent::MarketResolved { market_id, winning_outcome: label });
        }
        r
    }

    /// Hands the residual of resolved market `market_id` to its creator.
    pub fn withdraw_funds(&mut self, market_id: u64, admin: Pubkey) -> (r: Result<
        TransferIntent,
        MarketError,
    >)
        requires
            old(self).wf(),
        ensures
            final(self).wf(),
            market_id >= old(self)@.len() ==> r == Err::<TransferIntent, MarketError>(
                MarketError::NotFound,
            ) && final(self)@ == old(self)@,
            r is Err ==> final(self).log() == old(self).log(),
            market_id < old(self)@.len() ==> match withdraw_error(
                old(self)@[market_id as int],
                admin,
            ) {
                Some(e) => r == Err::<TransferIntent, MarketError>(e) && final(self)@ == old(
                    self,
                )@,
                None => {
                    let m = old(self)@[market_id as int];
                    &&& r == Ok::<TransferIntent, MarketError>(
                        TransferIntent { recipient: m.creator, amount: residual(m) as u64 },
                    )
                    &&& final(self).log() == old(self).log().push(
                        MarketEvent::FundsWithdrawn {
                            market_id,
                            recipient: m.creator,
                            amount: residual(m) as u64,
                        },
                    )
                    &&& others_kept(old(self)@, final(self)@, market_id as int)
                    &&& residual_released(m, final(self)@[market_id as int])
                },
            },
    {
        if market_id >= self.markets.len() as u64 {
            return Err(MarketError::NotFound);
        }
        let i = market_id as usize;
        let ghost before = self.markets@;
        let r = self.markets[i].withdraw_residual(admin);
        proof {
            if r is Err {
                assert(self.markets@ =~= before);
            }
        }
        if let Ok(t) = &r {
            self.events.push(
                MarketEvent::FundsWithdrawn { market_id, recipient: t.recipient, amount: t.amount },
            );
        }
        r
    }

    /// Total staked on market `market_id`, or 0 where there is no such market.
    pub fn get_total_staked(&self, market_id: u64) -> (r: u64)
        ensures
            r == if market_id < self@.len() {
                self@[market_id as int].total_staked
            } else {
                0
            },
    {
        if market_id >= self.markets.len() as u64 {
            return 0;
        }
        self.markets[market_id as usize].total_staked
    }
}

/// In every market of a well-formed store the stake total is the sum of the
/// amounts of its bets: no successful operation breaks this, since each one
/// keeps the store well formed.
pub proof fn lemma_stake_matches_book(c: &PredictionMarketContract, market_id: int)
    requires
        c.wf(),
        0 <= market_id < c@.len(),
    ensures
        c@[market_id].total_staked == sum_amounts(c@[market_id].bets@),
{
    assert(c@[market_id].wf());
}

} // verus!
