//! Release of what is left of a resolved market's pot to its creator.

use vstd::prelude::*;

use solana_program::pubkey::Pubkey;

use crate::market::{Market, MarketError, TransferIntent};

verus! {

/// The first check that refuses a withdrawal from `m` by `admin`, if any.
pub open spec fn withdraw_error(m: Market, admin: Pubkey) -> Option<MarketError> {
    if !m.resolved {
        Some(MarketError::NotYetResolved)
    } else if admin != m.creator {
        Some(MarketError::Unauthorized)
    } else {
        None
    }
}

/// The part of the pot that nothing has handed out yet.
pub open spec fn residual(m: Market) -> nat {
    (m.total_staked - m.distributed_amount) as nat
}

/// `new` is `old` with its residual marked as handed out; nothing else differs.
pub open spec fn residual_released(old: Market, new: Market) -> bool {
    &&& new.distributed_amount == old.total_staked
    &&& new.total_staked == old.total_staked
    &&& new.bets == old.bets
    &&& new.resolved == old.resolved
    &&& new.winning_outcome == old.winning_outcome
    &&& new.id == old.id
    &&& new.description == old.description
    &&& new.outcomes == old.outcomes
    &&& new.creator == old.creator
}

impl Market {
    /// Hands the residual of a resolved market to its creator. The stake total
    /// and the book stay as they are; a second call releases nothing.
    pub fn withdraw_residual(&mut self, admin: Pubkey) -> (r: Result<TransferIntent, MarketError>)
        requires
            old(self).wf(),
        ensures
            final(self).wf(),
            match withdraw_error(*old(self), admin) {
                Some(e) => r == Err::<TransferIntent, MarketError>(e) && *final(self) == *old(self),
                None => {
                    &&& r == Ok::<TransferIntent, MarketError>(
                        TransferIntent { recipient: old(self).creator, amount: residual(*old(self)) as u64 },
                    )
                    &&& residual_released(*old(self), *final(self))
                    &&& residual(*final(self)) == 0
                },
            },
    {
        if !self.resolved {
            return Err(MarketError::NotYetResolved);
        }
        if !self.is_creator(&admin) {
            return Err(MarketError::Unauthorized);
        }
        let amount = self.total_staked - self.distributed_amount;
        self.distributed_amount = self.total_staked;
        Ok(TransferIntent { recipient: self.creator, amount })
    }
}

} // verus!
