//! Reward pools: what the actively staked funds have earned, and how it is shared out.

use crate::fixed::{clip, ratio_of, saturating_mul, scaled};
use crate::primary::Pool;
use crate::types::{AccountId, Balance, Delegator, Shares};
use vstd::prelude::*;

verus! {

/// The rewards that a pool has earned and not yet paid out.
#[derive(Clone, Copy, PartialEq, Eq, Debug)]
pub struct RewardPool {
    /// The balance of this reward pool after the last claimed payout.
    pub balance: Balance,
    /// The shares of this reward pool after the last claimed payout.
    pub shares: Balance,
    /// The total earnings ever of this reward pool after the last claimed payout, that is the sum
    /// of all incoming balance through the pool's life.
    pub total_earnings: Balance,
    /// The reward destination for the pool.
    pub account_id: AccountId,
}

impl RewardPool {
    /// This pool, brought up to date with `current_balance` on its account: all that the balance
    /// has grown since is counted as earnings.
    pub open spec fn updated(self, current_balance: Balance) -> RewardPool {
        RewardPool {
            total_earnings: current_balance.saturating_sub(self.balance).saturating_add(
                self.total_earnings,
            ),
            balance: current_balance,
            ..self
        }
    }

    /// What the pool has earned since it was last brought up to date.
    pub open spec fn new_earnings(self, current_balance: Balance) -> Balance {
        self.updated(current_balance).total_earnings.saturating_sub(self.total_earnings)
    }

    /// The shares of the pool once its new earnings are counted: each unit of balance earned
    /// inflates them by all shares of the primary pool.
    pub open spec fn inflated_shares(self, primary_shares: Shares, current_balance: Balance) -> Shares {
        self.shares.saturating_add(clip(primary_shares * self.new_earnings(current_balance)))
    }

    /// The shares of the pool that belong to `delegator`: as many as they have in the primary pool
    /// for each unit of balance earned since their last claim.
    pub open spec fn virtual_shares(self, delegator: Delegator, current_balance: Balance) -> Shares {
        clip(
            delegator.shares * self.updated(current_balance).total_earnings.saturating_sub(
                delegator.reward_pool_total_earnings,
            ),
        )
    }

    /// What `delegator` is paid: of the balance, the part that their shares are of all shares. Where
    /// there are no shares there is nothing to pay.
    pub open spec fn payout(
        self,
        primary_shares: Shares,
        delegator: Delegator,
        current_balance: Balance,
    ) -> Balance {
        if self.inflated_shares(primary_shares, current_balance) == 0 {
            0
        } else {
            scaled(
                ratio_of(
                    self.virtual_shares(delegator, current_balance),
                    self.inflated_shares(primary_shares, current_balance),
                ),
                current_balance,
            )
        }
    }

    /// What `delegator`'s claim comes to: the reward pool and the delegator after the payout, and
    /// what is paid.
    pub open spec fn claim(
        self,
        primary_shares: Shares,
        delegator: Delegator,
        current_balance: Balance,
    ) -> (RewardPool, Delegator, Balance) {
        let updated = self.updated(current_balance);
        let payout = self.payout(primary_shares, delegator, current_balance);
        (
            RewardPool {
                balance: current_balance.saturating_sub(payout),
                shares: self.inflated_shares(
                    primary_shares,
                    current_balance,
                ).saturating_sub(self.virtual_shares(delegator, current_balance)),
                ..updated
            },
            Delegator { reward_pool_total_earnings: updated.total_earnings, ..delegator },
            payout,
        )
    }

    /// Bring this pool up to date with the balance that is now on its account.
    pub fn update_total_earnings_and_balance(self, current_balance: Balance) -> (r: RewardPool)
        ensures
            r == self.updated(current_balance),
    {
        // The earnings since the last time it was updated
        let new_earnings: Balance = current_balance.saturating_sub(self.balance);
        RewardPool {
            // The lifetime earnings of the reward pool
            total_earnings: new_earnings.saturating_add(self.total_earnings),
            balance: current_balance,
            ..self
        }
    }

    /// The shares of this pool once its new earnings are counted.
    pub fn current_shares(&self, primary_pool: &Pool, current_balance: Balance) -> (r: Shares)
        ensures
            r == self.inflated_shares(primary_pool.shares, current_balance),
    {
        let updated = self.update_total_earnings_and_balance(current_balance);
        let new_earnings: Balance = updated.total_earnings.saturating_sub(self.total_earnings);
        let new_shares: Shares = saturating_mul(primary_pool.shares, new_earnings);
        self.shares.saturating_add(new_shares)
    }
}

} // verus!
