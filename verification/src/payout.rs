//! Claiming rewards.

use crate::fixed::{saturating_mul, Ratio};
use crate::primary::Pool;
use crate::reward::RewardPool;
use crate::storage::{Pallet, Storage};
use crate::types::{
    AccountId, Balance, Delegator, Error, Event, ExistenceRequirement, Shares, Transfer,
};
use vstd::prelude::*;

verus! {

/// A payout that was worked out, before it was transferred.
#[derive(Clone, Copy, PartialEq, Eq, Debug)]
pub struct Payout {
    /// The account that is paid.
    pub delegator_id: AccountId,
    /// The delegator after the payout.
    pub delegator: Delegator,
    /// The reward pool after the payout.
    pub reward_pool: RewardPool,
    /// What is paid.
    pub amount: Balance,
}

impl Payout {
    /// The payout, from the reward pool's account to the delegator's.
    pub open spec fn spec_transfer(self) -> Transfer {
        Transfer {
            source: self.reward_pool.account_id,
            dest: self.delegator_id,
            value: self.amount,
            requirement: ExistenceRequirement::AllowDeath,
        }
    }

    /// The event that tells of the payout.
    pub open spec fn event(self) -> Event {
        Event::PaidOut {
            delegator: self.delegator_id,
            pool: self.delegator.pool,
            payout: self.amount,
        }
    }

    /// The transfer that has to be made.
    pub fn transfer(&self) -> (transfer: Transfer)
        ensures
            transfer == self.spec_transfer(),
    {
        Transfer {
            source: self.reward_pool.account_id,
            dest: self.delegator_id,
            value: self.amount,
            requirement: ExistenceRequirement::AllowDeath,
        }
    }
}

impl Storage {
    /// Whether, and with what, `delegator` is paid their rewards.
    pub open spec fn reward_payout(
        self,
        delegator_id: AccountId,
        delegator: Delegator,
        primary_pool: Pool,
        reward_free_balance: Balance,
    ) -> Result<Payout, Error> {
        if !self.reward_pools.contains_key(delegator.pool) {
            Err(Error::RewardPoolNotFound)
        } else if delegator.unbonding_era is Some {
            Err(Error::AlreadyUnbonding)
        } else {
            let (reward_pool, delegator, amount) = self.reward_pools[delegator.pool].claim(
                primary_pool.shares,
                delegator,
                reward_free_balance,
            );
            Ok(Payout { delegator_id, delegator, reward_pool, amount })
        }
    }

    /// Whether, and with what, `who` is paid their rewards.
    pub open spec fn claim_payout(self, who: AccountId, reward_free_balance: Balance) -> Result<
        Payout,
        Error,
    > {
        if !self.delegators.contains_key(who) {
            Err(Error::DelegatorNotFound)
        } else if !self.primary_pools.contains_key(self.delegators[who].pool) {
            Err(Error::PoolNotFound)
        } else {
            self.reward_payout(
                who,
                self.delegators[who],
                self.primary_pools[self.delegators[who].pool],
                reward_free_balance,
            )
        }
    }

    /// What is stored once a payout was transferred.
    pub open spec fn paid_out(self, payout: Payout) -> Storage {
        Storage {
            reward_pools: self.reward_pools.insert(payout.delegator.pool, payout.reward_pool),
            delegators: self.delegators.insert(payout.delegator_id, payout.delegator),
            events: self.events.push(payout.event()),
            ..self
        }
    }
}

impl Pallet {
    /// A bonded delegator can use this to claim their payout based on the rewards that the pool
    /// has accumulated since their last claimed payout (or since joining if this is their first
    /// time claiming rewards).
    ///
    /// Note that the payout will go to the delegator's account. `reward_free_balance` is the free
    /// balance of the reward pool's account; it does not count where there is no such pool. The
    /// request goes on with `finish_payout` once its transfer was made.
    pub fn claim_payout(&self, who: AccountId, reward_free_balance: Balance) -> (r: Result<
        Payout,
        Error,
    >)
        ensures
            r == self@.claim_payout(who, reward_free_balance),
    {
        let delegator = match self.delegators.get(&who) {
            Some(delegator) => *delegator,
            None => return Err(Error::DelegatorNotFound),
        };
        let primary_pool = match self.primary_pools.get(&delegator.pool) {
            Some(pool) => *pool,
            None => return Err(Error::PoolNotFound),
        };
        self.do_reward_payout(who, delegator, &primary_pool, reward_free_balance)
    }

    /// Calculate the rewards for `delegator`, with `current_balance` on the reward pool's account.
    ///
    /// If the delegator is unbonding they cannot claim rewards. Note that when the delegator goes
    /// to unbond, they claim rewards for the final time.
    pub fn calculate_delegator_payout(
        primary_pool: &Pool,
        reward_pool: RewardPool,
        delegator: Delegator,
        current_balance: Balance,
    ) -> (r: Result<(RewardPool, Delegator, Balance), Error>)
        ensures
            r == (if delegator.unbonding_era is Some {
                Err(Error::AlreadyUnbonding)
            } else {
                Ok(reward_pool.claim(primary_pool.shares, delegator, current_balance))
            }),
    {
        if delegator.unbonding_era.is_some() {
            return Err(Error::AlreadyUnbonding);
        }
        // The shares of the reward pool after taking into account the new earnings
        let current_shares: Shares = reward_pool.current_shares(primary_pool, current_balance);
        let updated = reward_pool.update_total_earnings_and_balance(current_balance);
        // The reward pool's earnings since the last time this delegator claimed a payout
        let new_earnings_since_last_claim: Balance = updated.total_earnings.saturating_sub(
            delegator.reward_pool_total_earnings,
        );
        // The shares of the reward pool that belong to the delegator.
        let delegator_virtual_shares: Shares = saturating_mul(
            delegator.shares,
            new_earnings_since_last_claim,
        );
        let payout: Balance = if current_shares == 0 {
            // Nothing was earned that is not yet paid out
            0
        } else {
            Ratio::from_rational(delegator_virtual_shares, current_shares).mul_int(updated.balance)
        };
        // Record updates
        Ok(
            (
                RewardPool {
                    balance: updated.balance.saturating_sub(payout),
                    shares: current_shares.saturating_sub(delegator_virtual_shares),
                    ..updated
                },
                Delegator { reward_pool_total_earnings: updated.total_earnings, ..delegator },
                payout,
            ),
        )
    }

    /// Work out the payout for `delegator`, with `reward_free_balance` on the reward pool's account.
    pub fn do_reward_payout(
        &self,
        delegator_id: AccountId,
        delegator: Delegator,
        primary_pool: &Pool,
        reward_free_balance: Balance,
    ) -> (r: Result<Payout, Error>)
        ensures
            r == self@.reward_payout(delegator_id, delegator, *primary_pool, reward_free_balance),
    {
        let reward_pool = match self.reward_pools.get(&delegator.pool) {
            Some(pool) => *pool,
            None => return Err(Error::RewardPoolNotFound),
        };
        match Self::calculate_delegator_payout(
            primary_pool,
            reward_pool,
            delegator,
            reward_free_balance,
        ) {
            Ok((reward_pool, delegator, amount)) => Ok(
                Payout { delegator_id, delegator, reward_pool, amount },
            ),
            Err(error) => Err(error),
        }
    }

    /// Deposit the event of a payout, after its transfer was made.
    pub fn transfer_reward(&mut self, payout: &Payout)
        ensures
            final(self)@ == (Storage {
                events: old(self)@.events.push(payout.event()),
                ..old(self)@
            }),
    {
        self.deposit_event(
            Event::PaidOut {
                delegator: payout.delegator_id,
                pool: payout.delegator.pool,
                payout: payout.amount,
            },
        );
    }

    /// Store the updated delegator and reward pool, after the transfer of a payout was made.
    pub fn finish_payout(&mut self, payout: Payout)
        ensures
            final(self)@ == old(self)@.paid_out(payout),
    {
        self.transfer_reward(&payout);
        self.reward_pools.insert(payout.delegator.pool, payout.reward_pool);
        self.delegators.insert(payout.delegator_id, payout.delegator);
        assert(self@ =~= old(self)@.paid_out(payout));
    }
}

} // verus!
