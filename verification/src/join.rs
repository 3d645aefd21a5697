//! Joining a pool.

use crate::primary::Pool;
use crate::shares::{issued_shares, shares_for};
use crate::staking::StakingInterface;
use crate::storage::{Pallet, Storage};
use crate::types::{
    AccountId, Balance, Delegator, Error, Event, ExistenceRequirement, PoolId, Shares, Transfer,
};
use sp_runtime::DispatchError;
use vstd::prelude::*;

verus! {

/// A request to join a pool that was found good, before the funds were transferred.
#[derive(Clone, Copy, PartialEq, Eq, Debug)]
pub struct Joining {
    /// The account that joins.
    pub who: AccountId,
    /// The pool that is joined.
    pub target: PoolId,
    /// The funds to be transferred to the pool's account.
    pub amount: Balance,
    /// The pool as it was found.
    pub primary_pool: Pool,
    /// The free balance of the pool's account before the transfer.
    pub old_free_balance: Balance,
    /// The most up-to-date total earnings of the reward pool.
    pub total_earnings: Balance,
}

impl Joining {
    /// The funds to be bonded, from `who` to the pool's account so that the pool can bond them.
    pub open spec fn spec_transfer(self) -> Transfer {
        Transfer {
            source: self.who,
            dest: self.primary_pool.account_id,
            value: self.amount,
            requirement: ExistenceRequirement::KeepAlive,
        }
    }

    /// The exact amount that can be bonded extra, by the free balance after the transfer.
    pub open spec fn exact_amount_to_bond(self, new_free_balance: Balance) -> Balance {
        new_free_balance.saturating_sub(self.old_free_balance)
    }

    /// The transfer that has to be made. It does not dust the delegator's account.
    pub fn transfer(&self) -> (transfer: Transfer)
        ensures
            transfer == self.spec_transfer(),
    {
        Transfer {
            source: self.who,
            dest: self.primary_pool.account_id,
            value: self.amount,
            requirement: ExistenceRequirement::KeepAlive,
        }
    }
}

impl Storage {
    /// The pool `target`, if `who` may join a pool and it exists.
    pub open spec fn pool_to_join(self, who: AccountId, target: PoolId) -> Result<Pool, Error> {
        if self.delegators.contains_key(who) {
            Err(Error::AccountBelongsToOtherPool)
        } else if !self.primary_pools.contains_key(target) {
            Err(Error::PoolNotFound)
        } else {
            Ok(self.primary_pools[target])
        }
    }

    /// Whether, and with what, `who` joins the pool `target` with `amount`.
    pub open spec fn join(
        self,
        who: AccountId,
        amount: Balance,
        target: PoolId,
        pool_free_balance: Balance,
        minimum_bond: Balance,
        reward_free_balance: Balance,
    ) -> Result<Joining, Error> {
        if let Err(error) = self.pool_to_join(who, target) {
            Err(error)
        } else if pool_free_balance.saturating_add(amount) < minimum_bond {
            Err(Error::InsufficientBond)
        } else if !self.reward_pools.contains_key(target) {
            Err(Error::RewardPoolNotFound)
        } else {
            Ok(
                Joining {
                    who,
                    target,
                    amount,
                    primary_pool: self.primary_pools[target],
                    old_free_balance: pool_free_balance,
                    total_earnings: self.reward_pools[target].updated(
                        reward_free_balance,
                    ).total_earnings,
                },
            )
        }
    }

    /// What is stored once the funds were transferred and bonded, and `new_shares` issued for them.
    pub open spec fn joined(
        self,
        joining: Joining,
        new_free_balance: Balance,
        new_shares: Shares,
    ) -> Storage {
        let bonded = joining.exact_amount_to_bond(new_free_balance);
        Storage {
            delegators: self.delegators.insert(
                joining.who,
                Delegator {
                    pool: joining.target,
                    shares: new_shares,
                    reward_pool_total_earnings: joining.total_earnings,
                    unbonding_era: None,
                },
            ),
            primary_pools: self.primary_pools.insert(
                joining.target,
                Pool {
                    shares: joining.primary_pool.shares.saturating_add(new_shares),
                    ..joining.primary_pool
                },
            ),
            events: self.events.push(
                Event::Joined { delegator: joining.who, pool: joining.target, bonded },
            ),
            ..self
        }
    }
}

impl Pallet {
    /// Join a pre-existing pool.
    ///
    /// Notes
    /// * an account can only be a member of a single pool.
    /// * this will *not* dust the delegator account, so the delegator must have at least
    ///   `existential deposit + amount` in their account.
    ///
    /// `pool_free_balance` is the free balance of the pool's account, and `reward_free_balance`
    /// that of its reward account; neither counts where there is no such pool. The staking system is
    /// asked for the minimum bond only where `who` may join a pool and `target` exists. The request
    /// goes on with `finish_join` once its transfer was made.
    pub fn join<S: StakingInterface<Balance = Balance, AccountId = AccountId>>(
        &self,
        who: AccountId,
        amount: Balance,
        target: PoolId,
        pool_free_balance: Balance,
        reward_free_balance: Balance,
    ) -> (r: Result<Joining, Error>)
        ensures
            match self@.pool_to_join(who, target) {
                Err(error) => r == Err::<Joining, Error>(error),
                Ok(_) => exists|minimum_bond: Balance| #[trigger]
                    call_ensures(S::minimum_bond, (), minimum_bond) && r == self@.join(
                        who,
                        amount,
                        target,
                        pool_free_balance,
                        minimum_bond,
                        reward_free_balance,
                    ),
            },
    {
        if let Err(error) = self.find_pool_to_join(who, target) {
            return Err(error);
        }
        let minimum_bond: Balance = S::minimum_bond();
        self.decide_join(
            who,
            amount,
            target,
            pool_free_balance,
            minimum_bond,
            reward_free_balance,
        )
    }

    /// Decide on a request to join, given the minimum bond.
    pub fn decide_join(
        &self,
        who: AccountId,
        amount: Balance,
        target: PoolId,
        pool_free_balance: Balance,
        minimum_bond: Balance,
        reward_free_balance: Balance,
    ) -> (r: Result<Joining, Error>)
        ensures
            r == self@.join(
                who,
                amount,
                target,
                pool_free_balance,
                minimum_bond,
                reward_free_balance,
            ),
    {
        let primary_pool = match self.find_pool_to_join(who, target) {
            Ok(pool) => pool,
            Err(error) => return Err(error),
        };
        // Ensure that `amount` will meet the minimum bond
        if pool_free_balance.saturating_add(amount) < minimum_bond {
            return Err(Error::InsufficientBond);
        }
        // The reward pool is not written, only its total earnings at this point in time matter
        let reward_pool = match self.reward_pools.get(&target) {
            Some(pool) => pool.update_total_earnings_and_balance(reward_free_balance),
            None => return Err(Error::RewardPoolNotFound),
        };
        Ok(
            Joining {
                who,
                target,
                amount,
                primary_pool,
                old_free_balance: pool_free_balance,
                total_earnings: reward_pool.total_earnings,
            },
        )
    }

    /// The pool `target`, if `who` may join a pool and it exists.
    fn find_pool_to_join(&self, who: AccountId, target: PoolId) -> (r: Result<Pool, Error>)
        ensures
            r == self@.pool_to_join(who, target),
    {
        // If a delegator already exists that means they already belong to a pool
        if self.delegators.contains_key(&who) {
            return Err(Error::AccountBelongsToOtherPool);
        }
        match self.primary_pools.get(&target) {
            Some(pool) => Ok(*pool),
            None => Err(Error::PoolNotFound),
        }
    }

    /// Go on with a request to join, after its transfer was made. `new_free_balance` is the free
    /// balance of the pool's account, which now includes the transferred funds. The new shares are
    /// priced at what is bonded before these funds are, see `bond_join`.
    pub fn finish_join<S: StakingInterface<Balance = Balance, AccountId = AccountId>>(
        &mut self,
        joining: Joining,
        new_free_balance: Balance,
    ) -> (r: Result<(), DispatchError>)
        ensures
            exists|bonded_balance: Balance| #[trigger]
                call_ensures(
                    S::bonded_balance,
                    (&joining.primary_pool.account_id,),
                    bonded_balance,
                ) && (r is Ok ==> final(self)@ == old(self)@.joined(
                    joining,
                    new_free_balance,
                    issued_shares(
                        bonded_balance,
                        joining.primary_pool.shares,
                        joining.exact_amount_to_bond(new_free_balance),
                    ),
                )),
            call_ensures(
                S::bond_extra,
                (
                    &joining.primary_pool.account_id,
                    joining.exact_amount_to_bond(new_free_balance),
                ),
                r,
            ),
            r is Err ==> final(self)@ == old(self)@,
    {
        let bonded_balance: Balance = S::bonded_balance(&joining.primary_pool.account_id);
        self.bond_join::<S>(joining, new_free_balance, bonded_balance)
    }

    /// Bond the funds that were transferred for a request to join, and issue shares for them at the
    /// price of the pool with `bonded_balance` bonded, which is what was bonded before.
    pub fn bond_join<S: StakingInterface<Balance = Balance, AccountId = AccountId>>(
        &mut self,
        joining: Joining,
        new_free_balance: Balance,
        bonded_balance: Balance,
    ) -> (r: Result<(), DispatchError>)
        ensures
            r is Ok ==> final(self)@ == old(self)@.joined(
                joining,
                new_free_balance,
                issued_shares(
                    bonded_balance,
                    joining.primary_pool.shares,
                    joining.exact_amount_to_bond(new_free_balance),
                ),
            ),
            call_ensures(
                S::bond_extra,
                (
                    &joining.primary_pool.account_id,
                    joining.exact_amount_to_bond(new_free_balance),
                ),
                r,
            ),
            r is Err ==> final(self)@ == old(self)@,
    {
        let pool = joining.primary_pool;
        // Get the exact amount we can bond extra.
        let exact_amount_to_bond: Balance = new_free_balance.saturating_sub(
            joining.old_free_balance,
        );
        // Issue the new shares.
        let new_shares: Shares = shares_for(bonded_balance, pool.shares, exact_amount_to_bond);
        let r = S::bond_extra(&pool.account_id, exact_amount_to_bond);
        match r {
            Ok(()) => {
                self.record_join(joining, new_free_balance, new_shares);
                r
            },
            Err(_) => r,
        }
    }

    /// Store a new delegator, once their funds are bonded.
    pub fn record_join(
        &mut self,
        joining: Joining,
        new_free_balance: Balance,
        new_shares: Shares,
    )
        ensures
            final(self)@ == old(self)@.joined(joining, new_free_balance, new_shares),
    {
        let bonded: Balance = new_free_balance.saturating_sub(joining.old_free_balance);
        let pool = joining.primary_pool;
        let delegator = Delegator {
            pool: joining.target,
            shares: new_shares,
            reward_pool_total_earnings: joining.total_earnings,
            unbonding_era: None,
        };
        self.delegators.insert(joining.who, delegator);
        self.primary_pools.insert(
            joining.target,
            Pool { shares: pool.shares.saturating_add(new_shares), ..pool },
        );
        self.deposit_event(
            Event::Joined { delegator: joining.who, pool: joining.target, bonded },
        );
        assert(self@ =~= old(self)@.joined(joining, new_free_balance, new_shares));
    }
}

} // verus!
