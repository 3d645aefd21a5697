//! Withdrawing unbonded funds.

use crate::shares::{has_price, redeemed_balance};
use crate::staking::StakingInterface;
use crate::storage::{Pallet, Storage};
use crate::sub_pools::{SubPools, UnbondPool};
use crate::types::{
    AccountId, Balance, Delegator, Error, Event, ExistenceRequirement, PoolId, Transfer,
};
use sp_staking::EraIndex;
use vstd::prelude::*;

verus! {

/// A request to withdraw that was found good, before the funds were transferred.
#[derive(Clone, Copy, PartialEq, Eq, Debug)]
pub struct Withdrawal {
    /// The account that withdraws.
    pub who: AccountId,
    /// The pool that was left.
    pub pool: PoolId,
    /// The account of that pool.
    pub account_id: AccountId,
    /// The era of the sub pool the funds are in, or none if it was merged to the one without an
    /// era.
    pub era: Option<EraIndex>,
    /// What remains of that sub pool.
    pub remaining: UnbondPool,
    /// The funds that are withdrawn.
    pub amount: Balance,
}

impl Withdrawal {
    /// The funds, from the pool's account to `who`.
    pub open spec fn spec_transfer(self) -> Transfer {
        Transfer {
            source: self.account_id,
            dest: self.who,
            value: self.amount,
            requirement: ExistenceRequirement::AllowDeath,
        }
    }

    /// The transfer that has to be made.
    pub fn transfer(&self) -> (transfer: Transfer)
        ensures
            transfer == self.spec_transfer(),
    {
        Transfer {
            source: self.account_id,
            dest: self.who,
            value: self.amount,
            requirement: ExistenceRequirement::AllowDeath,
        }
    }
}

impl SubPools {
    /// The era of the pool that funds which started to unbond in `era` are in, or none if it is
    /// the one without an era.
    pub open spec fn home_of(self, era: EraIndex) -> Option<EraIndex> {
        if self.with_era.contains_key(era) {
            Some(era)
        } else {
            None
        }
    }

    /// The pool of an era, or the one without an era.
    pub open spec fn pool_at(self, home: Option<EraIndex>) -> UnbondPool {
        match home {
            Some(era) => self.with_era[era],
            None => self.no_era,
        }
    }

    /// These pools with `pool` put in place for an era, or as the one without an era.
    pub open spec fn with_pool_at(self, home: Option<EraIndex>, pool: UnbondPool) -> SubPools {
        match home {
            Some(era) => SubPools { with_era: self.with_era.insert(era, pool), ..self },
            None => SubPools { no_era: pool, ..self },
        }
    }
}

impl Storage {
    /// The sub pool that the funds of an unbonding `delegator` are in.
    pub open spec fn unbond_pool_of(self, delegator: Delegator) -> UnbondPool {
        let sub_pools = self.sub_pools_of(delegator.pool);
        sub_pools.pool_at(sub_pools.home_of(delegator.unbonding_era->0))
    }

    /// The delegator `who`, if there is one and they are unbonding.
    pub open spec fn unbonding_delegator(self, who: AccountId) -> Result<Delegator, Error> {
        if !self.delegators.contains_key(who) {
            Err(Error::DelegatorNotFound)
        } else if self.delegators[who].unbonding_era is None {
            Err(Error::NotUnbonding)
        } else {
            Ok(self.delegators[who])
        }
    }

    /// Whether, and with what, `who` withdraws their unbonded funds.
    pub open spec fn withdraw_unbonded(
        self,
        who: AccountId,
        current_era: EraIndex,
        bond_duration: EraIndex,
    ) -> Result<Withdrawal, Error> {
        let delegator = self.delegators[who];
        if let Err(error) = self.unbonding_delegator(who) {
            Err(error)
        } else if current_era.saturating_sub(delegator.unbonding_era->0) < bond_duration {
            Err(Error::NotUnbondedYet)
        } else if !self.primary_pools.contains_key(delegator.pool) {
            Err(Error::PoolNotFound)
        } else {
            let unbond_pool = self.unbond_pool_of(delegator);
            Ok(
                Withdrawal {
                    who,
                    pool: delegator.pool,
                    account_id: self.primary_pools[delegator.pool].account_id,
                    era: self.sub_pools_of(delegator.pool).home_of(delegator.unbonding_era->0),
                    remaining: unbond_pool.redeem(delegator.shares),
                    amount: redeemed_balance(
                        unbond_pool.balance,
                        unbond_pool.shares,
                        delegator.shares,
                    ),
                },
            )
        }
    }

    /// Whether the shares of `who` have a price, if they are due.
    pub open spec fn withdraw_unbonded_defined(
        self,
        who: AccountId,
        current_era: EraIndex,
        bond_duration: EraIndex,
    ) -> bool {
        let delegator = self.delegators[who];
        let unbond_pool = self.unbond_pool_of(delegator);
        self.delegators.contains_key(who) && delegator.unbonding_era is Some
            && current_era.saturating_sub(delegator.unbonding_era->0) >= bond_duration
            ==> has_price(unbond_pool.balance, unbond_pool.shares, delegator.shares)
    }

    /// What is stored once the funds of a withdrawal were transferred.
    pub open spec fn withdrawn(self, withdrawal: Withdrawal) -> Storage {
        Storage {
            delegators: self.delegators.remove(withdrawal.who),
            sub_pools: self.sub_pools.insert(
                withdrawal.pool,
                self.sub_pools_of(withdrawal.pool).with_pool_at(
                    withdrawal.era,
                    withdrawal.remaining,
                ),
            ),
            events: self.events.push(
                Event::Withdrawn {
                    delegator: withdrawal.who,
                    pool: withdrawal.pool,
                    amount: withdrawal.amount,
                },
            ),
            ..self
        }
    }
}

impl Pallet {
    /// A delegator whose bond duration has passed since they started to unbond can use this to
    /// withdraw _all_ their funds, which ends their membership.
    ///
    /// The staking system is asked for the era and the bond duration only where `who` is unbonding.
    /// The request goes on with `finish_withdraw` once its transfer was made.
    pub fn withdraw_unbonded<S: StakingInterface<Balance = Balance, AccountId = AccountId>>(
        &self,
        who: AccountId,
    ) -> (r: Result<Withdrawal, Error>)
        requires
            forall|current_era: EraIndex, bond_duration: EraIndex|
                #![trigger call_ensures(S::current_era, (), current_era), call_ensures(S::bond_duration, (), bond_duration)]
                call_ensures(S::current_era, (), current_era) && call_ensures(
                    S::bond_duration,
                    (),
                    bond_duration,
                ) ==> self@.withdraw_unbonded_defined(who, current_era, bond_duration),
        ensures
            match self@.unbonding_delegator(who) {
                Err(error) => r == Err::<Withdrawal, Error>(error),
                Ok(_) => exists|current_era: EraIndex, bond_duration: EraIndex|
                    #![trigger call_ensures(S::current_era, (), current_era), call_ensures(S::bond_duration, (), bond_duration)]
                    call_ensures(S::current_era, (), current_era) && call_ensures(
                        S::bond_duration,
                        (),
                        bond_duration,
                    ) && r == self@.withdraw_unbonded(who, current_era, bond_duration),
            },
    {
        if let Err(error) = self.find_unbonding(who) {
            return Err(error);
        }
        let current_era: EraIndex = S::current_era();
        let bond_duration: EraIndex = S::bond_duration();
        self.decide_withdraw(who, current_era, bond_duration)
    }

    /// Decide on a request to withdraw, given the current era and the bond duration.
    pub fn decide_withdraw(
        &self,
        who: AccountId,
        current_era: EraIndex,
        bond_duration: EraIndex,
    ) -> (r: Result<Withdrawal, Error>)
        requires
            self@.withdraw_unbonded_defined(who, current_era, bond_duration),
        ensures
            r == self@.withdraw_unbonded(who, current_era, bond_duration),
    {
        let (delegator, unbonding_era) = match self.find_unbonding(who) {
            Ok(found) => found,
            Err(error) => return Err(error),
        };
        if current_era.saturating_sub(unbonding_era) < bond_duration {
            return Err(Error::NotUnbondedYet);
        }
        let (era, unbond_pool) = self.find_unbond_pool(delegator.pool, unbonding_era);
        let amount: Balance = unbond_pool.balance_to_unbond(delegator.shares);
        let remaining = UnbondPool {
            shares: unbond_pool.shares.saturating_sub(delegator.shares),
            balance: unbond_pool.balance.saturating_sub(amount),
        };
        let primary_pool = match self.primary_pools.get(&delegator.pool) {
            Some(pool) => *pool,
            None => return Err(Error::PoolNotFound),
        };
        Ok(
            Withdrawal {
                who,
                pool: delegator.pool,
                account_id: primary_pool.account_id,
                era,
                remaining,
                amount,
            },
        )
    }

    /// Whether `decide_withdraw` has a price for the shares of `who`: it does not take a request
    /// that is due for shares of a sub pool with funds but without shares.
    pub fn is_withdraw_defined(
        &self,
        who: AccountId,
        current_era: EraIndex,
        bond_duration: EraIndex,
    ) -> (r: bool)
        ensures
            r == self@.withdraw_unbonded_defined(who, current_era, bond_duration),
    {
        let (delegator, unbonding_era) = match self.find_unbonding(who) {
            Ok(found) => found,
            Err(_) => return true,
        };
        let (_, unbond_pool) = self.find_unbond_pool(delegator.pool, unbonding_era);
        current_era.saturating_sub(unbonding_era) < bond_duration || unbond_pool.balance == 0
            || delegator.shares == 0 || unbond_pool.shares != 0
    }

    /// The delegator `who` and the era in which they started to unbond.
    fn find_unbonding(&self, who: AccountId) -> (r: Result<(Delegator, EraIndex), Error>)
        ensures
            r == (match self@.unbonding_delegator(who) {
                Ok(delegator) => Ok((delegator, delegator.unbonding_era->0)),
                Err(error) => Err(error),
            }),
    {
        match self.delegators.get(&who) {
            Some(delegator) => match delegator.unbonding_era {
                Some(era) => Ok((*delegator, era)),
                None => Err(Error::NotUnbonding),
            },
            None => Err(Error::DelegatorNotFound),
        }
    }

    /// The sub pool of `pool` that funds which started to unbond in `era` are in, and its era. If
    /// no pool belongs to this era, it must have been merged to the era-less pool.
    fn find_unbond_pool(&self, pool: PoolId, era: EraIndex) -> (r: (Option<EraIndex>, UnbondPool))
        ensures
            r.0 == self@.sub_pools_of(pool).home_of(era),
            r.1 == self@.sub_pools_of(pool).pool_at(r.0),
    {
        match self.sub_pools.get(&pool) {
            Some(sub_pools) => {
                match sub_pools.get(era) {
                    Some(unbond_pool) => (Some(era), unbond_pool),
                    None => (None, sub_pools.no_era),
                }
            },
            None => (None, UnbondPool::default()),
        }
    }

    /// Store what remains of the sub pool, and that `who` is no longer a delegator, after the
    /// transfer of a withdrawal was made.
    pub fn finish_withdraw(&mut self, withdrawal: Withdrawal)
        requires
            withdrawal.era matches Some(era) ==> old(self)@.sub_pools_of(withdrawal.pool).has_room(
                era,
            ),
        ensures
            final(self)@ == old(self)@.withdrawn(withdrawal),
    {
        let mut sub_pools = self.take_sub_pools(withdrawal.pool);
        match withdrawal.era {
            Some(era) => {
                sub_pools.set(era, withdrawal.remaining);
            },
            None => {
                sub_pools.no_era = withdrawal.remaining;
            },
        }
        self.put_sub_pools(withdrawal.pool, sub_pools);
        self.delegators.remove(&withdrawal.who);
        self.deposit_event(
            Event::Withdrawn {
                delegator: withdrawal.who,
                pool: withdrawal.pool,
                amount: withdrawal.amount,
            },
        );
        assert(self@ =~= old(self)@.withdrawn(withdrawal));
    }
}

} // verus!
