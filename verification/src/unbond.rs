//! Unbonding funds.

use crate::payout::Payout;
use crate::primary::Pool;
use crate::shares::{
    has_price, issued_shares, law_shares_are_redeemed_pro_rata, redeemed_balance,
};
use crate::staking::StakingInterface;
use crate::storage::{Pallet, Storage};
use crate::sub_pools::lemma_eras_finite;
use crate::types::{AccountId, Balance, Delegator, Error, Event, Shares, Transfer};
use sp_runtime::DispatchError;
use sp_staking::EraIndex;
use vstd::prelude::*;

verus! {

/// A request to unbond that was found good, before the payout that goes with it was transferred.
#[derive(Clone, Copy, PartialEq, Eq, Debug)]
pub struct Unbonding {
    /// The rewards of the delegator, which are claimed prior to unbonding.
    pub payout: Payout,
    /// The pool as it was found.
    pub primary_pool: Pool,
}

impl Unbonding {
    /// What the delegator's shares are worth, with `bonded_balance` bonded for the pool.
    pub open spec fn balance_to_unbond(self, bonded_balance: Balance) -> Balance {
        redeemed_balance(
            bonded_balance,
            self.primary_pool.shares,
            self.payout.delegator.shares,
        )
    }

    /// The transfer that has to be made.
    pub fn transfer(&self) -> (transfer: Transfer)
        ensures
            transfer == self.payout.spec_transfer(),
    {
        self.payout.transfer()
    }
}

impl Storage {
    /// Whether, and with what payout, `who` starts to unbond.
    pub open spec fn unbond(self, who: AccountId, reward_free_balance: Balance) -> Result<
        Unbonding,
        Error,
    > {
        match self.claim_payout(who, reward_free_balance) {
            Ok(payout) => Ok(
                Unbonding {
                    payout,
                    primary_pool: self.primary_pools[self.delegators[who].pool],
                },
            ),
            Err(error) => Err(error),
        }
    }

    /// What is stored once `who` was paid their rewards and the staking system has started to
    /// unbond `amount`, which all their shares of `primary_pool` are worth.
    pub open spec fn unbonded(
        self,
        who: AccountId,
        primary_pool: Pool,
        current_era: EraIndex,
        amount: Balance,
    ) -> Storage {
        let delegator = self.delegators[who];
        let sub_pools = self.sub_pools_of(delegator.pool).merged(current_era, self.max_unbonding);
        let unbond_pool = sub_pools.pool_of(current_era);
        Storage {
            primary_pools: self.primary_pools.insert(
                delegator.pool,
                Pool {
                    shares: primary_pool.shares.saturating_sub(delegator.shares),
                    ..primary_pool
                },
            ),
            sub_pools: self.sub_pools.insert(delegator.pool, sub_pools.issue(current_era, amount)),
            delegators: self.delegators.insert(
                who,
                Delegator {
                    shares: issued_shares(unbond_pool.balance, unbond_pool.shares, amount),
                    unbonding_era: Some(current_era),
                    ..delegator
                },
            ),
            events: self.events.push(
                Event::Unbonded { delegator: who, pool: delegator.pool, amount },
            ),
            ..self
        }
    }
}

impl Pallet {
    /// A bonded delegator can use this to unbond _all_ funds from the pool. In order to withdraw
    /// the funds, the delegator must wait.
    ///
    /// The rewards are claimed prior to unbonding: once the delegator is unbonding their shares no
    /// longer exist in the primary pool and thus they can no longer claim their payouts.
    /// `reward_free_balance` is the free balance of the reward pool's account; it does not count
    /// where there is no such pool. The request goes on with `finish_unbond` once its transfer was
    /// made.
    pub fn unbond(&self, who: AccountId, reward_free_balance: Balance) -> (r: Result<
        Unbonding,
        Error,
    >)
        ensures
            r == self@.unbond(who, reward_free_balance),
    {
        let delegator = match self.delegators.get(&who) {
            Some(delegator) => *delegator,
            None => return Err(Error::DelegatorNotFound),
        };
        let primary_pool = match self.primary_pools.get(&delegator.pool) {
            Some(pool) => *pool,
            None => return Err(Error::PoolNotFound),
        };
        match self.do_reward_payout(who, delegator, &primary_pool, reward_free_balance) {
            Ok(payout) => Ok(Unbonding { payout, primary_pool }),
            Err(error) => Err(error),
        }
    }

    /// Go on with a request to unbond, after the payout that goes with it was transferred. The
    /// payout is stored even where the staking system refuses to unbond.
    pub fn finish_unbond<S: StakingInterface<Balance = Balance, AccountId = AccountId>>(
        &mut self,
        unbonding: Unbonding,
    ) -> (r: Result<(), DispatchError>)
        requires
            forall|bonded: Balance| #[trigger]
                call_ensures(
                    S::bonded_balance,
                    (&unbonding.primary_pool.account_id,),
                    bonded,
                ) ==> has_price(
                    bonded,
                    unbonding.primary_pool.shares,
                    unbonding.payout.delegator.shares,
                ),
            old(self)@.sub_pools_of(unbonding.payout.delegator.pool).with_era.len() < u32::MAX,
        ensures
            exists|current_era: EraIndex, bonded_balance: Balance, amount: Balance|
                #![trigger call_ensures(S::current_era, (), current_era), call_ensures(S::bonded_balance, (&unbonding.primary_pool.account_id,), bonded_balance), call_ensures(S::unbond, (&unbonding.primary_pool.account_id, amount), r)]
                {
                    let paid = old(self)@.paid_out(unbonding.payout);
                    let n = unbonding.payout.delegator.shares;
                    let s = unbonding.primary_pool.shares;
                    &&& call_ensures(S::current_era, (), current_era)
                    &&& call_ensures(
                        S::bonded_balance,
                        (&unbonding.primary_pool.account_id,),
                        bonded_balance,
                    )
                    &&& call_ensures(S::unbond, (&unbonding.primary_pool.account_id, amount), r)
                    &&& amount == unbonding.balance_to_unbond(bonded_balance)
                    // The delegator's part of what is bonded: no more, and short of it by no more
                    // than two roundings, unless the price of a share does not fit
                    &&& amount * s <= bonded_balance * n
                    &&& s > 0 && bonded_balance * 1_000_000_000_000_000_000 < (u128::MAX + 1) * s
                        && amount < u128::MAX ==> bonded_balance * n * 1_000_000_000_000_000_000 < (
                    amount + 1) * s * 1_000_000_000_000_000_000 + n * s
                    &&& r is Ok ==> final(self)@ == paid.unbonded(
                        unbonding.payout.delegator_id,
                        unbonding.primary_pool,
                        current_era,
                        amount,
                    )
                    &&& r is Err ==> final(self)@ == paid
                },
    {
        let pool = unbonding.primary_pool;
        let who: AccountId = unbonding.payout.delegator_id;
        self.finish_payout(unbonding.payout);
        let current_era: EraIndex = S::current_era();
        let balance_to_unbond: Balance = pool.balance_to_unbond::<S>(
            unbonding.payout.delegator.shares,
        );
        proof {
            let n = unbonding.payout.delegator.shares;
            let bonded = choose|bonded: Balance| #[trigger]
                call_ensures(S::bonded_balance, (&pool.account_id,), bonded) && balance_to_unbond
                    == redeemed_balance(bonded, pool.shares, n);
            if pool.shares > 0 {
                law_shares_are_redeemed_pro_rata(bonded, pool.shares, n);
            } else {
                assert(balance_to_unbond * 0 == 0 && 0 <= bonded * n) by (nonlinear_arith);
            }
        }
        // Unbond in the actual underlying pool
        let r = S::unbond(&pool.account_id, balance_to_unbond);
        match r {
            Ok(()) => {
                self.record_unbond(who, pool, current_era, balance_to_unbond);
                r
            },
            Err(_) => r,
        }
    }

    /// Store that `who` has started to unbond `amount`, which all their shares of `primary_pool`
    /// were worth, once the staking system has started to unbond it.
    pub fn record_unbond(
        &mut self,
        who: AccountId,
        primary_pool: Pool,
        current_era: EraIndex,
        amount: Balance,
    )
        requires
            old(self)@.delegators.contains_key(who),
            old(self)@.sub_pools_of(old(self)@.delegators[who].pool).with_era.len() < u32::MAX,
        ensures
            final(self)@ == old(self)@.unbonded(who, primary_pool, current_era, amount),
    {
        let delegator = match self.delegators.get(&who) {
            Some(delegator) => *delegator,
            None => return,
        };
        let ghost found = self@.sub_pools_of(delegator.pool);
        let max_unbonding: u32 = self.max_unbonding;
        // The unbonding pools are lazily created if they don't already exist
        let sub_pools = self.take_sub_pools(delegator.pool);
        // Merge any older pools into the general, era agnostic unbond pool. Note that we do this
        // before inserting to ensure we don't go over the max unbonding pools.
        let mut sub_pools = sub_pools.maybe_merge_pools(current_era, max_unbonding);
        proof {
            lemma_eras_finite(found.with_era.dom());
            vstd::set_lib::lemma_len_subset(sub_pools@.with_era.dom(), found.with_era.dom());
        }
        // Update the unbond pool associated with the current era with the unbonded funds.
        let issued: Shares = sub_pools.issue(current_era, amount);
        self.primary_pools.insert(
            delegator.pool,
            Pool { shares: primary_pool.shares.saturating_sub(delegator.shares), ..primary_pool },
        );
        self.put_sub_pools(delegator.pool, sub_pools);
        self.delegators.insert(
            who,
            Delegator { shares: issued, unbonding_era: Some(current_era), ..delegator },
        );
        self.deposit_event(Event::Unbonded { delegator: who, pool: delegator.pool, amount });
        assert(self@ =~= old(self)@.unbonded(who, primary_pool, current_era, amount));
    }
}

} // verus!
