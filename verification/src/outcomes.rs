//! What each request comes to, told by what is stored before it and after it.

use crate::fixed::{
    law_complement_makes_up_one, law_scaled_is_the_product, lemma_ratio_is_unique, scaled, ACCURACY,
};
use crate::join::Joining;
use crate::payout::Payout;
use crate::primary::Pool;
use crate::reward::RewardPool;
use crate::shares::{
    issued_shares, law_shares_are_redeemed_at_the_price, law_shares_are_redeemed_pro_rata,
    redeemed_balance,
};
use crate::slash::is_slash_outcome;
use crate::storage::{Pallet, Storage};
use crate::sub_pools::{
    balance_within, era_pools, lemma_within_nonnegative, shares_within, SubPools,
    SubPoolsContainer, UnbondPool,
};
use crate::types::{
    AccountId, Balance, Delegator, Error, Event, ExistenceRequirement, PoolId, Shares,
};
use crate::unbond::Unbonding;
use crate::withdraw::Withdrawal;
use sp_staking::EraIndex;
use sp_std::collections::btree_map::BTreeMap;
use vstd::prelude::*;

verus! {

/// What is stored is what the fields hold, each entry under its key.
pub proof fn law_storage_is_what_the_fields_hold(pallet: Pallet)
    ensures
        pallet@.delegators == pallet.delegators@,
        pallet@.pool_ids == pallet.pool_ids@,
        pallet@.primary_pools == pallet.primary_pools@,
        pallet@.reward_pools == pallet.reward_pools@,
        pallet@.events == pallet.events@,
        pallet@.max_unbonding == pallet.max_unbonding,
        forall|pool: PoolId| #[trigger]
            pallet@.sub_pools.contains_key(pool) <==> pallet.sub_pools@.contains_key(pool),
        forall|pool: PoolId| #[trigger]
            pallet@.sub_pools.contains_key(pool) ==> pallet@.sub_pools[pool]
                == pallet.sub_pools@[pool]@,
{
}

/// A group of sub pools is the pool without an era and the entries of the map.
pub proof fn law_sub_pools_are_what_the_map_holds(pools: SubPoolsContainer)
    ensures
        pools@.no_era == pools.no_era,
        pools@.with_era == era_pools(pools.with_era),
{
}

/// At first there are no delegators, no pools and no events, and a pool that was not used yet has no
/// funds unbonding.
pub proof fn law_nothing_is_stored_at_first(max_unbonding: u32, pool: PoolId)
    ensures
        ({
            let s = Storage::empty(max_unbonding);
            &&& s.delegators.dom() == Set::<AccountId>::empty()
            &&& s.pool_ids.dom() == Set::<AccountId>::empty()
            &&& s.primary_pools.dom() == Set::<PoolId>::empty()
            &&& s.reward_pools.dom() == Set::<PoolId>::empty()
            &&& s.sub_pools.dom() == Set::<PoolId>::empty()
            &&& s.events.len() == 0
            &&& s.max_unbonding == max_unbonding
            &&& s.sub_pools_of(pool).no_era.shares == 0
            &&& s.sub_pools_of(pool).no_era.balance == 0
            &&& s.sub_pools_of(pool).with_era.dom() == Set::<EraIndex>::empty()
        }),
{
}

/// The sub pools of a pool are those stored for it, or ones without funds and shares.
pub proof fn law_sub_pools_are_those_stored(s: Storage, pool: PoolId)
    ensures
        s.sub_pools.contains_key(pool) ==> s.sub_pools_of(pool) == s.sub_pools[pool],
        !s.sub_pools.contains_key(pool) ==> ({
            let pools = s.sub_pools_of(pool);
            &&& pools.no_era.shares == 0 && pools.no_era.balance == 0
            &&& pools.with_era.dom() == Set::<EraIndex>::empty()
        }),
{
}

/// A request to join is refused for the first of these reasons that holds: the account belongs to a
/// pool, the pool does not exist, it would have less than the minimum bond, it has no reward pool.
/// Otherwise it goes on with what was found, and with the earnings up to now.
pub proof fn law_join_is_decided(
    s: Storage,
    who: AccountId,
    amount: Balance,
    target: PoolId,
    pool_free_balance: Balance,
    minimum_bond: Balance,
    reward_free_balance: Balance,
)
    ensures
        ({
            let r = s.join(
                who,
                amount,
                target,
                pool_free_balance,
                minimum_bond,
                reward_free_balance,
            );
            let member = s.delegators.contains_key(who);
            let exists_pool = s.primary_pools.contains_key(target);
            let enough = pool_free_balance + amount >= minimum_bond;
            let exists_reward_pool = s.reward_pools.contains_key(target);
            let reward_pool = s.reward_pools[target];
            &&& r == Err::<Joining, Error>(Error::AccountBelongsToOtherPool) <==> member
            &&& r == Err::<Joining, Error>(Error::PoolNotFound) <==> !member && !exists_pool
            &&& r == Err::<Joining, Error>(Error::InsufficientBond) <==> !member && exists_pool
                && !enough
            &&& r == Err::<Joining, Error>(Error::RewardPoolNotFound) <==> !member && exists_pool
                && enough && !exists_reward_pool
            &&& r is Ok <==> !member && exists_pool && enough && exists_reward_pool
            &&& r matches Ok(joining) ==> {
                &&& joining.who == who
                &&& joining.target == target
                &&& joining.amount == amount
                &&& joining.primary_pool == s.primary_pools[target]
                &&& joining.old_free_balance == pool_free_balance
                &&& joining.total_earnings == if reward_free_balance <= reward_pool.balance {
                    reward_pool.total_earnings as int
                } else if reward_pool.total_earnings + (reward_free_balance - reward_pool.balance)
                    > u128::MAX {
                    u128::MAX as int
                } else {
                    reward_pool.total_earnings + (reward_free_balance - reward_pool.balance)
                }
            }
            // The refusals that need no word of the staking system
            &&& s.pool_to_join(who, target) == Err::<Pool, Error>(Error::AccountBelongsToOtherPool)
                <==> member
            &&& s.pool_to_join(who, target) == Err::<Pool, Error>(Error::PoolNotFound) <==> !member
                && !exists_pool
            &&& s.pool_to_join(who, target) is Ok <==> !member && exists_pool
            &&& s.pool_to_join(who, target) matches Ok(pool) ==> pool == s.primary_pools[target]
        }),
{
}

/// The transfer for a request to join takes the offered funds from the account to the pool's and
/// keeps the account alive; what then arrived is bonded.
pub proof fn law_join_transfers_to_the_pool(joining: Joining, new_free_balance: Balance)
    ensures
        joining.spec_transfer().source == joining.who,
        joining.spec_transfer().dest == joining.primary_pool.account_id,
        joining.spec_transfer().value == joining.amount,
        joining.spec_transfer().requirement == ExistenceRequirement::KeepAlive,
        new_free_balance >= joining.old_free_balance ==> joining.exact_amount_to_bond(
            new_free_balance,
        ) == new_free_balance - joining.old_free_balance,
        new_free_balance < joining.old_free_balance ==> joining.exact_amount_to_bond(
            new_free_balance,
        ) == 0,
{
}

/// Joining adds one delegator with the new shares, adds these shares to those of the pool, and tells
/// of the funds that were bonded.
pub proof fn law_join_adds_a_delegator(
    s: Storage,
    joining: Joining,
    new_free_balance: Balance,
    new_shares: Shares,
)
    ensures
        ({
            let t = s.joined(joining, new_free_balance, new_shares);
            let d = t.delegators[joining.who];
            let pool = t.primary_pools[joining.target];
            &&& t.delegators == s.delegators.insert(joining.who, d)
            &&& d.pool == joining.target
            &&& d.shares == new_shares
            &&& d.reward_pool_total_earnings == joining.total_earnings
            &&& d.unbonding_era is None
            &&& t.primary_pools == s.primary_pools.insert(joining.target, pool)
            &&& pool.account_id == joining.primary_pool.account_id
            &&& joining.primary_pool.shares + new_shares <= u128::MAX ==> pool.shares
                == joining.primary_pool.shares + new_shares
            &&& joining.primary_pool.shares + new_shares > u128::MAX ==> pool.shares == u128::MAX
            &&& t.events.len() == s.events.len() + 1
            &&& t.events.drop_last() == s.events
            &&& t.events.last() matches Event::Joined { delegator, pool: id, bonded } && delegator
                == joining.who && id == joining.target && bonded == (if new_free_balance
                > joining.old_free_balance {
                new_free_balance - joining.old_free_balance
            } else {
                0
            })
            &&& t.reward_pools == s.reward_pools
            &&& t.sub_pools == s.sub_pools
            &&& t.pool_ids == s.pool_ids
            &&& t.max_unbonding == s.max_unbonding
        }),
{
    let t = s.joined(joining, new_free_balance, new_shares);
    assert(t.events.drop_last() =~= s.events);
}

/// What has come in on top of the balance after the last payout is counted as earnings, and nothing
/// else of a reward pool changes but the balance.
pub proof fn law_update_counts_what_came_in(r: RewardPool, current_balance: Balance)
    ensures
        ({
            let updated = r.updated(current_balance);
            let earned = if current_balance > r.balance {
                current_balance - r.balance
            } else {
                0
            };
            &&& updated.balance == current_balance
            &&& updated.shares == r.shares
            &&& updated.account_id == r.account_id
            &&& r.total_earnings + earned <= u128::MAX ==> updated.total_earnings
                == r.total_earnings + earned
            &&& r.total_earnings + earned > u128::MAX ==> updated.total_earnings == u128::MAX
        }),
{
}

/// A claim pays the part of the balance that the delegator's reward shares are of all of them, as a
/// ratio rounded down to eighteen decimal places. The delegator's reward shares are their shares for
/// each unit earned since they last claimed, and all shares grow by those of the primary pool for
/// each unit earned since the last claim of anyone. The pool then has so many shares and so much
/// balance less, and the delegator has claimed all earnings.
pub proof fn law_claim_pays_its_part(
    r: RewardPool,
    primary_shares: Shares,
    delegator: Delegator,
    current_balance: Balance,
    earned: int,
    total: int,
    all: int,
    own: int,
    ratio: u128,
)
    requires
        earned == if current_balance > r.balance {
            current_balance - r.balance
        } else {
            0
        },
        total == if r.total_earnings + earned > u128::MAX {
            u128::MAX as int
        } else {
            r.total_earnings + earned
        },
        all == if r.shares + primary_shares * (total - r.total_earnings) > u128::MAX {
            u128::MAX as int
        } else {
            r.shares + primary_shares * (total - r.total_earnings)
        },
        own == if total <= delegator.reward_pool_total_earnings {
            0
        } else if delegator.shares * (total - delegator.reward_pool_total_earnings) > u128::MAX {
            u128::MAX as int
        } else {
            delegator.shares * (total - delegator.reward_pool_total_earnings)
        },
        ratio * all <= own * 1_000_000_000_000_000_000 || all == 0,
        ratio == u128::MAX || own * 1_000_000_000_000_000_000 < (ratio + 1) * all || all == 0,
    ensures
        r.inflated_shares(primary_shares, current_balance) == all,
        r.virtual_shares(delegator, current_balance) == own,
        ({
            let (after, member, paid) = r.claim(primary_shares, delegator, current_balance);
            &&& all == 0 ==> paid == 0
            &&& all > 0 ==> paid * 1_000_000_000_000_000_000 <= ratio * current_balance
            &&& all > 0 ==> paid == u128::MAX || ratio * current_balance < (paid + 1)
                * 1_000_000_000_000_000_000
            &&& after.balance == (if current_balance > paid {
                current_balance - paid
            } else {
                0
            })
            &&& after.shares == (if all > own {
                all - own
            } else {
                0
            })
            &&& after.total_earnings == total
            &&& after.account_id == r.account_id
            &&& member.reward_pool_total_earnings == total
            &&& member.pool == delegator.pool
            &&& member.shares == delegator.shares
            &&& member.unbonding_era == delegator.unbonding_era
        }),
{
    let grown = primary_shares * (total - r.total_earnings);
    let (p, g) = (primary_shares as int, total - r.total_earnings);
    assert(0 <= p * g) by (nonlinear_arith)
        requires
            0 <= p,
            0 <= g,
    ;
    if total > delegator.reward_pool_total_earnings {
        let (n, e) = (delegator.shares as int, total - delegator.reward_pool_total_earnings);
        assert(0 <= n * e) by (nonlinear_arith)
            requires
                0 <= n,
                0 <= e,
        ;
    } else {
        assert(delegator.shares * 0 == 0) by (nonlinear_arith);
    }
    assert(r.updated(current_balance).total_earnings == total);
    assert(r.new_earnings(current_balance) == g);
    if all > 0 {
        lemma_ratio_is_unique(own as u128, all as u128, ratio);
        law_scaled_is_the_product(ratio, current_balance);
    }
}

/// A claim is refused for the first of these reasons that holds: the account is no delegator, their
/// pool does not exist, it has no reward pool, they are unbonding. Otherwise they are paid what
/// `RewardPool::claim` says, for the shares that the pool has.
pub proof fn law_claim_is_decided(s: Storage, who: AccountId, reward_free_balance: Balance)
    ensures
        ({
            let r = s.claim_payout(who, reward_free_balance);
            let member = s.delegators.contains_key(who);
            let d = s.delegators[who];
            let exists_pool = s.primary_pools.contains_key(d.pool);
            let exists_reward_pool = s.reward_pools.contains_key(d.pool);
            let bonded = d.unbonding_era is None;
            &&& r == Err::<Payout, Error>(Error::DelegatorNotFound) <==> !member
            &&& r == Err::<Payout, Error>(Error::PoolNotFound) <==> member && !exists_pool
            &&& r == Err::<Payout, Error>(Error::RewardPoolNotFound) <==> member && exists_pool
                && !exists_reward_pool
            &&& r == Err::<Payout, Error>(Error::AlreadyUnbonding) <==> member && exists_pool
                && exists_reward_pool && !bonded
            &&& r is Ok <==> member && exists_pool && exists_reward_pool && bonded
            &&& r matches Ok(payout) ==> {
                let claim = s.reward_pools[d.pool].claim(
                    s.primary_pools[d.pool].shares,
                    d,
                    reward_free_balance,
                );
                &&& payout.delegator_id == who
                &&& payout.reward_pool == claim.0
                &&& payout.delegator == claim.1
                &&& payout.amount == claim.2
            }
        }),
{
}

/// A payout that is worked out for a delegator is refused where the reward pool is missing or they
/// are unbonding, and is otherwise what `RewardPool::claim` says.
pub proof fn law_reward_payout_is_decided(
    s: Storage,
    delegator_id: AccountId,
    delegator: Delegator,
    primary_pool: Pool,
    reward_free_balance: Balance,
)
    ensures
        ({
            let r = s.reward_payout(delegator_id, delegator, primary_pool, reward_free_balance);
            let exists_reward_pool = s.reward_pools.contains_key(delegator.pool);
            let bonded = delegator.unbonding_era is None;
            &&& r == Err::<Payout, Error>(Error::RewardPoolNotFound) <==> !exists_reward_pool
            &&& r == Err::<Payout, Error>(Error::AlreadyUnbonding) <==> exists_reward_pool
                && !bonded
            &&& r is Ok <==> exists_reward_pool && bonded
            &&& r matches Ok(payout) ==> {
                let claim = s.reward_pools[delegator.pool].claim(
                    primary_pool.shares,
                    delegator,
                    reward_free_balance,
                );
                &&& payout.delegator_id == delegator_id
                &&& payout.reward_pool == claim.0
                &&& payout.delegator == claim.1
                &&& payout.amount == claim.2
            }
        }),
{
}

/// A payout goes from the reward account to the delegator's, which may empty the former. It is told
/// of, and the delegator and the reward pool are stored as they are after it.
pub proof fn law_payout_is_transferred_and_stored(s: Storage, payout: Payout)
    ensures
        payout.spec_transfer().source == payout.reward_pool.account_id,
        payout.spec_transfer().dest == payout.delegator_id,
        payout.spec_transfer().value == payout.amount,
        payout.spec_transfer().requirement == ExistenceRequirement::AllowDeath,
        payout.event() == (Event::PaidOut {
            delegator: payout.delegator_id,
            pool: payout.delegator.pool,
            payout: payout.amount,
        }),
        ({
            let t = s.paid_out(payout);
            &&& t.delegators == s.delegators.insert(payout.delegator_id, payout.delegator)
            &&& t.reward_pools == s.reward_pools.insert(payout.delegator.pool, payout.reward_pool)
            &&& t.events.len() == s.events.len() + 1
            &&& t.events.drop_last() == s.events
            &&& t.events.last() == (Event::PaidOut {
                delegator: payout.delegator_id,
                pool: payout.delegator.pool,
                payout: payout.amount,
            })
            &&& t.primary_pools == s.primary_pools
            &&& t.sub_pools == s.sub_pools
            &&& t.pool_ids == s.pool_ids
            &&& t.max_unbonding == s.max_unbonding
        }),
{
    assert(s.paid_out(payout).events.drop_last() =~= s.events);
}

/// A request to unbond is refused where a claim is, and for the same reason. Otherwise it goes on
/// with that claim and with the pool as it was found.
pub proof fn law_unbond_is_decided(s: Storage, who: AccountId, reward_free_balance: Balance)
    ensures
        match s.unbond(who, reward_free_balance) {
            Ok(unbonding) => {
                &&& s.claim_payout(who, reward_free_balance) == Ok::<Payout, Error>(
                    unbonding.payout,
                )
                &&& s.delegators.contains_key(who)
                &&& s.primary_pools.contains_key(s.delegators[who].pool)
                &&& unbonding.primary_pool == s.primary_pools[s.delegators[who].pool]
            },
            Err(error) => s.claim_payout(who, reward_free_balance) == Err::<Payout, Error>(error),
        },
{
}

/// What is unbonded for a delegator is their part of what is bonded: no more than that, and short of
/// it by no more than two roundings, unless the price of a share does not fit.
pub proof fn law_unbonding_is_pro_rata(unbonding: Unbonding, bonded_balance: Balance)
    requires
        unbonding.primary_pool.shares > 0,
    ensures
        ({
            let amount = unbonding.balance_to_unbond(bonded_balance);
            let n = unbonding.payout.delegator.shares;
            let s = unbonding.primary_pool.shares;
            &&& amount * s <= bonded_balance * n
            &&& bonded_balance * 1_000_000_000_000_000_000 < (u128::MAX + 1) * s && amount
                < u128::MAX ==> bonded_balance * n * 1_000_000_000_000_000_000 < (amount + 1) * s
                * 1_000_000_000_000_000_000 + n * s
        }),
{
    law_shares_are_redeemed_pro_rata(
        bonded_balance,
        unbonding.primary_pool.shares,
        unbonding.payout.delegator.shares,
    );
}

/// What is unbonded for a delegator is worked out at the price of a share, rounded down to eighteen
/// decimal places, and rounded down once more. There is nothing to unbond where nothing is bonded,
/// or without shares.
pub proof fn law_unbonding_is_at_the_price(
    unbonding: Unbonding,
    bonded_balance: Balance,
    price: u128,
)
    requires
        unbonding.primary_pool.shares > 0 || unbonding.payout.delegator.shares == 0
            || bonded_balance == 0,
        price * unbonding.primary_pool.shares <= bonded_balance * 1_000_000_000_000_000_000,
        price == u128::MAX || bonded_balance * 1_000_000_000_000_000_000 < (price + 1)
            * unbonding.primary_pool.shares || unbonding.primary_pool.shares == 0,
    ensures
        ({
            let amount = unbonding.balance_to_unbond(bonded_balance);
            let n = unbonding.payout.delegator.shares;
            &&& bonded_balance == 0 || n == 0 ==> amount == 0
            &&& bonded_balance > 0 && n > 0 ==> amount * 1_000_000_000_000_000_000 <= price * n
            &&& bonded_balance > 0 && n > 0 ==> amount == u128::MAX || price * n < (amount + 1)
                * 1_000_000_000_000_000_000
        }),
{
    law_shares_are_redeemed_at_the_price(
        bonded_balance,
        unbonding.primary_pool.shares,
        unbonding.payout.delegator.shares,
        price,
    );
}

/// A pool takes in funds and issues shares for them, so it has so much more of both, unless that
/// does not fit.
pub proof fn law_pool_takes_in_funds(pool: UnbondPool, new_funds: Balance)
    ensures
        ({
            let issued = issued_shares(pool.balance, pool.shares, new_funds);
            let after = pool.issue(new_funds);
            &&& pool.balance + new_funds <= u128::MAX ==> after.balance == pool.balance + new_funds
            &&& pool.balance + new_funds > u128::MAX ==> after.balance == u128::MAX
            &&& pool.shares + issued <= u128::MAX ==> after.shares == pool.shares + issued
            &&& pool.shares + issued > u128::MAX ==> after.shares == u128::MAX
        }),
{
}

/// A pool gives out shares and the funds that they are worth, so it has so much less of both.
pub proof fn law_pool_gives_out_funds(pool: UnbondPool, n: Shares)
    ensures
        ({
            let worth = redeemed_balance(pool.balance, pool.shares, n);
            let after = pool.redeem(n);
            &&& after.shares == (if pool.shares > n {
                pool.shares - n
            } else {
                0
            })
            &&& after.balance == (if pool.balance > worth {
                pool.balance - worth
            } else {
                0
            })
        }),
{
}

/// Funds that come in for an era go to its pool, which starts without funds and shares, and touch no
/// other pool. There is room for them unless the era is new and the map is full.
pub proof fn law_sub_pools_take_in_funds(pools: SubPools, era: EraIndex, new_funds: Balance)
    ensures
        pools.with_era.contains_key(era) ==> pools.pool_of(era) == pools.with_era[era],
        !pools.with_era.contains_key(era) ==> pools.pool_of(era).shares == 0 && pools.pool_of(
            era,
        ).balance == 0,
        pools.issue(era, new_funds).no_era == pools.no_era,
        pools.issue(era, new_funds).with_era == pools.with_era.insert(
            era,
            pools.pool_of(era).issue(new_funds),
        ),
        !pools.has_room(era) <==> !pools.with_era.contains_key(era) && pools.with_era.len()
            >= 4_294_967_295,
        UnbondPool::empty().shares == 0,
        UnbondPool::empty().balance == 0,
        SubPools::empty().no_era == (UnbondPool { shares: 0, balance: 0 }),
        SubPools::empty().with_era == Map::<EraIndex, UnbondPool>::empty(),
{
}

/// Merging keeps the pools that have existed for fewer than `max_unbonding` eras as they are, and
/// adds up all others with the pool without an era, unless the sum does not fit.
pub proof fn law_merging_keeps_the_newest(
    pools: SubPools,
    current_era: EraIndex,
    max_unbonding: u32,
)
    ensures
        ({
            let merged = pools.merged(current_era, max_unbonding);
            let cut = current_era - max_unbonding + 1;
            let shares = pools.no_era.shares + shares_within(pools.with_era, 0, cut);
            let balance = pools.no_era.balance + balance_within(pools.with_era, 0, cut);
            &&& forall|era: EraIndex| #[trigger]
                merged.with_era.contains_key(era) <==> pools.with_era.contains_key(era)
                    && current_era - era < max_unbonding
            &&& forall|era: EraIndex| #[trigger]
                merged.with_era.contains_key(era) ==> merged.with_era[era] == pools.with_era[era]
            &&& shares <= u128::MAX ==> merged.no_era.shares == shares
            &&& shares > u128::MAX ==> merged.no_era.shares == u128::MAX
            &&& balance <= u128::MAX ==> merged.no_era.balance == balance
            &&& balance > u128::MAX ==> merged.no_era.balance == u128::MAX
        }),
{
    lemma_within_nonnegative(pools.with_era, 0, current_era - max_unbonding + 1);
}

/// Unbonding takes the delegator's shares out of the primary pool and moves the funds to the pool of
/// the era, after older pools were merged. The delegator holds the shares that were issued there.
pub proof fn law_unbond_moves_the_funds(
    s: Storage,
    who: AccountId,
    primary_pool: Pool,
    current_era: EraIndex,
    amount: Balance,
    before: UnbondPool,
)
    requires
        ({
            let found = s.sub_pools_of(s.delegators[who].pool);
            before == if found.with_era.contains_key(current_era) && s.max_unbonding > 0 {
                found.with_era[current_era]
            } else {
                UnbondPool { shares: 0, balance: 0 }
            }
        }),
    ensures
        ({
            let t = s.unbonded(who, primary_pool, current_era, amount);
            let d = s.delegators[who];
            let e = t.delegators[who];
            let pool = t.primary_pools[d.pool];
            let found = s.sub_pools_of(d.pool);
            let merged = found.merged(current_era, s.max_unbonding);
            let stored = t.sub_pools[d.pool];
            let issued = issued_shares(before.balance, before.shares, amount);
            let after = stored.with_era[current_era];
            &&& t.delegators == s.delegators.insert(who, e)
            &&& e.pool == d.pool
            &&& e.shares == issued
            &&& e.reward_pool_total_earnings == d.reward_pool_total_earnings
            &&& e.unbonding_era == Some(current_era)
            &&& t.primary_pools == s.primary_pools.insert(d.pool, pool)
            &&& pool.account_id == primary_pool.account_id
            &&& primary_pool.shares >= d.shares ==> pool.shares == primary_pool.shares - d.shares
            &&& primary_pool.shares < d.shares ==> pool.shares == 0
            &&& t.sub_pools == s.sub_pools.insert(d.pool, stored)
            &&& stored.no_era == merged.no_era
            &&& stored.with_era == merged.with_era.insert(current_era, after)
            &&& before.balance + amount <= u128::MAX ==> after.balance == before.balance + amount
            &&& before.balance + amount > u128::MAX ==> after.balance == u128::MAX
            &&& before.shares + issued <= u128::MAX ==> after.shares == before.shares + issued
            &&& before.shares + issued > u128::MAX ==> after.shares == u128::MAX
            &&& t.events.len() == s.events.len() + 1
            &&& t.events.drop_last() == s.events
            &&& t.events.last() == (Event::Unbonded { delegator: who, pool: d.pool, amount })
            &&& t.reward_pools == s.reward_pools
            &&& t.pool_ids == s.pool_ids
            &&& t.max_unbonding == s.max_unbonding
        }),
{
    let t = s.unbonded(who, primary_pool, current_era, amount);
    assert(t.events.drop_last() =~= s.events);
}

/// A request to withdraw is refused for the first of these reasons that holds: the account is no
/// delegator, they are not unbonding, the bond duration has not passed, their pool does not exist.
/// Otherwise the funds come from the pool of the era in which they started to unbond, or from the
/// one without an era if there is none, at the price of a share of it, rounded down to eighteen
/// decimal places, and rounded down once more.
pub proof fn law_withdrawal_is_decided(
    s: Storage,
    who: AccountId,
    current_era: EraIndex,
    bond_duration: EraIndex,
    held: UnbondPool,
    price: u128,
)
    requires
        ({
            let pools = s.sub_pools_of(s.delegators[who].pool);
            held == if pools.with_era.contains_key(s.delegators[who].unbonding_era->0) {
                pools.with_era[s.delegators[who].unbonding_era->0]
            } else {
                pools.no_era
            }
        }),
        price * held.shares <= held.balance * 1_000_000_000_000_000_000,
        price == u128::MAX || held.balance * 1_000_000_000_000_000_000 < (price + 1) * held.shares
            || held.shares == 0,
    ensures
        ({
            let r = s.withdraw_unbonded(who, current_era, bond_duration);
            let member = s.delegators.contains_key(who);
            let d = s.delegators[who];
            let era = d.unbonding_era->0;
            let unbonding = d.unbonding_era is Some;
            let due = current_era - era >= bond_duration || bond_duration == 0;
            let exists_pool = s.primary_pools.contains_key(d.pool);
            let priced = held.shares > 0 || held.balance == 0 || d.shares == 0;
            &&& r == Err::<Withdrawal, Error>(Error::DelegatorNotFound) <==> !member
            &&& r == Err::<Withdrawal, Error>(Error::NotUnbonding) <==> member && !unbonding
            &&& r == Err::<Withdrawal, Error>(Error::NotUnbondedYet) <==> member && unbonding
                && !due
            &&& r == Err::<Withdrawal, Error>(Error::PoolNotFound) <==> member && unbonding && due
                && !exists_pool
            &&& r is Ok <==> member && unbonding && due && exists_pool
            &&& r matches Ok(w) ==> {
                &&& w.who == who
                &&& w.pool == d.pool
                &&& w.account_id == s.primary_pools[d.pool].account_id
                &&& w.era == if s.sub_pools_of(d.pool).with_era.contains_key(era) {
                    Some(era)
                } else {
                    None
                }
                &&& held.balance == 0 || d.shares == 0 ==> w.amount == 0
                &&& priced && held.balance > 0 && d.shares > 0 ==> w.amount
                    * 1_000_000_000_000_000_000 <= price * d.shares
                &&& priced && held.balance > 0 && d.shares > 0 ==> w.amount == u128::MAX || price
                    * d.shares < (w.amount + 1) * 1_000_000_000_000_000_000
                &&& w.remaining.shares == (if held.shares > d.shares {
                    held.shares - d.shares
                } else {
                    0
                })
                &&& w.remaining.balance == (if held.balance > w.amount {
                    held.balance - w.amount
                } else {
                    0
                })
            }
            // The one case in which the worth of the shares is not defined
            &&& !s.withdraw_unbonded_defined(who, current_era, bond_duration) <==> member
                && unbonding && due && !priced
            // The refusals that need no word of the staking system
            &&& s.unbonding_delegator(who) == Err::<Delegator, Error>(Error::DelegatorNotFound)
                <==> !member
            &&& s.unbonding_delegator(who) == Err::<Delegator, Error>(Error::NotUnbonding) <==> member
                && !unbonding
            &&& s.unbonding_delegator(who) is Ok <==> member && unbonding
            &&& s.unbonding_delegator(who) matches Ok(found) ==> found == d
        }),
{
    let d = s.delegators[who];
    if held.shares > 0 || held.balance == 0 || d.shares == 0 {
        law_shares_are_redeemed_at_the_price(held.balance, held.shares, d.shares, price);
    }
}

/// What is withdrawn is the delegator's part of the pool it comes from: no more than that, and short
/// of it by no more than two roundings, unless the price of a share does not fit.
pub proof fn law_withdrawal_is_pro_rata(
    s: Storage,
    who: AccountId,
    current_era: EraIndex,
    bond_duration: EraIndex,
    held: UnbondPool,
)
    requires
        s.withdraw_unbonded(who, current_era, bond_duration) is Ok,
        ({
            let pools = s.sub_pools_of(s.delegators[who].pool);
            held == if pools.with_era.contains_key(s.delegators[who].unbonding_era->0) {
                pools.with_era[s.delegators[who].unbonding_era->0]
            } else {
                pools.no_era
            }
        }),
        held.shares > 0,
    ensures
        ({
            let amount = s.withdraw_unbonded(who, current_era, bond_duration)->Ok_0.amount;
            let n = s.delegators[who].shares;
            &&& amount * held.shares <= held.balance * n
            &&& held.balance * 1_000_000_000_000_000_000 < (u128::MAX + 1) * held.shares && amount
                < u128::MAX ==> held.balance * n * 1_000_000_000_000_000_000 < (amount + 1)
                * held.shares * 1_000_000_000_000_000_000 + n * held.shares
        }),
{
    law_shares_are_redeemed_pro_rata(held.balance, held.shares, s.delegators[who].shares);
}

/// Withdrawn funds go from the pool's account to the delegator's, which may empty the former. The
/// delegator is removed, what remains of the sub pool is put in its place, and the funds are told of.
pub proof fn law_withdrawal_is_transferred_and_stored(s: Storage, w: Withdrawal)
    ensures
        w.spec_transfer().source == w.account_id,
        w.spec_transfer().dest == w.who,
        w.spec_transfer().value == w.amount,
        w.spec_transfer().requirement == ExistenceRequirement::AllowDeath,
        ({
            let t = s.withdrawn(w);
            let found = s.sub_pools_of(w.pool);
            let stored = t.sub_pools[w.pool];
            &&& t.delegators == s.delegators.remove(w.who)
            &&& t.sub_pools == s.sub_pools.insert(w.pool, stored)
            &&& w.era matches Some(era) ==> stored.with_era == found.with_era.insert(
                era,
                w.remaining,
            ) && stored.no_era == found.no_era
            &&& w.era is None ==> stored.with_era == found.with_era && stored.no_era == w.remaining
            &&& t.events.len() == s.events.len() + 1
            &&& t.events.drop_last() == s.events
            &&& t.events.last() == (Event::Withdrawn {
                delegator: w.who,
                pool: w.pool,
                amount: w.amount,
            })
            &&& t.primary_pools == s.primary_pools
            &&& t.reward_pools == s.reward_pools
            &&& t.pool_ids == s.pool_ids
            &&& t.max_unbonding == s.max_unbonding
        }),
{
    assert(s.withdrawn(w).events.drop_last() =~= s.events);
}

/// A slash reports a balance for every unbonding pool that it reaches and for no other era, and
/// stores just these balances.
pub proof fn law_slash_reports_what_it_stores(
    s: Storage,
    pool: PoolId,
    slash_amount: Balance,
    slash_era: EraIndex,
    apply_era: EraIndex,
    bonded_balance: Balance,
    outcome: (Balance, BTreeMap<EraIndex, Balance>),
)
    requires
        is_slash_outcome(
            s,
            pool,
            slash_amount,
            slash_era,
            apply_era,
            bonded_balance,
            outcome,
        ),
    ensures
        ({
            let parts = s.slash_multiplier(
                pool,
                slash_amount,
                slash_era,
                apply_era,
                bonded_balance,
            );
            let t = s.slashed(pool, slash_era, apply_era, parts);
            let found = s.sub_pools_of(pool).with_era;
            &&& forall|era: EraIndex| #[trigger]
                outcome.1@.contains_key(era) <==> found.contains_key(era) && slash_era < era
                    <= apply_era
            &&& forall|era: EraIndex| #[trigger]
                outcome.1@.contains_key(era) ==> t.sub_pools[pool].with_era.contains_key(era)
                    && outcome.1@[era] == t.sub_pools[pool].with_era[era].balance
        }),
{
}

/// A slash reaches what is bonded and what started to unbond after `slash_era` and up to
/// `apply_era`, and nothing else.
pub proof fn law_slash_reaches_these_funds(
    s: Storage,
    pool: PoolId,
    slash_era: EraIndex,
    apply_era: EraIndex,
    bonded_balance: Balance,
)
    ensures
        ({
            let reached = bonded_balance + balance_within(
                s.sub_pools_of(pool).with_era,
                slash_era + 1,
                apply_era + 1,
            );
            &&& reached <= u128::MAX ==> s.affected_balance(
                pool,
                slash_era,
                apply_era,
                bonded_balance,
            ) == reached
            &&& reached > u128::MAX ==> s.affected_balance(
                pool,
                slash_era,
                apply_era,
                bonded_balance,
            ) == u128::MAX
        }),
{
    lemma_within_nonnegative(s.sub_pools_of(pool).with_era, slash_era + 1, apply_era + 1);
}

/// Each balance of the eras `first` to `last` is scaled and rounded down, and reported; all other
/// balances, and all shares, stay the same.
pub proof fn law_balances_are_scaled_and_reported(
    pools: SubPools,
    first: int,
    last: int,
    parts: u128,
    era: EraIndex,
)
    ensures
        ({
            let slashed = pools.slashed(first, last, parts);
            let reported = pools.slashed_balances(first, last, parts);
            let (before, after) = (pools.with_era[era], slashed.with_era[era]);
            let reached = pools.with_era.contains_key(era) && first <= era <= last;
            &&& slashed.no_era == pools.no_era
            &&& slashed.with_era.contains_key(era) <==> pools.with_era.contains_key(era)
            &&& reported.contains_key(era) <==> reached
            &&& reached ==> reported[era] == after.balance
            &&& reached ==> after.balance * 1_000_000_000_000_000_000 <= parts * before.balance
            &&& reached ==> after.balance == u128::MAX || parts * before.balance < (after.balance
                + 1) * 1_000_000_000_000_000_000
            &&& pools.with_era.contains_key(era) ==> after.shares == before.shares
            &&& pools.with_era.contains_key(era) && !reached ==> after.balance == before.balance
        }),
{
    law_scaled_is_the_product(parts, pools.with_era[era].balance);
}

/// A slash takes the same ratio of all funds that it reaches: that is the slashed amount to these
/// funds, rounded down to eighteen decimal places. What is left of each balance is rounded down.
/// Shares, the pool without an era, pools of other eras, and all else that is stored stay the same.
pub proof fn law_slash_is_in_proportion(
    s: Storage,
    pool: PoolId,
    slash_amount: Balance,
    slash_era: EraIndex,
    apply_era: EraIndex,
    bonded_balance: Balance,
    outcome: (Balance, BTreeMap<EraIndex, Balance>),
    total: int,
    ratio: u128,
    left: int,
    era: EraIndex,
)
    requires
        is_slash_outcome(
            s,
            pool,
            slash_amount,
            slash_era,
            apply_era,
            bonded_balance,
            outcome,
        ),
        ({
            let reached = bonded_balance + balance_within(
                s.sub_pools_of(pool).with_era,
                slash_era + 1,
                apply_era + 1,
            );
            total == if reached > u128::MAX {
                u128::MAX as int
            } else {
                reached
            }
        }),
        0 < total,
        ratio * total <= slash_amount * 1_000_000_000_000_000_000,
        ratio == u128::MAX || slash_amount * 1_000_000_000_000_000_000 < (ratio + 1) * total,
        left == if ratio < 1_000_000_000_000_000_000 {
            1_000_000_000_000_000_000 - ratio
        } else {
            0
        },
    ensures
        s.affected_balance(pool, slash_era, apply_era, bonded_balance) == total,
        s.slash_multiplier(pool, slash_amount, slash_era, apply_era, bonded_balance) == left,
        outcome.0 * 1_000_000_000_000_000_000 <= left * bonded_balance,
        left * bonded_balance < (outcome.0 + 1) * 1_000_000_000_000_000_000,
        ({
            let t = s.slashed(pool, slash_era, apply_era, left as u128);
            let found = s.sub_pools_of(pool);
            let stored = t.sub_pools[pool];
            let (before, after) = (found.with_era[era], stored.with_era[era]);
            &&& t.sub_pools == s.sub_pools.insert(pool, stored)
            &&& stored.no_era == found.no_era
            &&& stored.with_era.contains_key(era) <==> found.with_era.contains_key(era)
            &&& found.with_era.contains_key(era) ==> after.shares == before.shares
            &&& found.with_era.contains_key(era) && !(slash_era < era <= apply_era)
                ==> after.balance == before.balance
            &&& found.with_era.contains_key(era) && slash_era < era <= apply_era ==> after.balance
                * 1_000_000_000_000_000_000 <= left * before.balance && left * before.balance < (
            after.balance + 1) * 1_000_000_000_000_000_000
            &&& t.delegators == s.delegators
            &&& t.primary_pools == s.primary_pools
            &&& t.reward_pools == s.reward_pools
            &&& t.pool_ids == s.pool_ids
            &&& t.events == s.events
            &&& t.max_unbonding == s.max_unbonding
        }),
{
    let found = s.sub_pools_of(pool).with_era;
    lemma_within_nonnegative(found, slash_era + 1, apply_era + 1);
    lemma_ratio_is_unique(slash_amount, total as u128, ratio);
    law_complement_makes_up_one(ratio);
    let parts = left as u128;
    assert(parts == s.slash_multiplier(pool, slash_amount, slash_era, apply_era, bonded_balance));
    law_scaled_is_the_product(parts, bonded_balance);
    lemma_scaled_at_most_one_fits(parts, bonded_balance);
    law_scaled_is_the_product(parts, found[era].balance);
    lemma_scaled_at_most_one_fits(parts, found[era].balance);
}

/// Scaling by at most one rounds down, also where the largest number is scaled.
proof fn lemma_scaled_at_most_one_fits(parts: u128, n: u128)
    requires
        parts <= ACCURACY,
    ensures
        parts * n < (scaled(parts, n) + 1) * ACCURACY,
{
    law_scaled_is_the_product(parts, n);
    assert(parts * n <= ACCURACY * n) by (nonlinear_arith)
        requires
            parts <= ACCURACY,
    ;
}

} // verus!
