use pools::{
    Delegator, Error, Event, ExistenceRequirement, Pallet, Pool, RewardPool, StakingInterface,
    SubPoolsContainer, Transfer, UnbondPool,
};
use sp_runtime::DispatchError;

const POOL_ACCOUNT: u64 = 100;
const REWARD_ACCOUNT: u64 = 200;
const WHO: u64 = 1;
const OTHER: u64 = 2;

/// A staking system in era `ERA`, with `BONDED` bonded for the pool, that takes `AMOUNT` only.
struct Staking<const ERA: u32, const BONDED: u128, const AMOUNT: u128>;

impl<const ERA: u32, const BONDED: u128, const AMOUNT: u128> StakingInterface
    for Staking<ERA, BONDED, AMOUNT>
{
    type Balance = u128;
    type AccountId = u64;

    fn minimum_bond() -> u128 {
        10
    }

    fn current_era() -> u32 {
        ERA
    }

    fn bonded_balance(controller: &u64) -> u128 {
        assert_eq!(*controller, POOL_ACCOUNT);
        BONDED
    }

    fn bond_extra(controller: &u64, extra: u128) -> Result<(), DispatchError> {
        if *controller == POOL_ACCOUNT && extra == AMOUNT {
            Ok(())
        } else {
            Err(DispatchError::Other("bond_extra"))
        }
    }

    fn unbond(controller: &u64, value: u128) -> Result<(), DispatchError> {
        if *controller == POOL_ACCOUNT && value == AMOUNT {
            Ok(())
        } else {
            Err(DispatchError::Other("unbond"))
        }
    }

    fn bond_duration() -> u32 {
        3
    }
}

fn delegator(shares: u128, earnings: u128) -> Delegator {
    Delegator { pool: 7, shares, reward_pool_total_earnings: earnings, unbonding_era: None }
}

fn unbonding(shares: u128, era: u32) -> Delegator {
    Delegator { unbonding_era: Some(era), ..delegator(shares, 0) }
}

/// One pool without members.
fn empty_pool() -> Pallet {
    let mut pallet = Pallet::new(5);
    pallet.pool_ids.insert(POOL_ACCOUNT, 7);
    pallet.primary_pools.insert(7, Pool { shares: 0, account_id: POOL_ACCOUNT });
    pallet.reward_pools.insert(
        7,
        RewardPool { balance: 0, shares: 0, total_earnings: 0, account_id: REWARD_ACCOUNT },
    );
    pallet
}

/// One pool with the members `WHO` with 30 shares and `OTHER` with 10.
fn two_members() -> Pallet {
    let mut pallet = empty_pool();
    pallet.delegators.insert(WHO, delegator(30, 0));
    pallet.delegators.insert(OTHER, delegator(10, 0));
    pallet.primary_pools.insert(7, Pool { shares: 40, account_id: POOL_ACCOUNT });
    pallet
}

#[test]
fn join_stores_the_delegator() {
    let mut pallet = empty_pool();
    let joining = pallet.join::<Staking<0, 0, 20>>(WHO, 20, 7, 0, 0).unwrap();
    assert_eq!(
        joining.transfer(),
        Transfer {
            source: WHO,
            dest: POOL_ACCOUNT,
            value: 20,
            requirement: ExistenceRequirement::KeepAlive,
        }
    );
    assert!(pallet.delegators.is_empty());
    assert_eq!(pallet.finish_join::<Staking<0, 0, 20>>(joining, 20), Ok(()));
    assert_eq!(pallet.delegators.get(&WHO), Some(&delegator(20, 0)));
    assert_eq!(pallet.primary_pools[&7], Pool { shares: 20, account_id: POOL_ACCOUNT });
    assert_eq!(pallet.events, vec![Event::Joined { delegator: WHO, pool: 7, bonded: 20 }]);
}

#[test]
fn join_issues_shares_at_the_price() {
    let mut pallet = two_members();
    let joining = pallet.join::<Staking<0, 80, 20>>(5, 20, 7, 1, 6).unwrap();
    assert_eq!(pallet.finish_join::<Staking<0, 80, 20>>(joining, 21), Ok(()));
    // 40 shares for 80 bonded; the earnings up to now are not theirs
    assert_eq!(pallet.delegators.get(&5), Some(&delegator(10, 6)));
    assert_eq!(pallet.primary_pools[&7].shares, 50);
    // The reward pool is not written
    assert_eq!(pallet.reward_pools[&7].total_earnings, 0);
}

#[test]
fn join_bonds_what_arrived() {
    let mut pallet = empty_pool();
    let joining = pallet.join::<Staking<0, 0, 15>>(WHO, 20, 7, 5, 0).unwrap();
    // 5 of the 20 were lost on the way
    assert_eq!(pallet.finish_join::<Staking<0, 0, 15>>(joining, 20), Ok(()));
    assert_eq!(pallet.events, vec![Event::Joined { delegator: WHO, pool: 7, bonded: 15 }]);
}

#[test]
fn join_that_is_not_bonded_stores_nothing() {
    let mut pallet = empty_pool();
    let joining = pallet.join::<Staking<0, 0, 1>>(WHO, 20, 7, 0, 0).unwrap();
    assert_eq!(
        pallet.finish_join::<Staking<0, 0, 1>>(joining, 20),
        Err(DispatchError::Other("bond_extra"))
    );
    assert!(pallet.delegators.is_empty());
    assert_eq!(pallet.primary_pools[&7].shares, 0);
    assert!(pallet.events.is_empty());
}

#[test]
fn join_refusals() {
    let mut pallet = two_members();
    assert_eq!(
        pallet.join::<Staking<0, 0, 0>>(WHO, 20, 7, 0, 0),
        Err(Error::AccountBelongsToOtherPool)
    );
    // That comes before all other refusals
    assert_eq!(
        pallet.join::<Staking<0, 0, 0>>(WHO, 0, 8, 0, 0),
        Err(Error::AccountBelongsToOtherPool)
    );
    assert_eq!(pallet.join::<Staking<0, 0, 0>>(5, 20, 8, 0, 0), Err(Error::PoolNotFound));
    assert_eq!(pallet.join::<Staking<0, 0, 0>>(5, 6, 7, 3, 0), Err(Error::InsufficientBond));
    assert!(pallet.join::<Staking<0, 0, 0>>(5, 6, 7, 4, 0).is_ok());
    pallet.reward_pools.remove(&7);
    assert_eq!(pallet.join::<Staking<0, 0, 0>>(5, 6, 7, 3, 0), Err(Error::InsufficientBond));
    assert_eq!(pallet.join::<Staking<0, 0, 0>>(5, 6, 7, 4, 0), Err(Error::RewardPoolNotFound));
}

#[test]
fn one_pool_per_account() {
    let mut pallet = empty_pool();
    pallet.primary_pools.insert(8, Pool { shares: 0, account_id: 101 });
    let joining = pallet.decide_join(WHO, 20, 7, 0, 10, 0).unwrap();
    pallet.record_join(joining, 20, 20);
    assert_eq!(pallet.decide_join(WHO, 20, 7, 20, 10, 0), Err(Error::AccountBelongsToOtherPool));
    assert_eq!(pallet.decide_join(WHO, 20, 8, 20, 10, 0), Err(Error::AccountBelongsToOtherPool));
}

#[test]
fn update_counts_what_came_in() {
    let pool = RewardPool { balance: 10, shares: 3, total_earnings: 50, account_id: 9 };
    let updated = pool.update_total_earnings_and_balance(25);
    assert_eq!(
        updated,
        RewardPool { balance: 25, shares: 3, total_earnings: 65, account_id: 9 }
    );
    // Less than before is no negative income
    assert_eq!(pool.update_total_earnings_and_balance(4).total_earnings, 50);
    assert_eq!(pool.update_total_earnings_and_balance(4).balance, 4);
    // And the sum stops at the largest number
    let rich = RewardPool { total_earnings: u128::MAX - 1, ..pool };
    assert_eq!(rich.update_total_earnings_and_balance(25).total_earnings, u128::MAX);
}

#[test]
fn claim_pays_the_part_of_the_shares() {
    let mut pallet = two_members();
    let payout = pallet.claim_payout(WHO, 100).unwrap();
    assert_eq!(payout.amount, 75);
    assert_eq!(
        payout.transfer(),
        Transfer {
            source: REWARD_ACCOUNT,
            dest: WHO,
            value: 75,
            requirement: ExistenceRequirement::AllowDeath,
        }
    );
    pallet.finish_payout(payout);
    assert_eq!(pallet.delegators[&WHO], delegator(30, 100));
    assert_eq!(
        pallet.reward_pools[&7],
        RewardPool { balance: 25, shares: 1000, total_earnings: 100, account_id: REWARD_ACCOUNT }
    );
    assert_eq!(pallet.events, vec![Event::PaidOut { delegator: WHO, pool: 7, payout: 75 }]);
    // The rest is left for the other member, and what has come in since is shared, rounded down
    let payout = pallet.claim_payout(OTHER, 25 + 40).unwrap();
    assert_eq!(payout.amount, 34);
    pallet.finish_payout(payout);
    let payout = pallet.claim_payout(WHO, 31).unwrap();
    assert_eq!(payout.amount, 31);
    pallet.finish_payout(payout);
    assert_eq!(
        pallet.reward_pools[&7],
        RewardPool { balance: 0, shares: 0, total_earnings: 140, account_id: REWARD_ACCOUNT }
    );
}

#[test]
fn claims_of_equal_age_are_pro_rata() {
    let pallet = two_members();
    let first = pallet.claim_payout(WHO, 200).unwrap();
    let second = pallet.claim_payout(OTHER, 200).unwrap();
    assert_eq!((first.amount, second.amount), (150, 50));
}

#[test]
fn nothing_to_claim_twice() {
    let mut pallet = two_members();
    let payout = pallet.claim_payout(WHO, 100).unwrap();
    pallet.finish_payout(payout);
    let again = pallet.claim_payout(WHO, 25).unwrap();
    assert_eq!(again.amount, 0);
    assert_eq!(again.reward_pool, payout.reward_pool);
}

#[test]
fn no_rewards_from_before_joining() {
    let mut pallet = two_members();
    let joining = pallet.decide_join(5, 20, 7, 40, 10, 100).unwrap();
    pallet.record_join(joining, 60, 20);
    assert_eq!(pallet.claim_payout(5, 100).unwrap().amount, 0);
}

#[test]
fn payouts_stop_at_what_fits() {
    let mut pallet = two_members();
    pallet.primary_pools.insert(7, Pool { shares: u128::MAX, account_id: POOL_ACCOUNT });
    let payout = pallet.claim_payout(WHO, 100).unwrap();
    assert_eq!(payout.reward_pool.shares, u128::MAX - 3000);
    assert_eq!(payout.amount, 0);
}

#[test]
fn claim_with_nothing_earned() {
    let mut pallet = two_members();
    let before = pallet.reward_pools[&7];
    let payout = pallet.claim_payout(WHO, 0).unwrap();
    assert_eq!(payout.amount, 0);
    pallet.finish_payout(payout);
    assert_eq!(pallet.delegators[&WHO], delegator(30, 0));
    assert_eq!(pallet.reward_pools[&7], before);
    assert_eq!(pallet.events, vec![Event::PaidOut { delegator: WHO, pool: 7, payout: 0 }]);
}

#[test]
fn sole_member_claims_again_and_unbonds() {
    let mut pallet = empty_pool();
    pallet.delegators.insert(WHO, delegator(100, 0));
    pallet.primary_pools.insert(7, Pool { shares: 100, account_id: POOL_ACCOUNT });
    let payout = pallet.claim_payout(WHO, 60).unwrap();
    assert_eq!(payout.amount, 60);
    pallet.finish_payout(payout);
    assert_eq!(
        pallet.reward_pools[&7],
        RewardPool { balance: 0, shares: 0, total_earnings: 60, account_id: REWARD_ACCOUNT }
    );
    // No reward shares are left, and nothing has come in since
    assert_eq!(pallet.claim_payout(WHO, 0).unwrap().amount, 0);
    let request = pallet.unbond(WHO, 0).unwrap();
    assert_eq!(request.payout.amount, 0);
    assert_eq!(pallet.finish_unbond::<Staking<4, 100, 100>>(request), Ok(()));
    assert_eq!(pallet.sub_pools[&7].get(4), Some(UnbondPool { shares: 100, balance: 100 }));
}

#[test]
fn claim_refusals() {
    let mut pallet = two_members();
    assert_eq!(pallet.claim_payout(5, 100), Err(Error::DelegatorNotFound));
    assert_eq!(pallet.unbond(5, 100), Err(Error::DelegatorNotFound));
    pallet.delegators.insert(WHO, unbonding(30, 3));
    assert_eq!(pallet.claim_payout(WHO, 100), Err(Error::AlreadyUnbonding));
    assert_eq!(pallet.unbond(WHO, 100), Err(Error::AlreadyUnbonding));
    pallet.reward_pools.remove(&7);
    assert_eq!(pallet.claim_payout(WHO, 100), Err(Error::RewardPoolNotFound));
    pallet.primary_pools.remove(&7);
    assert_eq!(pallet.claim_payout(WHO, 100), Err(Error::PoolNotFound));
    assert_eq!(pallet.unbond(WHO, 100), Err(Error::PoolNotFound));
    assert!(pallet.events.is_empty());
}

#[test]
fn calculate_delegator_payout_refuses_the_unbonding() {
    let pallet = two_members();
    assert_eq!(
        Pallet::calculate_delegator_payout(
            &pallet.primary_pools[&7],
            pallet.reward_pools[&7],
            unbonding(30, 1),
            100
        ),
        Err(Error::AlreadyUnbonding)
    );
}

#[test]
fn unbond_moves_the_shares() {
    let mut pallet = two_members();
    let request = pallet.unbond(WHO, 100).unwrap();
    assert_eq!(request.transfer().value, 75);
    assert_eq!(request.transfer().dest, WHO);
    // 40 shares for 80 bonded: 30 shares are worth 60
    assert_eq!(pallet.finish_unbond::<Staking<4, 80, 60>>(request), Ok(()));
    assert_eq!(pallet.primary_pools[&7].shares, 10);
    assert_eq!(
        pallet.delegators[&WHO],
        Delegator {
            pool: 7,
            shares: 60,
            reward_pool_total_earnings: 100,
            unbonding_era: Some(4),
        }
    );
    assert_eq!(pallet.sub_pools[&7].get(4), Some(UnbondPool { shares: 60, balance: 60 }));
    assert_eq!(
        pallet.events,
        vec![
            Event::PaidOut { delegator: WHO, pool: 7, payout: 75 },
            Event::Unbonded { delegator: WHO, pool: 7, amount: 60 },
        ]
    );
    assert_eq!(pallet.claim_payout(WHO, 25), Err(Error::AlreadyUnbonding));
}

#[test]
fn unbond_that_staking_refuses_only_pays_out() {
    let mut pallet = two_members();
    let request = pallet.unbond(WHO, 100).unwrap();
    assert_eq!(
        pallet.finish_unbond::<Staking<4, 80, 1>>(request),
        Err(DispatchError::Other("unbond"))
    );
    assert_eq!(pallet.delegators[&WHO], delegator(30, 100));
    assert_eq!(pallet.primary_pools[&7].shares, 40);
    assert!(pallet.sub_pools.is_empty());
    assert_eq!(pallet.events, vec![Event::PaidOut { delegator: WHO, pool: 7, payout: 75 }]);
}

#[test]
fn unbond_merges_older_pools() {
    let mut pallet = two_members();
    let mut pools = SubPoolsContainer::default();
    for era in 1..=9u32 {
        pools.set(era, UnbondPool { shares: 1, balance: 2 });
    }
    pallet.sub_pools.insert(7, pools);
    pallet.record_unbond(WHO, Pool { shares: 40, account_id: POOL_ACCOUNT }, 10, 30);
    let pools = &pallet.sub_pools[&7];
    assert_eq!(pools.with_era.keys().cloned().collect::<Vec<_>>(), vec![6, 7, 8, 9, 10]);
    assert_eq!(pools.no_era, UnbondPool { shares: 5, balance: 10 });
    assert_eq!(pools.get(10), Some(UnbondPool { shares: 30, balance: 30 }));
}

#[test]
fn unbond_from_a_pool_without_funds() {
    let mut pallet = two_members();
    let request = pallet.unbond(WHO, 100).unwrap();
    assert_eq!(pallet.finish_unbond::<Staking<4, 0, 0>>(request), Ok(()));
    assert_eq!(pallet.delegators[&WHO].shares, 0);
    assert_eq!(pallet.sub_pools[&7].get(4), Some(UnbondPool { shares: 0, balance: 0 }));
}

#[test]
fn withdraw_from_the_pool_of_the_era() {
    let mut pallet = two_members();
    pallet.delegators.insert(WHO, unbonding(60, 4));
    let mut pools = SubPoolsContainer::default();
    pools.set(4, UnbondPool { shares: 90, balance: 45 });
    pools.set(7, UnbondPool { shares: 5, balance: 5 });
    pallet.sub_pools.insert(7, pools);
    assert!(pallet.is_withdraw_defined(WHO, 7, 3));
    let withdrawal = pallet.withdraw_unbonded::<Staking<7, 0, 0>>(WHO).unwrap();
    assert_eq!(
        withdrawal.transfer(),
        Transfer {
            source: POOL_ACCOUNT,
            dest: WHO,
            value: 30,
            requirement: ExistenceRequirement::AllowDeath,
        }
    );
    // Nothing is stored before the transfer was made
    assert!(pallet.delegators.contains_key(&WHO));
    pallet.finish_withdraw(withdrawal);
    assert!(!pallet.delegators.contains_key(&WHO));
    assert_eq!(pallet.sub_pools[&7].get(4), Some(UnbondPool { shares: 30, balance: 15 }));
    assert_eq!(pallet.sub_pools[&7].get(7), Some(UnbondPool { shares: 5, balance: 5 }));
    assert_eq!(pallet.events, vec![Event::Withdrawn { delegator: WHO, pool: 7, amount: 30 }]);
    // The account may join again
    assert!(pallet.decide_join(WHO, 20, 7, 0, 10, 0).is_ok());
}

#[test]
fn withdraw_from_the_pool_without_an_era() {
    let mut pallet = two_members();
    pallet.delegators.insert(WHO, unbonding(60, 4));
    let mut pools = SubPoolsContainer::default();
    pools.no_era = UnbondPool { shares: 120, balance: 100 };
    pools.set(30, UnbondPool { shares: 5, balance: 5 });
    pallet.sub_pools.insert(7, pools);
    let withdrawal = pallet.withdraw_unbonded::<Staking<30, 0, 0>>(WHO).unwrap();
    assert_eq!(withdrawal.era, None);
    // Half of the shares, at a ratio that is rounded down
    assert_eq!(withdrawal.amount, 49);
    pallet.finish_withdraw(withdrawal);
    assert_eq!(pallet.sub_pools[&7].no_era, UnbondPool { shares: 60, balance: 51 });
    assert_eq!(pallet.sub_pools[&7].get(30), Some(UnbondPool { shares: 5, balance: 5 }));
}

#[test]
fn withdraw_without_sub_pools() {
    let mut pallet = two_members();
    pallet.delegators.insert(WHO, unbonding(60, 4));
    let withdrawal = pallet.decide_withdraw(WHO, 7, 3).unwrap();
    assert_eq!(withdrawal.amount, 0);
    pallet.finish_withdraw(withdrawal);
    assert!(pallet.sub_pools.contains_key(&7));
}

#[test]
fn withdraw_refusals() {
    let mut pallet = two_members();
    assert_eq!(
        pallet.withdraw_unbonded::<Staking<7, 0, 0>>(5),
        Err(Error::DelegatorNotFound)
    );
    assert_eq!(pallet.withdraw_unbonded::<Staking<7, 0, 0>>(WHO), Err(Error::NotUnbonding));
    pallet.delegators.insert(WHO, unbonding(60, 4));
    assert_eq!(pallet.withdraw_unbonded::<Staking<6, 0, 0>>(WHO), Err(Error::NotUnbondedYet));
    assert_eq!(pallet.withdraw_unbonded::<Staking<1, 0, 0>>(WHO), Err(Error::NotUnbondedYet));
    assert!(pallet.withdraw_unbonded::<Staking<7, 0, 0>>(WHO).is_ok());
    pallet.primary_pools.remove(&7);
    assert_eq!(pallet.withdraw_unbonded::<Staking<7, 0, 0>>(WHO), Err(Error::PoolNotFound));
    // A refused delegator is still there
    assert!(pallet.delegators.contains_key(&WHO));
}

#[test]
fn withdraw_needs_a_price() {
    let mut pallet = two_members();
    pallet.delegators.insert(WHO, unbonding(60, 4));
    let mut pools = SubPoolsContainer::default();
    pools.set(4, UnbondPool { shares: 0, balance: 5 });
    pallet.sub_pools.insert(7, pools);
    assert!(!pallet.is_withdraw_defined(WHO, 7, 3));
    assert!(pallet.is_withdraw_defined(WHO, 6, 3));
    assert!(pallet.is_withdraw_defined(OTHER, 7, 3));
}

#[test]
fn unbond_then_withdraw_gives_all_back() {
    let mut pallet = two_members();
    pallet.record_unbond(WHO, Pool { shares: 40, account_id: POOL_ACCOUNT }, 4, 61);
    assert_eq!(pallet.decide_withdraw(WHO, 6, 3), Err(Error::NotUnbondedYet));
    assert_eq!(pallet.decide_withdraw(WHO, 7, 3).unwrap().amount, 61);
}

#[test]
fn books_add_up_from_join_to_withdrawal() {
    let mut pallet = empty_pool();
    for (who, amount) in [(1u64, 100u128), (2, 50), (3, 30)] {
        let joining = pallet.decide_join(who, amount, 7, 0, 10, 0).unwrap();
        pallet.record_join(joining, amount, amount);
    }
    assert_eq!(pallet.primary_pools[&7].shares, 180);
    let mut free = 900u128;
    for (who, paid) in [(1u64, 499u128), (2, 250), (3, 151)] {
        let payout = pallet.claim_payout(who, free).unwrap();
        assert_eq!(payout.amount, paid);
        free -= payout.amount;
        pallet.finish_payout(payout);
        assert_eq!(pallet.reward_pools[&7].balance, free);
    }
    assert_eq!(free, 0);
    assert_eq!(pallet.reward_pools[&7].shares, 0);
    let pool = pallet.primary_pools[&7];
    pallet.record_unbond(1, pool, 4, 100);
    let pool = pallet.primary_pools[&7];
    pallet.record_unbond(2, pool, 4, 50);
    assert_eq!(pallet.primary_pools[&7].shares, 30);
    let held = pallet.sub_pools[&7].get(4).unwrap();
    assert_eq!(held.shares, pallet.delegators[&1].shares + pallet.delegators[&2].shares);
    let withdrawal = pallet.decide_withdraw(1, 9, 3).unwrap();
    pallet.finish_withdraw(withdrawal);
    assert_eq!(pallet.sub_pools[&7].get(4).unwrap().shares, pallet.delegators[&2].shares);
}

/// A staking system that must not be asked for anything.
struct Unreachable;

impl StakingInterface for Unreachable {
    type Balance = u128;
    type AccountId = u64;

    fn minimum_bond() -> u128 {
        panic!("minimum_bond")
    }

    fn current_era() -> u32 {
        panic!("current_era")
    }

    fn bonded_balance(_controller: &u64) -> u128 {
        panic!("bonded_balance")
    }

    fn bond_extra(_controller: &u64, _extra: u128) -> Result<(), DispatchError> {
        panic!("bond_extra")
    }

    fn unbond(_controller: &u64, _value: u128) -> Result<(), DispatchError> {
        panic!("unbond")
    }

    fn bond_duration() -> u32 {
        panic!("bond_duration")
    }
}

#[test]
fn refusals_that_do_not_depend_on_the_staking_system() {
    let mut pallet = two_members();
    assert_eq!(
        pallet.join::<Unreachable>(WHO, 20, 7, 0, 0),
        Err(Error::AccountBelongsToOtherPool)
    );
    assert_eq!(pallet.join::<Unreachable>(5, 20, 8, 0, 0), Err(Error::PoolNotFound));
    assert_eq!(pallet.withdraw_unbonded::<Unreachable>(5), Err(Error::DelegatorNotFound));
    assert_eq!(pallet.withdraw_unbonded::<Unreachable>(WHO), Err(Error::NotUnbonding));
    assert_eq!(pallet.slash_pool::<Unreachable>(&101, 10, 3, 5), None);
}

#[test]
fn join_is_priced_at_the_balance_before_bonding() {
    let mut pallet = two_members();
    let joining = pallet.decide_join(5, 20, 7, 0, 10, 0).unwrap();
    assert_eq!(pallet.bond_join::<Staking<0, 100, 20>>(joining, 20, 80), Ok(()));
    // 40 shares for the 80 that were bonded before
    assert_eq!(pallet.delegators[&5].shares, 10);
    assert_eq!(pallet.primary_pools[&7].shares, 50);
}

#[test]
fn withdraw_gives_all_back_at_par() {
    let mut pallet = two_members();
    let mut pools = SubPoolsContainer::default();
    pools.set(4, UnbondPool { shares: 90, balance: 90 });
    pallet.sub_pools.insert(7, pools);
    pallet.record_unbond(WHO, Pool { shares: 40, account_id: POOL_ACCOUNT }, 4, 61);
    assert_eq!(pallet.delegators[&WHO].shares, 61);
    assert_eq!(pallet.decide_withdraw(WHO, 7, 3).unwrap().amount, 61);
}
