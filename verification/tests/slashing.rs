use pools::{Pallet, Pool, StakingInterface, SubPoolsContainer, UnbondPool};
use sp_runtime::DispatchError;

struct Bonded<const N: u128>;

impl<const N: u128> StakingInterface for Bonded<N> {
    type Balance = u128;
    type AccountId = u64;

    fn minimum_bond() -> u128 {
        0
    }

    fn current_era() -> u32 {
        0
    }

    fn bonded_balance(_controller: &u64) -> u128 {
        N
    }

    fn bond_extra(_controller: &u64, _extra: u128) -> Result<(), DispatchError> {
        Ok(())
    }

    fn unbond(_controller: &u64, _value: u128) -> Result<(), DispatchError> {
        Ok(())
    }

    fn bond_duration() -> u32 {
        0
    }
}

fn balance(pallet: &Pallet, era: u32) -> u128 {
    pallet.sub_pools[&7].get(era).unwrap().balance
}

/// A pool with 100 unbonding in each of the eras 3 to 6, and 1000 without an era.
fn pallet() -> Pallet {
    let mut pallet = Pallet::new(5);
    pallet.pool_ids.insert(100, 7);
    pallet.primary_pools.insert(7, Pool { shares: 200, account_id: 100 });
    let mut pools = SubPoolsContainer::default();
    for era in 3..=6u32 {
        pools.set(era, UnbondPool { shares: 50, balance: 100 });
    }
    pools.no_era = UnbondPool { shares: 1, balance: 1000 };
    pallet.sub_pools.insert(7, pools);
    pallet
}

#[test]
fn slash_is_in_proportion() {
    let mut pallet = pallet();
    // 200 bonded and 200 unbonding since the eras 4 and 5: half is slashed
    let (bonded, unbonding) = pallet.do_slash(&100, 200, 3, 5, 200).unwrap();
    assert_eq!(bonded, 100);
    assert_eq!(unbonding.into_iter().collect::<Vec<_>>(), vec![(4, 50), (5, 50)]);
    assert_eq!(balance(&pallet, 3), 100);
    assert_eq!(balance(&pallet, 4), 50);
    assert_eq!(balance(&pallet, 5), 50);
    assert_eq!(balance(&pallet, 6), 100);
    assert_eq!(pallet.sub_pools[&7].get(4).unwrap().shares, 50);
    assert_eq!(pallet.sub_pools[&7].no_era, UnbondPool { shares: 1, balance: 1000 });
    assert_eq!(pallet.primary_pools[&7].shares, 200);
    assert!(pallet.events.is_empty());
}

#[test]
fn slash_pool_asks_for_the_bonded_balance() {
    let mut pallet = pallet();
    let (bonded, unbonding) = pallet.slash_pool::<Bonded<300>>(&100, 100, 3, 5).unwrap();
    assert_eq!(bonded, 240);
    assert_eq!(unbonding.into_iter().collect::<Vec<_>>(), vec![(4, 80), (5, 80)]);
}

#[test]
fn slash_rounds_down_what_is_left() {
    let mut pallet = pallet();
    let (bonded, unbonding) = pallet.do_slash(&100, 100, 3, 4, 200).unwrap();
    // Two thirds of each balance are left; a third in parts is short of a third
    assert_eq!(bonded, 133);
    assert_eq!(unbonding.into_iter().collect::<Vec<_>>(), vec![(4, 66)]);
    let taken = 300 - 133 - 66;
    assert!(taken <= 100 + 1);
    assert!(taken >= 100);
}

#[test]
fn slash_of_nothing() {
    let mut pallet = pallet();
    let (bonded, unbonding) = pallet.do_slash(&100, 0, 2, 6, 77).unwrap();
    assert_eq!(bonded, 77);
    assert_eq!(unbonding.into_iter().map(|(_, b)| b).collect::<Vec<_>>(), vec![100; 4]);
}

#[test]
fn slash_of_everything() {
    let mut pallet = pallet();
    let (bonded, unbonding) = pallet.do_slash(&100, 100_000, 2, 6, 77).unwrap();
    assert_eq!(bonded, 0);
    assert_eq!(unbonding.into_iter().map(|(_, b)| b).collect::<Vec<_>>(), vec![0; 4]);
    assert_eq!(pallet.sub_pools[&7].no_era.balance, 1000);
}

#[test]
fn slash_applied_in_the_era_of_its_report() {
    let mut pallet = pallet();
    let (bonded, unbonding) = pallet.do_slash(&100, 50, 5, 5, 200).unwrap();
    assert_eq!(bonded, 150);
    assert!(unbonding.is_empty());
    assert_eq!(balance(&pallet, 5), 100);
}

#[test]
fn slash_without_sub_pools_stores_an_empty_group() {
    let mut pallet = pallet();
    pallet.sub_pools.remove(&7);
    assert_eq!(pallet.slashable_balance(&100, 3, 5, 200), Some(200));
    let (bonded, unbonding) = pallet.do_slash(&100, 50, 3, 5, 200).unwrap();
    assert_eq!(bonded, 150);
    assert!(unbonding.is_empty());
    assert!(pallet.sub_pools.contains_key(&7));
}

#[test]
fn no_pool_to_slash() {
    let mut pallet = pallet();
    assert_eq!(pallet.do_slash(&101, 50, 3, 5, 200), None);
    assert_eq!(pallet.slash_pool::<Bonded<200>>(&101, 50, 3, 5), None);
    assert_eq!(pallet.slashable_balance(&101, 3, 5, 200), None);
    assert_eq!(balance(&pallet, 4), 100);
}

#[test]
fn no_funds_to_slash() {
    let mut pallet = pallet();
    assert_eq!(pallet.slashable_balance(&100, 6, 9, 0), Some(0));
    assert_eq!(pallet.slash_pool::<Bonded<0>>(&100, 50, 6, 9), None);
    assert_eq!(pallet.slashable_balance(&100, 3, 5, 7), Some(207));
}

#[test]
fn merging_spares_the_pools_of_a_deferred_slash() {
    let mut pallet = pallet();
    // Reported in era 3 and applied in era 7, four eras later, with pools that exist for five
    assert_eq!(pallet.slashable_balance(&100, 3, 7, 200), Some(500));
    let pools = pallet.sub_pools.remove(&7).unwrap().maybe_merge_pools(7, 5);
    pallet.sub_pools.insert(7, pools);
    assert_eq!(pallet.slashable_balance(&100, 3, 7, 200), Some(500));
    let pools = pallet.sub_pools.remove(&7).unwrap().maybe_merge_pools(9, 5);
    pallet.sub_pools.insert(7, pools);
    assert_eq!(pallet.slashable_balance(&100, 3, 7, 200), Some(400));
}

#[test]
fn slash_of_an_unknown_account_in_any_era() {
    let mut pallet = pallet();
    assert_eq!(pallet.do_slash(&101, 10, u32::MAX, 3, 200), None);
    assert_eq!(pallet.slashable_balance(&101, u32::MAX, 3, 200), None);
    assert_eq!(pallet.slash_pool::<Bonded<200>>(&101, 10, u32::MAX, 3), None);
    assert_eq!(balance(&pallet, 3), 100);
}

#[test]
fn slash_of_funds_of_exactly_one_takes_all_it_is_for() {
    let mut pallet = Pallet::new(5);
    pallet.pool_ids.insert(100, 7);
    let one = 1_000_000_000_000_000_000u128;
    let (bonded, unbonding) = pallet.do_slash(&100, 7, 3, 5, one).unwrap();
    assert_eq!(bonded, one - 7);
    assert!(unbonding.is_empty());
}
