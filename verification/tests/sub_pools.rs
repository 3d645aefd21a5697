use pools::fixed::{Ratio, ACCURACY};
use pools::{SubPoolsContainer, UnbondPool};

fn pool(shares: u128, balance: u128) -> UnbondPool {
    UnbondPool { shares, balance }
}

fn pools_of_eras(first: u32, last: u32) -> SubPoolsContainer {
    let mut pools = SubPoolsContainer::default();
    for era in first..=last {
        pools.set(era, pool(era as u128, 10 * era as u128));
    }
    pools
}

fn eras(pools: &SubPoolsContainer) -> Vec<u32> {
    pools.with_era.keys().cloned().collect()
}

#[test]
fn starts_without_funds() {
    let pools = SubPoolsContainer::default();
    assert_eq!(pools.no_era, pool(0, 0));
    assert_eq!(eras(&pools), Vec::<u32>::new());
    assert_eq!(pools.get(3), None);
}

#[test]
fn set_replaces_the_pool_of_an_era() {
    let mut pools = SubPoolsContainer::default();
    pools.set(3, pool(1, 2));
    assert_eq!(pools.get(3), Some(pool(1, 2)));
    pools.set(3, pool(4, 5));
    assert_eq!(pools.get(3), Some(pool(4, 5)));
    assert_eq!(eras(&pools), vec![3]);
}

#[test]
fn retains_the_newest_pools() {
    let merged = pools_of_eras(1, 10).maybe_merge_pools(10, 5);
    assert_eq!(eras(&merged), vec![6, 7, 8, 9, 10]);
    assert_eq!(merged.no_era, pool(1 + 2 + 3 + 4 + 5, 150));
    assert_eq!(merged.get(6), Some(pool(6, 60)));
}

#[test]
fn merges_nothing_in_the_first_eras() {
    let merged = pools_of_eras(0, 4).maybe_merge_pools(4, 5);
    assert_eq!(eras(&merged), vec![0, 1, 2, 3, 4]);
    assert_eq!(merged.no_era, pool(0, 0));
}

#[test]
fn merges_the_first_pool_when_it_is_too_old() {
    let merged = pools_of_eras(0, 5).maybe_merge_pools(5, 5);
    assert_eq!(eras(&merged), vec![1, 2, 3, 4, 5]);
}

#[test]
fn merges_all_when_none_may_be_kept() {
    let merged = pools_of_eras(2, 4).maybe_merge_pools(4, 0);
    assert_eq!(eras(&merged), Vec::<u32>::new());
    assert_eq!(merged.no_era, pool(9, 90));
}

#[test]
fn merging_skips_eras_without_pools() {
    let mut pools = SubPoolsContainer::default();
    pools.set(2, pool(3, 4));
    pools.set(90, pool(5, 6));
    let merged = pools.maybe_merge_pools(92, 5);
    assert_eq!(eras(&merged), vec![90]);
    assert_eq!(merged.no_era, pool(3, 4));
}

#[test]
fn merging_loses_nothing() {
    let mut pools = pools_of_eras(1, 10);
    pools.no_era = pool(1000, 2000);
    let merged = pools.maybe_merge_pools(8, 3);
    let mut shares = merged.no_era.shares;
    let mut balance = merged.no_era.balance;
    for (_, p) in merged.with_era.iter() {
        shares += p.shares;
        balance += p.balance;
    }
    assert_eq!((shares, balance), (1000 + 55, 2000 + 550));
}

#[test]
fn merging_stops_at_the_largest_number() {
    let mut pools = SubPoolsContainer::default();
    pools.set(1, pool(7, u128::MAX));
    pools.set(2, pool(8, 1));
    let merged = pools.maybe_merge_pools(100, 5);
    assert_eq!(merged.no_era, pool(15, u128::MAX));
}

#[test]
fn unbonding_pools_are_bounded() {
    let mut pools = SubPoolsContainer::default();
    for era in 0..50u32 {
        pools = pools.maybe_merge_pools(era, 5);
        pools.issue(era, 10);
        assert!(pools.with_era.len() <= 5);
    }
    assert_eq!(eras(&pools), vec![45, 46, 47, 48, 49]);
    assert_eq!(pools.no_era, pool(450, 450));
}

#[test]
fn issue_creates_the_pool_and_follows_its_price() {
    let mut pools = SubPoolsContainer::default();
    assert_eq!(pools.issue(3, 20), 20);
    assert_eq!(pools.get(3), Some(pool(20, 20)));
    // Half of the funds are lost: a unit is now worth two shares
    pools.set(3, pool(20, 10));
    assert_eq!(pools.issue(3, 5), 10);
    assert_eq!(pools.get(3), Some(pool(30, 15)));
}

#[test]
fn affected_balance_counts_the_range() {
    let mut pools = pools_of_eras(1, 10);
    pools.no_era = pool(1, 1_000_000);
    assert_eq!(pools.affected_balance(3, 5), 120);
    assert_eq!(pools.affected_balance(5, 5), 50);
    assert_eq!(pools.affected_balance(6, 5), 0);
    assert_eq!(pools.affected_balance(0, 100), 550);
    pools.set(4, pool(1, u128::MAX));
    assert_eq!(pools.affected_balance(3, 5), u128::MAX);
}

#[test]
fn affected_balance_reaches_the_last_era() {
    let mut pools = SubPoolsContainer::default();
    pools.set(u32::MAX, pool(1, 7));
    assert_eq!(pools.affected_balance(u32::MAX - 1, u32::MAX), 7);
}

#[test]
fn slash_scales_the_range() {
    let mut pools = pools_of_eras(1, 4);
    let balances = pools.slash(2, 3, Ratio { parts: ACCURACY / 4 });
    assert_eq!(balances.into_iter().collect::<Vec<_>>(), vec![(2, 5), (3, 7)]);
    assert_eq!(pools.get(1), Some(pool(1, 10)));
    assert_eq!(pools.get(2), Some(pool(2, 5)));
    assert_eq!(pools.get(3), Some(pool(3, 7)));
    assert_eq!(pools.get(4), Some(pool(4, 40)));
    assert_eq!(pools.get(5), None);
}

#[test]
fn pools_last_until_their_funds_can_be_withdrawn() {
    // Funds that remain bonded for 4 eras can be withdrawn from era 10 on if unbonded in era 6
    let merged = pools_of_eras(1, 10).maybe_merge_pools(10, 5);
    assert_eq!(merged.get(6), Some(pool(6, 60)));
    assert_eq!(merged.get(5), None);
    // With pools that exist for as long as funds remain bonded, it is merged by then
    let merged = pools_of_eras(1, 10).maybe_merge_pools(10, 4);
    assert_eq!(merged.get(6), None);
}
