use pools::fixed::{saturating_mul, Ratio, ACCURACY};
use pools::shares::{balance_for, shares_for};
use pools::{Pool, StakingInterface, UnbondPool};
use sp_runtime::DispatchError;

struct Bonded<const N: u128>;

impl<const N: u128> StakingInterface for Bonded<N> {
    type Balance = u128;
    type AccountId = u64;

    fn minimum_bond() -> u128 {
        10
    }

    fn current_era() -> u32 {
        0
    }

    fn bonded_balance(controller: &u64) -> u128 {
        assert_eq!(*controller, 100);
        N
    }

    fn bond_extra(_controller: &u64, _extra: u128) -> Result<(), DispatchError> {
        Ok(())
    }

    fn unbond(_controller: &u64, _value: u128) -> Result<(), DispatchError> {
        Ok(())
    }

    fn bond_duration() -> u32 {
        3
    }
}

#[test]
fn ratios_round_down() {
    assert_eq!(Ratio::from_rational(1, 3).parts, 333_333_333_333_333_333);
    assert_eq!(Ratio::from_rational(2, 3).parts, 666_666_666_666_666_666);
    assert_eq!(Ratio::from_rational(5, 2).parts, 2_500_000_000_000_000_000);
    assert_eq!(Ratio::from_rational(7, 7).parts, ACCURACY);
    assert_eq!(Ratio::from_rational(0, 7).parts, 0);
    assert_eq!(Ratio::from_rational(1, 3).mul_int(3), 0);
    assert_eq!(Ratio::from_rational(1, 3).mul_int(10), 3);
    assert_eq!(Ratio::from_rational(5, 2).mul_int(7), 17);
}

#[test]
fn ratios_are_held_down_to_what_fits() {
    assert_eq!(Ratio::from_rational(u128::MAX, 1).parts, u128::MAX);
    assert_eq!(Ratio::from_rational(u128::MAX, u128::MAX).parts, ACCURACY);
    assert_eq!(Ratio::from_rational(u128::MAX, ACCURACY).parts, u128::MAX);
    assert_eq!(Ratio { parts: u128::MAX }.mul_int(u128::MAX), u128::MAX);
    assert_eq!(Ratio { parts: ACCURACY }.mul_int(u128::MAX), u128::MAX);
    assert_eq!(Ratio { parts: 2 * ACCURACY }.mul_int(u128::MAX / 2), u128::MAX - 1);
    assert_eq!(Ratio { parts: 2 * ACCURACY }.mul_int(u128::MAX / 2 + 1), u128::MAX);
    assert_eq!(
        Ratio::from_rational(u128::MAX - 1, u128::MAX).parts,
        999_999_999_999_999_999
    );
}

#[test]
fn complement_stops_at_zero() {
    assert_eq!(Ratio { parts: 0 }.complement().parts, ACCURACY);
    assert_eq!(Ratio { parts: ACCURACY / 4 }.complement().parts, 3 * (ACCURACY / 4));
    assert_eq!(Ratio { parts: ACCURACY }.complement().parts, 0);
    assert_eq!(Ratio { parts: 5 * ACCURACY }.complement().parts, 0);
}

#[test]
fn products_are_held_down_to_what_fits() {
    assert_eq!(saturating_mul(6, 7), 42);
    assert_eq!(saturating_mul(u128::MAX, 1), u128::MAX);
    assert_eq!(saturating_mul(u128::MAX / 2, 3), u128::MAX);
    assert_eq!(saturating_mul(0, u128::MAX), 0);
}

#[test]
fn pools_start_with_one_share_per_unit() {
    assert_eq!(shares_for(0, 0, 50), 50);
    assert_eq!(shares_for(0, 10, 50), 50);
    assert_eq!(shares_for(10, 0, 50), 50);
    assert_eq!(UnbondPool::default().shares_to_issue(50), 50);
    assert_eq!(Pool { shares: 0, account_id: 100 }.shares_to_issue::<Bonded<0>>(50), 50);
}

#[test]
fn shares_follow_the_price() {
    // Half a share for each unit
    assert_eq!(shares_for(200, 100, 50), 25);
    assert_eq!(UnbondPool { shares: 100, balance: 200 }.shares_to_issue(50), 25);
    assert_eq!(Pool { shares: 100, account_id: 100 }.shares_to_issue::<Bonded<200>>(50), 25);
    // Two shares for each unit
    assert_eq!(shares_for(100, 200, 50), 100);
    // A third of a share for each unit, rounded down
    assert_eq!(shares_for(300, 100, 50), 16);
}

#[test]
fn balances_follow_the_price() {
    assert_eq!(balance_for(200, 100, 25), 50);
    assert_eq!(UnbondPool { shares: 100, balance: 200 }.balance_to_unbond(25), 50);
    assert_eq!(Pool { shares: 100, account_id: 100 }.balance_to_unbond::<Bonded<200>>(25), 50);
    assert_eq!(balance_for(100, 300, 50), 16);
}

#[test]
fn nothing_to_unbond() {
    assert_eq!(balance_for(0, 100, 25), 0);
    assert_eq!(balance_for(100, 100, 0), 0);
    assert_eq!(balance_for(100, 0, 0), 0);
    assert_eq!(balance_for(0, 0, 25), 0);
    assert_eq!(Pool { shares: 0, account_id: 100 }.balance_to_unbond::<Bonded<0>>(25), 0);
}

#[test]
fn redeeming_is_covered() {
    for n in 0..=7u128 {
        assert!(balance_for(100, 7, n) * 7 <= 100 * n);
    }
    assert!(balance_for(100, 7, 7) <= 100);
}

#[test]
fn issue_then_redeem() {
    // An empty pool gives back what was put in
    let issued = shares_for(0, 0, 77);
    assert_eq!(balance_for(77, issued, issued), 77);
    // Any other pool no more than that
    let issued = shares_for(300, 100, 50);
    assert_eq!(issued, 16);
    assert_eq!(balance_for(350, 116, issued), 48);
}

#[test]
fn issuing_does_not_dilute() {
    let before = balance_for(300, 100, 100);
    let issued = shares_for(300, 100, 50);
    let after = balance_for(350, 100 + issued, 100);
    assert_eq!((before, after), (300, 301));
}

#[test]
fn redeeming_does_not_dilute() {
    let taken = balance_for(100, 7, 3);
    assert_eq!(taken, 42);
    assert_eq!(balance_for(100, 7, 4), 57);
    assert_eq!(balance_for(100 - taken, 4, 4), 58);
}
