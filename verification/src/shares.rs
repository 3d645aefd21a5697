//! How funds and shares are exchanged in a pool, and what the exchange guarantees.

use crate::fixed::{
    law_scaled_is_the_product, lemma_ratio_is_unique, lemma_ratio_monotone, lemma_ratio_of_equals,
    lemma_scaled_by_at_most_one, lemma_scaled_ge, lemma_scaled_le, lemma_scaled_monotone, ratio_of, scaled, Ratio, ACCURACY,
};
use crate::types::{Balance, Shares};
use vstd::prelude::*;

verus! {

/// The shares that a pool of `balance` funds and `shares` shares gives out for `new_funds`. All
/// pools start with a 1:1 ratio of balance to shares.
pub open spec fn issued_shares(balance: Balance, shares: Shares, new_funds: Balance) -> Shares {
    if balance == 0 || shares == 0 {
        new_funds
    } else {
        scaled(ratio_of(shares, balance), new_funds)
    }
}

/// Whether `n` shares of a pool of `balance` funds and `shares` shares have a price at all.
pub open spec fn has_price(balance: Balance, shares: Shares, n: Shares) -> bool {
    balance == 0 || n == 0 || shares != 0
}

/// The funds that `n` shares of a pool of `balance` funds and `shares` shares are worth.
pub open spec fn redeemed_balance(balance: Balance, shares: Shares, n: Shares) -> Balance
    recommends
        has_price(balance, shares, n),
{
    if balance == 0 || n == 0 {
        0
    } else {
        scaled(ratio_of(balance, shares), n)
    }
}

/// The shares that a pool of `balance` funds and `shares` shares gives out for `new_funds`.
pub fn shares_for(balance: Balance, shares: Shares, new_funds: Balance) -> (issued: Shares)
    ensures
        issued == issued_shares(balance, shares, new_funds),
{
    if balance == 0 || shares == 0 {
        new_funds
    } else {
        Ratio::from_rational(shares, balance).mul_int(new_funds)
    }
}

/// The funds that `n` shares of a pool of `balance` funds and `shares` shares are worth.
pub fn balance_for(balance: Balance, shares: Shares, n: Shares) -> (worth: Balance)
    requires
        has_price(balance, shares, n),
    ensures
        worth == redeemed_balance(balance, shares, n),
{
    if balance == 0 || n == 0 {
        0
    } else {
        Ratio::from_rational(balance, shares).mul_int(n)
    }
}

/// Shares have a price unless there are funds that they would be a part of, and no shares.
pub proof fn law_price_needs_shares(balance: Balance, shares: Shares, n: Shares)
    ensures
        !has_price(balance, shares, n) <==> balance > 0 && n > 0 && shares == 0,
{
}

/// Shares are issued at the price of a unit of funds: that is the number of shares to a unit of
/// balance, rounded down to eighteen decimal places, and the shares for all units are rounded down
/// once more. A pool without funds or without shares issues one share for each unit.
pub proof fn law_shares_are_issued_at_the_price(
    balance: Balance,
    shares: Shares,
    new_funds: Balance,
    price: u128,
)
    requires
        price * balance <= shares * 1_000_000_000_000_000_000,
        price == u128::MAX || shares * 1_000_000_000_000_000_000 < (price + 1) * balance || balance
            == 0,
    ensures
        balance == 0 || shares == 0 ==> issued_shares(balance, shares, new_funds) == new_funds,
        balance > 0 && shares > 0 ==> ({
            let issued = issued_shares(balance, shares, new_funds);
            &&& issued * 1_000_000_000_000_000_000 <= price * new_funds
            &&& issued == u128::MAX || price * new_funds < (issued + 1) * 1_000_000_000_000_000_000
        }),
{
    if balance > 0 && shares > 0 {
        lemma_ratio_is_unique(shares, balance, price);
        law_scaled_is_the_product(price, new_funds);
    }
}

/// Shares are redeemed at the price of a share: that is the balance to a share, rounded down to
/// eighteen decimal places, and the worth of all shares is rounded down once more.
pub proof fn law_shares_are_redeemed_at_the_price(
    balance: Balance,
    shares: Shares,
    n: Shares,
    price: u128,
)
    requires
        has_price(balance, shares, n),
        price * shares <= balance * 1_000_000_000_000_000_000,
        price == u128::MAX || balance * 1_000_000_000_000_000_000 < (price + 1) * shares || shares
            == 0,
    ensures
        balance == 0 || n == 0 ==> redeemed_balance(balance, shares, n) == 0,
        balance > 0 && n > 0 ==> ({
            let worth = redeemed_balance(balance, shares, n);
            &&& worth * 1_000_000_000_000_000_000 <= price * n
            &&& worth == u128::MAX || price * n < (worth + 1) * 1_000_000_000_000_000_000
        }),
{
    if balance > 0 && n > 0 {
        lemma_ratio_is_unique(balance, shares, price);
        law_scaled_is_the_product(price, n);
    }
}

/// New funds are given their part of the shares: no more than that, and short of it by no more than
/// two roundings, unless a number does not fit.
pub proof fn law_shares_are_issued_pro_rata(balance: Balance, shares: Shares, new_funds: Balance)
    requires
        balance > 0,
        shares > 0,
    ensures
        ({
            let issued = issued_shares(balance, shares, new_funds);
            &&& issued * balance <= shares * new_funds
            &&& shares * 1_000_000_000_000_000_000 < (u128::MAX + 1) * balance && issued
                < u128::MAX ==> shares * new_funds * 1_000_000_000_000_000_000 < (issued + 1)
                * balance * 1_000_000_000_000_000_000 + new_funds * balance
        }),
{
    lemma_issue_at_most_pro_rata(balance, shares, new_funds);
    let issued = issued_shares(balance, shares, new_funds);
    if shares * ACCURACY < (u128::MAX + 1) * balance && issued < u128::MAX {
        lemma_scaled_ge(shares, balance, new_funds);
    }
}

/// Shares are worth their part of the funds: no more than that, and short of it by no more than two
/// roundings, unless a number does not fit.
pub proof fn law_shares_are_redeemed_pro_rata(balance: Balance, shares: Shares, n: Shares)
    requires
        shares > 0,
    ensures
        ({
            let worth = redeemed_balance(balance, shares, n);
            &&& worth * shares <= balance * n
            &&& balance * 1_000_000_000_000_000_000 < (u128::MAX + 1) * shares && worth < u128::MAX
                ==> balance * n * 1_000_000_000_000_000_000 < (worth + 1) * shares
                * 1_000_000_000_000_000_000 + n * shares
        }),
{
    let worth = redeemed_balance(balance, shares, n);
    let (b, s, m) = (balance as int, shares as int, n as int);
    if balance == 0 || n == 0 {
        assert(0 * s == 0 && b * m == 0 && 0 * ACCURACY == 0 && 0 <= m * s) by (nonlinear_arith)
            requires
                b == 0 || m == 0,
                0 <= m,
                0 < s,
        ;
    } else {
        lemma_scaled_le(balance, shares, n);
        if balance * ACCURACY < (u128::MAX + 1) * shares && worth < u128::MAX {
            lemma_scaled_ge(balance, shares, n);
        }
    }
}

/// Shares are worth no more than their part of the funds, and so, up to all shares of the pool,
/// no more than the funds there are.
pub proof fn law_redeeming_is_covered(balance: Balance, shares: Shares, n: Shares)
    requires
        n <= shares,
    ensures
        redeemed_balance(balance, shares, n) * shares <= balance * n,
        redeemed_balance(balance, shares, n) <= balance,
{
    let worth = redeemed_balance(balance, shares, n) as int;
    if balance == 0 || n == 0 {
        assert(0 * shares == 0) by (nonlinear_arith);
        assert(0 <= balance * n) by (nonlinear_arith);
    } else {
        lemma_scaled_le(balance, shares, n);
        let (b, s, m) = (balance as int, shares as int, n as int);
        assert(worth <= b) by (nonlinear_arith)
            requires
                worth * s <= b * m,
                m <= s,
                0 < s,
                0 <= b,
        ;
    }
}

/// Shares are issued for no more than the funds put in are worth at the price before.
pub proof fn lemma_issue_at_most_pro_rata(balance: Balance, shares: Shares, new_funds: Balance)
    requires
        balance != 0,
        shares != 0,
    ensures
        issued_shares(balance, shares, new_funds) * balance <= shares * new_funds,
{
    lemma_scaled_le(shares, balance, new_funds);
}

/// Taking out at once the shares that were issued for some funds never gives back more than these
/// funds, and gives back exactly these funds where the pool had as many shares as funds, as an empty
/// one has.
pub proof fn law_issue_then_redeem(balance: Balance, shares: Shares, new_funds: Balance)
    requires
        shares == 0 ==> balance == 0,
        balance + new_funds <= u128::MAX,
        shares + issued_shares(balance, shares, new_funds) <= u128::MAX,
    ensures
        ({
            let issued = issued_shares(balance, shares, new_funds);
            let back = redeemed_balance(
                (balance + new_funds) as u128,
                (shares + issued) as u128,
                issued,
            );
            &&& back <= new_funds
            &&& shares == balance ==> back == new_funds
        }),
{
    let issued = issued_shares(balance, shares, new_funds);
    let new_balance = (balance + new_funds) as u128;
    let new_shares = (shares + issued) as u128;
    let back = redeemed_balance(new_balance, new_shares, issued);
    if shares == balance {
        lemma_scaled_by_at_most_one(ACCURACY, new_funds);
        if shares != 0 {
            lemma_ratio_of_equals(shares);
        }
        if new_shares != 0 {
            lemma_ratio_of_equals(new_shares);
        }
    } else if issued != 0 && new_balance != 0 {
        if balance != 0 {
            lemma_issue_at_most_pro_rata(balance, shares, new_funds);
        } else {
            assert(issued * 0 == 0 && 0 <= shares * new_funds) by (nonlinear_arith);
        }
        lemma_scaled_le(new_balance, new_shares, issued);
        let (b, s, x, i, r) = (
            balance as int,
            shares as int,
            new_funds as int,
            issued as int,
            back as int,
        );
        assert(r * (s + i) <= (b + x) * i);
        assert(r <= x) by (nonlinear_arith)
            requires
                r * (s + i) <= (b + x) * i,
                i * b <= s * x,
                0 < s,
                0 <= i,
        ;
    }
}

/// Putting funds in never lowers what the shares already there are worth.
pub proof fn law_issuing_does_not_dilute(
    balance: Balance,
    shares: Shares,
    new_funds: Balance,
    n: Shares,
)
    requires
        has_price(balance, shares, n),
        balance + new_funds <= u128::MAX,
        shares + issued_shares(balance, shares, new_funds) <= u128::MAX,
    ensures
        redeemed_balance(balance, shares, n) <= redeemed_balance(
            (balance + new_funds) as u128,
            (shares + issued_shares(balance, shares, new_funds)) as u128,
            n,
        ),
{
    let issued = issued_shares(balance, shares, new_funds);
    let new_balance = (balance + new_funds) as u128;
    let new_shares = (shares + issued) as u128;
    if balance != 0 && n != 0 {
        lemma_issue_at_most_pro_rata(balance, shares, new_funds);
        assert(balance * new_shares <= new_balance * shares) by (nonlinear_arith)
            requires
                new_balance == balance + new_funds,
                new_shares == shares + issued,
                issued * balance <= shares * new_funds,
        ;
        lemma_ratio_monotone(balance, shares, new_balance, new_shares);
        lemma_scaled_monotone(ratio_of(balance, shares), n, ratio_of(new_balance, new_shares), n);
    }
}

/// Taking shares out never lowers what the shares that remain are worth.
pub proof fn law_redeeming_does_not_dilute(
    balance: Balance,
    shares: Shares,
    taken: Shares,
    n: Shares,
)
    requires
        taken < shares,
    ensures
        redeemed_balance(balance, shares, n) <= redeemed_balance(
            (balance - redeemed_balance(balance, shares, taken)) as u128,
            (shares - taken) as u128,
            n,
        ),
{
    law_redeeming_is_covered(balance, shares, taken);
    let worth = redeemed_balance(balance, shares, taken);
    let new_balance = (balance - worth) as u128;
    let new_shares = (shares - taken) as u128;
    assert(balance * new_shares <= new_balance * shares) by (nonlinear_arith)
        requires
            new_balance == balance - worth,
            new_shares == shares - taken,
            worth * shares <= balance * taken,
    ;
    lemma_ratio_monotone(balance, shares, new_balance, new_shares);
    lemma_scaled_monotone(ratio_of(balance, shares), n, ratio_of(new_balance, new_shares), n);
    if new_balance == 0 && balance != 0 && n != 0 {
        assert(balance * new_shares > 0) by (nonlinear_arith)
            requires
                balance > 0,
                new_shares > 0,
        ;
        assert(0 * shares == 0) by (nonlinear_arith);
    }
}

} // verus!
