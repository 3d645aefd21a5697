//! What holds of one request after another, and of the pools as a whole.

use crate::fixed::{
    complement, lemma_ratio_monotone, lemma_ratio_of_equals, lemma_scaled_by_at_most_one,
    lemma_scaled_le, ratio_of, scaled, ACCURACY,
};
use crate::join::Joining;
use crate::payout::Payout;
use crate::primary::Pool;
use crate::reward::RewardPool;
use crate::shares::{issued_shares, law_issue_then_redeem};
use crate::storage::Storage;
use crate::sub_pools::{
    balance_within, lemma_eras_finite, lemma_within_nonnegative, shares_within, SubPools,
    UnbondPool,
};
use crate::sums::sum_below;
use crate::types::{AccountId, Balance, Delegator, Error, PoolId, Shares};
use crate::unbond::Unbonding;
use crate::withdraw::Withdrawal;
use sp_staking::EraIndex;
use vstd::prelude::*;

verus! {

/// An account may only belong to one pool at a time: once it has joined one, it is refused by
/// every pool, whatever it offers.
pub proof fn law_one_pool_per_account(
    s: Storage,
    joining: Joining,
    new_free_balance: Balance,
    new_shares: Shares,
    amount: Balance,
    target: PoolId,
    pool_free_balance: Balance,
    minimum_bond: Balance,
    reward_free_balance: Balance,
)
    ensures
        s.joined(joining, new_free_balance, new_shares).join(
            joining.who,
            amount,
            target,
            pool_free_balance,
            minimum_bond,
            reward_free_balance,
        ) == Err::<Joining, Error>(Error::AccountBelongsToOtherPool),
{
}

/// A withdrawal ends the membership: the account is no delegator any more, and no pool refuses it
/// for belonging to another one.
pub proof fn law_withdrawal_ends_membership(
    s: Storage,
    who: AccountId,
    current_era: EraIndex,
    bond_duration: EraIndex,
    amount: Balance,
    target: PoolId,
    pool_free_balance: Balance,
    minimum_bond: Balance,
    reward_free_balance: Balance,
)
    requires
        s.withdraw_unbonded(who, current_era, bond_duration) is Ok,
    ensures
        ({
            let t = s.withdrawn(s.withdraw_unbonded(who, current_era, bond_duration)->Ok_0);
            &&& !t.delegators.contains_key(who)
            &&& t.join(
                who,
                amount,
                target,
                pool_free_balance,
                minimum_bond,
                reward_free_balance,
            ) != Err::<Joining, Error>(Error::AccountBelongsToOtherPool)
        }),
{
}

/// Joining touches nothing of any other delegator, and nothing of any other pool.
pub proof fn law_join_touches_only_its_own(
    s: Storage,
    joining: Joining,
    new_free_balance: Balance,
    new_shares: Shares,
    other: AccountId,
    other_pool: PoolId,
)
    requires
        other != joining.who,
        other_pool != joining.target,
    ensures
        s.agrees_on(s.joined(joining, new_free_balance, new_shares), other, other_pool),
{
}

/// A payout touches nothing of any other delegator, and nothing of any other pool.
pub proof fn law_payout_touches_only_its_own(
    s: Storage,
    payout: Payout,
    other: AccountId,
    other_pool: PoolId,
)
    requires
        other != payout.delegator_id,
        other_pool != payout.delegator.pool,
    ensures
        s.agrees_on(s.paid_out(payout), other, other_pool),
{
}

/// Unbonding touches nothing of any other delegator, and nothing of any other pool.
pub proof fn law_unbond_touches_only_its_own(
    s: Storage,
    who: AccountId,
    primary_pool: Pool,
    current_era: EraIndex,
    amount: Balance,
    other: AccountId,
    other_pool: PoolId,
)
    requires
        other != who,
        other_pool != s.delegators[who].pool,
    ensures
        s.agrees_on(s.unbonded(who, primary_pool, current_era, amount), other, other_pool),
{
}

/// Withdrawing touches nothing of any other delegator, and nothing of any other pool.
pub proof fn law_withdraw_touches_only_its_own(
    s: Storage,
    withdrawal: Withdrawal,
    other: AccountId,
    other_pool: PoolId,
)
    requires
        other != withdrawal.who,
        other_pool != withdrawal.pool,
    ensures
        s.agrees_on(s.withdrawn(withdrawal), other, other_pool),
{
}

/// A slash touches nothing of any delegator, and nothing of any other pool.
pub proof fn law_slash_touches_only_its_own(
    s: Storage,
    pool: PoolId,
    slash_era: EraIndex,
    apply_era: EraIndex,
    parts: u128,
    other: AccountId,
    other_pool: PoolId,
)
    requires
        other_pool != pool,
    ensures
        s.agrees_on(s.slashed(pool, slash_era, apply_era, parts), other, other_pool),
{
}

impl Storage {
    /// Whether `other` stores the same of the delegator `who` and of `pool`.
    pub open spec fn agrees_on(self, other: Storage, who: AccountId, pool: PoolId) -> bool {
        &&& self.delegators.get(who) == other.delegators.get(who)
        &&& self.primary_pools.get(pool) == other.primary_pools.get(pool)
        &&& self.reward_pools.get(pool) == other.reward_pools.get(pool)
        &&& self.sub_pools.get(pool) == other.sub_pools.get(pool)
        &&& self.pool_ids == other.pool_ids
        &&& self.max_unbonding == other.max_unbonding
    }
}

/// A delegator that has just claimed has nothing more to claim until there are new earnings, and
/// lines up with the reward pool.
pub proof fn law_nothing_to_claim_twice(s: Storage, who: AccountId, reward_free_balance: Balance)
    requires
        s.claim_payout(who, reward_free_balance) is Ok,
    ensures
        ({
            let payout = s.claim_payout(who, reward_free_balance)->Ok_0;
            let again = s.paid_out(payout).claim_payout(who, payout.reward_pool.balance);
            &&& payout.delegator.reward_pool_total_earnings == payout.reward_pool.total_earnings
            &&& again is Ok
            &&& again->Ok_0.amount == 0
            &&& again->Ok_0.reward_pool == payout.reward_pool
            &&& again->Ok_0.delegator == payout.delegator
        }),
{
    let payout = s.claim_payout(who, reward_free_balance)->Ok_0;
    law_claim_without_earnings(s.paid_out(payout), who, payout.reward_pool.balance);
}

/// A bonded delegator can claim when nothing was earned since their last claim: the payout is
/// nothing, and neither the delegator nor the reward pool changes.
pub proof fn law_claim_without_earnings(s: Storage, who: AccountId, reward_free_balance: Balance)
    requires
        s.delegators.contains_key(who),
        s.delegators[who].unbonding_era is None,
        s.primary_pools.contains_key(s.delegators[who].pool),
        s.reward_pools.contains_key(s.delegators[who].pool),
        ({
            let reward_pool = s.reward_pools[s.delegators[who].pool];
            &&& reward_free_balance == reward_pool.balance
            &&& s.delegators[who].reward_pool_total_earnings == reward_pool.total_earnings
        }),
    ensures
        s.claim_payout(who, reward_free_balance) == Ok::<Payout, Error>(
            Payout {
                delegator_id: who,
                delegator: s.delegators[who],
                reward_pool: s.reward_pools[s.delegators[who].pool],
                amount: 0,
            },
        ),
{
    let d = s.delegators[who];
    let r = s.reward_pools[d.pool];
    let primary = s.primary_pools[d.pool].shares;
    assert(r.updated(reward_free_balance) == r);
    assert(d.shares * 0 == 0) by (nonlinear_arith);
    assert(primary * 0 == 0) by (nonlinear_arith);
    if r.shares != 0 {
        lemma_no_shares_no_payout(r.shares, reward_free_balance);
    }
}

/// No shares are paid nothing.
proof fn lemma_no_shares_no_payout(all: Shares, balance: Balance)
    requires
        all != 0,
    ensures
        scaled(ratio_of(0, all), balance) == 0,
{
    let a = all as int;
    assert((0 * ACCURACY) / a == 0) by (nonlinear_arith)
        requires
            a > 0,
    ;
    lemma_scaled_by_at_most_one(0, balance);
}

/// A claim on no more than all reward shares never lowers what the reward shares that remain are
/// worth.
pub proof fn law_claiming_does_not_dilute(
    r: RewardPool,
    primary_shares: Shares,
    delegator: Delegator,
    current_balance: Balance,
)
    requires
        r.virtual_shares(delegator, current_balance) <= r.inflated_shares(
            primary_shares,
            current_balance,
        ),
    ensures
        ({
            let all = r.inflated_shares(primary_shares, current_balance);
            let (after, _, payout) = r.claim(primary_shares, delegator, current_balance);
            &&& payout <= current_balance
            &&& after.balance == current_balance - payout
            &&& current_balance * after.shares <= after.balance * all
        }),
{
    let all = r.inflated_shares(primary_shares, current_balance);
    let claimed = r.virtual_shares(delegator, current_balance);
    let payout = r.payout(primary_shares, delegator, current_balance);
    if all != 0 {
        lemma_scaled_le(claimed, all, current_balance);
    }
    let (i, c, b, x) = (all as int, claimed as int, current_balance as int, payout as int);
    assert(x * i <= c * b) by {
        assert(0 * c == 0 && 0 * b == 0 && 0 <= c * b) by (nonlinear_arith)
            requires
                0 <= c,
                0 <= b,
        ;
    }
    assert(x <= b) by (nonlinear_arith)
        requires
            x * i <= c * b,
            c <= i,
            0 < i || x == 0,
            0 <= b,
    ;
    assert(b * (i - c) <= (b - x) * i) by (nonlinear_arith)
        requires
            x * i <= c * b,
    ;
}

/// A new delegator has no part in what the pool earned before they joined.
pub proof fn law_no_rewards_from_before_joining(
    s: Storage,
    who: AccountId,
    amount: Balance,
    target: PoolId,
    pool_free_balance: Balance,
    minimum_bond: Balance,
    reward_free_balance: Balance,
    new_free_balance: Balance,
    new_shares: Shares,
)
    requires
        s.join(who, amount, target, pool_free_balance, minimum_bond, reward_free_balance) is Ok,
    ensures
        ({
            let joining = s.join(
                who,
                amount,
                target,
                pool_free_balance,
                minimum_bond,
                reward_free_balance,
            )->Ok_0;
            let claim = s.joined(joining, new_free_balance, new_shares).claim_payout(
                who,
                reward_free_balance,
            );
            &&& claim is Ok
            &&& claim->Ok_0.amount == 0
        }),
{
    let joining = s.join(
        who,
        amount,
        target,
        pool_free_balance,
        minimum_bond,
        reward_free_balance,
    )->Ok_0;
    let t = s.joined(joining, new_free_balance, new_shares);
    assert(new_shares * 0 == 0) by (nonlinear_arith);
    let all = t.reward_pools[target].inflated_shares(
        t.primary_pools[target].shares,
        reward_free_balance,
    );
    if all != 0 {
        lemma_no_shares_no_payout(all, reward_free_balance);
    }
}

/// Total earnings are the sum of all incoming balance: what comes in on top of the balance that
/// was left after the last payout is added, and nothing is ever taken off.
pub proof fn law_earnings_are_income(r: RewardPool, income: Balance, current_balance: Balance)
    requires
        r.balance + income <= u128::MAX,
        r.total_earnings + income <= u128::MAX,
    ensures
        r.updated((r.balance + income) as u128).total_earnings == r.total_earnings + income,
        r.updated(current_balance).total_earnings >= r.total_earnings,
{
}

/// Each unit of balance is divided up pro rata: of two delegators that claimed last at the same
/// time, each has a right to reward shares in proportion to their shares, unless these do not fit.
pub proof fn law_rewards_are_pro_rata(
    r: RewardPool,
    first: Delegator,
    second: Delegator,
    current_balance: Balance,
)
    requires
        first.reward_pool_total_earnings == second.reward_pool_total_earnings,
        ({
            let earned = r.updated(current_balance).total_earnings.saturating_sub(
                first.reward_pool_total_earnings,
            );
            first.shares * earned <= u128::MAX && second.shares * earned <= u128::MAX
        }),
    ensures
        r.virtual_shares(first, current_balance) * second.shares == r.virtual_shares(
            second,
            current_balance,
        ) * first.shares,
{
    let total = r.updated(current_balance).total_earnings;
    let e = total.saturating_sub(first.reward_pool_total_earnings) as int;
    let (n, m) = (first.shares as int, second.shares as int);
    assert(0 <= n * e && 0 <= m * e) by (nonlinear_arith)
        requires
            0 <= e,
            0 <= n,
            0 <= m,
    ;
    assert(n * e * m == m * e * n) by (nonlinear_arith);
}

/// Once a delegator is unbonding they can no longer claim rewards, nor unbond again.
pub proof fn law_no_claim_while_unbonding(
    s: Storage,
    who: AccountId,
    primary_pool: Pool,
    current_era: EraIndex,
    amount: Balance,
    reward_free_balance: Balance,
)
    requires
        s.reward_pools.contains_key(s.delegators[who].pool),
    ensures
        ({
            let t = s.unbonded(who, primary_pool, current_era, amount);
            &&& t.claim_payout(who, reward_free_balance) == Err::<Payout, Error>(
                Error::AlreadyUnbonding,
            )
            &&& t.unbond(who, reward_free_balance) == Err::<Unbonding, Error>(
                Error::AlreadyUnbonding,
            )
        }),
{
}

/// A delegator that has not started to unbond cannot withdraw.
pub proof fn law_no_withdrawal_while_bonded(
    s: Storage,
    joining: Joining,
    new_free_balance: Balance,
    new_shares: Shares,
    current_era: EraIndex,
    bond_duration: EraIndex,
)
    ensures
        s.joined(joining, new_free_balance, new_shares).withdraw_unbonded(
            joining.who,
            current_era,
            bond_duration,
        ) == Err::<Withdrawal, Error>(Error::NotUnbonding),
{
}

/// Funds that started to unbond can be withdrawn once the bond duration has passed, and not
/// before. Without a bond duration, they can be withdrawn in every era.
pub proof fn law_withdrawal_waits_for_bond_duration(
    s: Storage,
    who: AccountId,
    primary_pool: Pool,
    unbonding_era: EraIndex,
    amount: Balance,
    current_era: EraIndex,
    bond_duration: EraIndex,
)
    ensures
        ({
            let t = s.unbonded(who, primary_pool, unbonding_era, amount);
            let r = t.withdraw_unbonded(who, current_era, bond_duration);
            &&& current_era < unbonding_era + bond_duration && bond_duration > 0 ==> r == Err::<
                Withdrawal,
                Error,
            >(Error::NotUnbondedYet)
            &&& current_era >= unbonding_era + bond_duration || bond_duration == 0 ==> r is Ok
        }),
{
}

/// Withdrawing gives back no more than what started to unbond, and gives back exactly that where
/// the pool of their era had as many shares as funds, as it has where the delegator is alone in it.
pub proof fn law_unbond_then_withdraw(
    s: Storage,
    who: AccountId,
    primary_pool: Pool,
    unbonding_era: EraIndex,
    amount: Balance,
    current_era: EraIndex,
    bond_duration: EraIndex,
)
    requires
        unbonding_era + bond_duration <= current_era,
        ({
            let pool = s.sub_pools_of(s.delegators[who].pool).merged(
                unbonding_era,
                s.max_unbonding,
            ).pool_of(unbonding_era);
            &&& pool.shares == 0 ==> pool.balance == 0
            &&& pool.balance + amount <= u128::MAX
            &&& pool.shares + issued_shares(pool.balance, pool.shares, amount) <= u128::MAX
        }),
    ensures
        ({
            let pool = s.sub_pools_of(s.delegators[who].pool).merged(
                unbonding_era,
                s.max_unbonding,
            ).pool_of(unbonding_era);
            let t = s.unbonded(who, primary_pool, unbonding_era, amount);
            let w = t.withdraw_unbonded(who, current_era, bond_duration);
            &&& w is Ok
            &&& w->Ok_0.who == who
            &&& w->Ok_0.account_id == primary_pool.account_id
            &&& w->Ok_0.amount <= amount
            &&& pool.shares == pool.balance ==> w->Ok_0.amount == amount
        }),
{
    let pool = s.sub_pools_of(s.delegators[who].pool).merged(
        unbonding_era,
        s.max_unbonding,
    ).pool_of(unbonding_era);
    law_issue_then_redeem(pool.balance, pool.shares, amount);
}

/// Merging moves funds and shares and loses none of them, unless they no longer fit.
pub proof fn law_merging_loses_nothing(
    pools: SubPools,
    current_era: EraIndex,
    max_unbonding: u32,
)
    requires
        pools.no_era.shares + shares_within(pools.with_era, 0, current_era - max_unbonding + 1)
            <= u128::MAX,
        pools.no_era.balance + balance_within(pools.with_era, 0, current_era - max_unbonding + 1)
            <= u128::MAX,
    ensures
        ({
            let merged = pools.merged(current_era, max_unbonding);
            &&& merged.no_era.shares + shares_within(merged.with_era, 0, u32::MAX + 1)
                == pools.no_era.shares + shares_within(pools.with_era, 0, u32::MAX + 1)
            &&& merged.no_era.balance + balance_within(merged.with_era, 0, u32::MAX + 1)
                == pools.no_era.balance + balance_within(pools.with_era, 0, u32::MAX + 1)
        }),
{
    let merged = pools.merged(current_era, max_unbonding);
    let cut = current_era - max_unbonding + 1;
    lemma_within_split(pools.with_era, merged.with_era, cut, u32::MAX + 1);
    lemma_within_nonnegative(pools.with_era, 0, cut);
    lemma_within_nonnegative(merged.with_era, 0, u32::MAX + 1);
}

/// What the eras hold is what those before `cut` hold and what the others hold.
proof fn lemma_within_split(
    all: Map<EraIndex, UnbondPool>,
    rest: Map<EraIndex, UnbondPool>,
    cut: int,
    hi: int,
)
    requires
        hi <= u32::MAX + 1,
        forall|era: EraIndex| #[trigger]
            rest.contains_key(era) <==> all.contains_key(era) && cut <= era,
        forall|era: EraIndex| #[trigger] rest.contains_key(era) ==> rest[era] == all[era],
    ensures
        cut <= hi ==> shares_within(all, 0, hi) == shares_within(all, 0, cut) + shares_within(
            rest,
            0,
            hi,
        ),
        cut <= hi ==> balance_within(all, 0, hi) == balance_within(all, 0, cut) + balance_within(
            rest,
            0,
            hi,
        ),
        hi <= cut ==> shares_within(rest, 0, hi) == 0,
        hi <= cut ==> balance_within(rest, 0, hi) == 0,
    decreases hi,
{
    if hi > 0 {
        lemma_within_split(all, rest, cut, hi - 1);
        let era = (hi - 1) as EraIndex;
        assert(rest.contains_key(era) <==> all.contains_key(era) && cut <= era);
    }
}

/// There are never more unbonding pools than `max_unbonding`: before funds are taken into the pool
/// of the current era, enough older pools are merged.
pub proof fn law_unbonding_pools_are_bounded(
    pools: SubPools,
    current_era: EraIndex,
    max_unbonding: u32,
    new_funds: Balance,
)
    requires
        max_unbonding >= 1,
        forall|era: EraIndex| #[trigger] pools.with_era.contains_key(era) ==> era <= current_era,
    ensures
        pools.merged(current_era, max_unbonding).issue(current_era, new_funds).with_era.len()
            <= max_unbonding,
{
    let eras = pools.merged(current_era, max_unbonding).issue(current_era, new_funds).with_era.dom();
    let lo = current_era - max_unbonding + 1;
    let range = vstd::set_lib::set_int_range(lo, current_era + 1);
    vstd::set_lib::lemma_int_range(lo, current_era + 1);
    let f = |era: EraIndex| era as int;
    lemma_eras_finite(eras);
    assert(eras.map(f).subset_of(range)) by {
        assert forall|i: int| eras.map(f).contains(i) implies range.contains(i) by {
            let era = choose|era: EraIndex| eras.contains(era) && f(era) == i;
            assert(era == current_era || pools.with_era.contains_key(era));
        }
    }
    vstd::set_lib::lemma_map_size(eras, eras.map(f), f);
    vstd::set_lib::lemma_len_subset(eras.map(f), range);
}

/// Where the pools exist for longer than funds must remain bonded, a delegator has a chance to
/// withdraw before their pool is merged: up to the era in which they first can, no merge touches
/// the pool of the era in which they started to unbond.
pub proof fn law_pool_outlives_bond_duration(
    pools: SubPools,
    unbonding_era: EraIndex,
    current_era: EraIndex,
    bond_duration: EraIndex,
    max_unbonding: u32,
)
    requires
        bond_duration < max_unbonding,
        current_era <= unbonding_era + bond_duration,
    ensures
        pools.merged(current_era, max_unbonding).with_era.get(unbonding_era)
            == pools.with_era.get(unbonding_era),
{
}

/// Where the pools exist for longer than a slash is deferred, no merge up to the era in which the
/// slash is applied touches a pool that it reaches.
pub proof fn law_pools_outlive_slash_deferral(
    s: Storage,
    pool: PoolId,
    current_era: EraIndex,
    slash_era: EraIndex,
    apply_era: EraIndex,
    slash_defer_duration: EraIndex,
    bonded_balance: Balance,
)
    requires
        slash_defer_duration < s.max_unbonding,
        apply_era <= slash_era + slash_defer_duration,
        current_era <= apply_era,
    ensures
        ({
            let merged = s.sub_pools_of(pool).merged(current_era, s.max_unbonding);
            let t = Storage { sub_pools: s.sub_pools.insert(pool, merged), ..s };
            &&& forall|era: EraIndex|
                slash_era < era <= apply_era ==> #[trigger] merged.with_era.get(era)
                    == s.sub_pools_of(pool).with_era.get(era)
            &&& t.affected_balance(pool, slash_era, apply_era, bonded_balance)
                == s.affected_balance(pool, slash_era, apply_era, bonded_balance)
        }),
{
    let before = s.sub_pools_of(pool).with_era;
    let after = s.sub_pools_of(pool).merged(current_era, s.max_unbonding).with_era;
    lemma_within_same(before, after, slash_era + 1, apply_era + 1);
}

/// Pools that agree on a range of eras hold the same there.
proof fn lemma_within_same(
    a: Map<EraIndex, UnbondPool>,
    b: Map<EraIndex, UnbondPool>,
    lo: int,
    hi: int,
)
    requires
        0 <= lo,
        hi <= u32::MAX + 1,
        forall|era: EraIndex| lo <= era < hi ==> #[trigger] a.get(era) == b.get(era),
    ensures
        balance_within(a, lo, hi) == balance_within(b, lo, hi),
    decreases hi,
{
    if hi > 0 {
        lemma_within_same(a, b, lo, hi - 1);
        let era = (hi - 1) as EraIndex;
        assert(lo <= era ==> a.get(era) == b.get(era));
    }
}

/// A slash only ever lowers balances. It touches no shares, no pool of an era up to the one it was
/// reported in or after the one it is applied in, and not the pool without an era.
pub proof fn law_slash_only_lowers_balances(
    pools: SubPools,
    slash_era: EraIndex,
    apply_era: EraIndex,
    slash_ratio: u128,
    bonded_balance: Balance,
    era: EraIndex,
)
    requires
        pools.with_era.contains_key(era),
    ensures
        ({
            let parts = complement(slash_ratio);
            let slashed = pools.slashed(slash_era + 1, apply_era as int, parts);
            &&& scaled(parts, bonded_balance) <= bonded_balance
            &&& slashed.no_era == pools.no_era
            &&& slashed.with_era.dom() == pools.with_era.dom()
            &&& slashed.with_era[era].shares == pools.with_era[era].shares
            &&& slashed.with_era[era].balance <= pools.with_era[era].balance
            &&& !(slash_era < era <= apply_era) ==> slashed.with_era[era] == pools.with_era[era]
        }),
{
    let parts = complement(slash_ratio);
    let slashed = pools.slashed(slash_era + 1, apply_era as int, parts);
    lemma_scaled_by_at_most_one(parts, bonded_balance);
    lemma_scaled_by_at_most_one(parts, pools.with_era[era].balance);
    assert(slashed.with_era.dom() =~= pools.with_era.dom());
}

/// A slash of nothing changes nothing.
pub proof fn law_slash_of_nothing(
    s: Storage,
    pool: PoolId,
    slash_era: EraIndex,
    apply_era: EraIndex,
    bonded_balance: Balance,
)
    requires
        s.affected_balance(pool, slash_era, apply_era, bonded_balance) != 0,
    ensures
        ({
            let parts = s.slash_multiplier(pool, 0, slash_era, apply_era, bonded_balance);
            &&& scaled(parts, bonded_balance) == bonded_balance
            &&& s.slashed(pool, slash_era, apply_era, parts).sub_pools_of(pool)
                == s.sub_pools_of(pool)
        }),
{
    let total = s.affected_balance(pool, slash_era, apply_era, bonded_balance) as int;
    let parts = s.slash_multiplier(pool, 0, slash_era, apply_era, bonded_balance);
    assert((0 * ACCURACY) / total == 0) by (nonlinear_arith)
        requires
            total > 0,
    ;
    assert(parts == ACCURACY);
    lemma_scaled_by_at_most_one(parts, bonded_balance);
    let pools = s.sub_pools_of(pool);
    let slashed = pools.slashed(slash_era + 1, apply_era as int, parts);
    assert forall|era: EraIndex| pools.with_era.contains_key(era) implies #[trigger]
        slashed.with_era[era] == pools.with_era[era] by {
        lemma_scaled_by_at_most_one(parts, pools.with_era[era].balance);
    }
    assert(slashed =~= pools);
}

/// A slash of all the funds it reaches, or more, leaves none of them.
pub proof fn law_slash_of_everything(
    s: Storage,
    pool: PoolId,
    slash_amount: Balance,
    slash_era: EraIndex,
    apply_era: EraIndex,
    bonded_balance: Balance,
    era: EraIndex,
)
    requires
        s.affected_balance(pool, slash_era, apply_era, bonded_balance) != 0,
        slash_amount >= s.affected_balance(pool, slash_era, apply_era, bonded_balance),
        s.sub_pools_of(pool).with_era.contains_key(era),
        slash_era < era <= apply_era,
    ensures
        ({
            let parts = s.slash_multiplier(
                pool,
                slash_amount,
                slash_era,
                apply_era,
                bonded_balance,
            );
            &&& scaled(parts, bonded_balance) == 0
            &&& s.slashed(pool, slash_era, apply_era, parts).sub_pools_of(
                pool,
            ).with_era[era].balance == 0
        }),
{
    let total = s.affected_balance(pool, slash_era, apply_era, bonded_balance);
    assert(total * total <= slash_amount * total) by (nonlinear_arith)
        requires
            total <= slash_amount,
    ;
    lemma_ratio_monotone(total, total, slash_amount, total);
    lemma_ratio_of_equals(total);
    lemma_scaled_by_at_most_one(0, bonded_balance);
    lemma_scaled_by_at_most_one(0, s.sub_pools_of(pool).with_era[era].balance);
}

/// The number of pools of the eras from `lo` to `hi`, `hi` not among them.
pub open spec fn pools_within(m: Map<EraIndex, UnbondPool>, lo: int, hi: int) -> int {
    sum_below(
        |e: int|
            if lo <= e && m.contains_key(e as EraIndex) {
                1
            } else {
                0
            },
        hi,
    )
}

/// Pools are counted era by era.
pub proof fn law_pools_are_counted_by_eras(m: Map<EraIndex, UnbondPool>, lo: int, hi: int)
    requires
        0 <= lo,
        hi <= u32::MAX,
    ensures
        hi <= lo ==> pools_within(m, lo, hi) == 0,
        lo <= hi ==> pools_within(m, lo, hi + 1) == pools_within(m, lo, hi) + (if m.contains_key(
            hi as EraIndex,
        ) {
            1int
        } else {
            0
        }),
    decreases hi,
{
    if 0 < hi <= lo {
        law_pools_are_counted_by_eras(m, lo, hi - 1);
    }
}

/// Scaling rounds by less than one.
proof fn lemma_scaled_rounding(parts: u128, n: u128)
    requires
        parts <= ACCURACY,
    ensures
        scaled(parts, n) * ACCURACY <= n * parts,
        n * parts <= scaled(parts, n) * ACCURACY + (ACCURACY - 1),
{
    let acc = ACCURACY as int;
    let x = parts * n;
    let q = x / acc;
    lemma_scaled_by_at_most_one(parts, n);
    assert(0 <= x <= acc * n) by (nonlinear_arith)
        requires
            x == parts * n,
            parts <= acc,
    ;
    assert(0 <= q <= n && q * acc <= x && x <= q * acc + (acc - 1)) by (nonlinear_arith)
        requires
            q == x / acc,
            0 <= x <= acc * n,
            acc > 0,
    ;
    assert(n * parts == x) by (nonlinear_arith)
        requires
            x == parts * n,
    ;
}

/// What the unbonding pools have left after a slash, up to rounding.
proof fn lemma_slashed_within(pools: SubPools, lo: int, hi: int, parts: u128, n: int)
    requires
        0 <= lo,
        n <= hi + 1 <= u32::MAX + 1,
        parts <= ACCURACY,
    ensures
        ({
            let before = balance_within(pools.with_era, lo, n);
            let after = balance_within(pools.slashed(lo, hi, parts).with_era, lo, n);
            &&& 0 <= after
            &&& after * ACCURACY <= before * parts
            &&& before * parts <= after * ACCURACY + pools_within(pools.with_era, lo, n) * (
            ACCURACY - 1)
        }),
    decreases n,
{
    let acc = ACCURACY as int;
    let slashed = pools.slashed(lo, hi, parts).with_era;
    if n <= 0 {
        assert(0 * acc == 0 && 0 * parts == 0 && 0 * (acc - 1) == 0) by (nonlinear_arith);
    } else {
        lemma_slashed_within(pools, lo, hi, parts, n - 1);
        let era = (n - 1) as EraIndex;
        let before = balance_within(pools.with_era, lo, n - 1);
        let after = balance_within(slashed, lo, n - 1);
        let count = pools_within(pools.with_era, lo, n - 1);
        let p = parts as int;
        if lo <= n - 1 && pools.with_era.contains_key(era) {
            let b = pools.with_era[era].balance as int;
            let a = scaled(parts, pools.with_era[era].balance) as int;
            lemma_scaled_rounding(parts, pools.with_era[era].balance);
            assert(slashed[era].balance == a);
            assert((after + a) * acc <= (before + b) * p) by (nonlinear_arith)
                requires
                    after * acc <= before * p,
                    a * acc <= b * p,
            ;
            assert((before + b) * p <= (after + a) * acc + (count + 1) * (acc - 1))
                by (nonlinear_arith)
                requires
                    before * p <= after * acc + count * (acc - 1),
                    b * p <= a * acc + (acc - 1),
            ;
        }
    }
}

/// A slash takes the amount it is for from the funds it reaches: short of it by less than one
/// part in `ACCURACY` of these funds, and at most over it by one unit for each unbonding pool.
pub proof fn law_slash_takes_its_amount(
    s: Storage,
    pool: PoolId,
    slash_amount: Balance,
    slash_era: EraIndex,
    apply_era: EraIndex,
    bonded_balance: Balance,
)
    requires
        ({
            let pools = s.sub_pools_of(pool).with_era;
            let total = bonded_balance + balance_within(pools, slash_era + 1, apply_era + 1);
            &&& 0 < total <= u128::MAX
            &&& slash_amount <= total
        }),
    ensures
        ({
            let pools = s.sub_pools_of(pool).with_era;
            let parts = s.slash_multiplier(
                pool,
                slash_amount,
                slash_era,
                apply_era,
                bonded_balance,
            );
            let left = s.slashed(pool, slash_era, apply_era, parts).sub_pools_of(pool).with_era;
            let total = bonded_balance + balance_within(pools, slash_era + 1, apply_era + 1);
            let taken = total - scaled(parts, bonded_balance) - balance_within(
                left,
                slash_era + 1,
                apply_era + 1,
            );
            &&& slash_amount * ACCURACY < taken * ACCURACY + total
            &&& taken <= slash_amount + pools_within(pools, slash_era + 1, apply_era + 1)
        }),
{
    let acc = ACCURACY as int;
    let lo = slash_era + 1;
    let hi = apply_era + 1;
    let pools = s.sub_pools_of(pool);
    let unbonding = balance_within(pools.with_era, lo, hi);
    let total = bonded_balance + unbonding;
    let ratio = ratio_of(slash_amount, total as u128);
    let parts = complement(ratio);
    lemma_within_nonnegative(pools.with_era, lo, hi);
    assert(parts == s.slash_multiplier(pool, slash_amount, slash_era, apply_era, bonded_balance));
    let x = slash_amount * acc;
    let q = x / total;
    assert(0 <= q <= acc && q * total <= x && x < q * total + total) by (nonlinear_arith)
        requires
            q == x / total,
            x == slash_amount * acc,
            0 <= slash_amount <= total,
            0 < total,
            0 < acc,
    ;
    let p = parts as int;
    assert(p == acc - q);
    lemma_slashed_within(pools, lo, apply_era as int, parts, hi);
    lemma_scaled_rounding(parts, bonded_balance);
    let left = balance_within(pools.slashed(lo, apply_era as int, parts).with_era, lo, hi);
    let bonded = bonded_balance as int;
    let bonded_left = scaled(parts, bonded_balance) as int;
    let count = pools_within(pools.with_era, lo, hi);
    let taken = total - bonded_left - left;
    assert(x < taken * acc + total) by (nonlinear_arith)
        requires
            x < q * total + total,
            taken == total - bonded_left - left,
            total == bonded + unbonding,
            left * acc <= unbonding * p,
            bonded_left * acc <= bonded * p,
            p == acc - q,
    ;
    assert(taken * acc <= x + (count + 1) * (acc - 1)) by (nonlinear_arith)
        requires
            q * total <= x,
            taken == total - bonded_left - left,
            total == bonded + unbonding,
            unbonding * p <= left * acc + count * (acc - 1),
            bonded * p <= bonded_left * acc + (acc - 1),
            p == acc - q,
    ;
    lemma_pools_within_nonnegative(pools.with_era, lo, hi);
    let amount = slash_amount as int;
    assert(taken <= amount + count) by (nonlinear_arith)
        requires
            taken * acc <= amount * acc + (count + 1) * (acc - 1),
            0 <= count,
            acc > 0,
    ;
}

/// A number of pools is not negative.
proof fn lemma_pools_within_nonnegative(m: Map<EraIndex, UnbondPool>, lo: int, hi: int)
    ensures
        pools_within(m, lo, hi) >= 0,
    decreases hi,
{
    if hi > 0 {
        lemma_pools_within_nonnegative(m, lo, hi - 1);
    }
}

} // verus!
