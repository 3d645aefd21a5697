//! The books of the pools: what always adds up, and that every request keeps it so.

use crate::fixed::lemma_scaled_le;
use crate::laws::law_unbonding_pools_are_bounded;
use crate::shares::{has_price, issued_shares, law_redeeming_is_covered};
use crate::storage::Storage;
use crate::sub_pools::{
    is_stale, lemma_within_nonnegative, shares_within, SubPools, UnbondPool,
};
use crate::sums::{
    lemma_sum_add, lemma_sum_le, lemma_sum_member, lemma_sum_same, lemma_sum_scale,
    lemma_sum_update, lemma_sum_zero, sum_below,
};
use crate::types::{AccountId, Balance, Delegator, PoolId, Shares};
use sp_staking::EraIndex;
use vstd::prelude::*;

verus! {

/// What `f` makes of the delegator `who`, or nothing if there is none.
pub open spec fn term_of(
    delegators: Map<AccountId, Delegator>,
    f: spec_fn(Delegator) -> int,
    who: AccountId,
) -> int {
    if delegators.contains_key(who) {
        f(delegators[who])
    } else {
        0
    }
}

/// What `f` makes of the delegators, by the numbers of their accounts.
pub open spec fn terms_of(
    delegators: Map<AccountId, Delegator>,
    f: spec_fn(Delegator) -> int,
) -> spec_fn(int) -> int {
    |a: int| term_of(delegators, f, a as AccountId)
}

/// The sum of `f` over all delegators.
pub open spec fn sum_delegators(
    delegators: Map<AccountId, Delegator>,
    f: spec_fn(Delegator) -> int,
) -> int {
    sum_below(terms_of(delegators, f), u64::MAX + 1)
}

/// Delegators that differ in `who` alone have sums that differ by what `f` makes of `who`.
proof fn lemma_sum_change(
    before: Map<AccountId, Delegator>,
    after: Map<AccountId, Delegator>,
    f: spec_fn(Delegator) -> int,
    who: AccountId,
)
    requires
        forall|a: AccountId| a != who ==> #[trigger] term_of(before, f, a) == term_of(after, f, a),
    ensures
        sum_delegators(after, f) == sum_delegators(before, f) - term_of(before, f, who) + term_of(
            after,
            f,
            who,
        ),
{
    let (g, h) = (terms_of(before, f), terms_of(after, f));
    assert forall|a: int| 0 <= a < u64::MAX + 1 && a != who implies #[trigger] g(a) == h(a) by {
        assert(term_of(before, f, a as AccountId) == term_of(after, f, a as AccountId));
    }
    lemma_sum_update(g, h, who as int, u64::MAX + 1);
}

/// Storing a delegator changes a sum by the difference that it makes.
pub proof fn lemma_sum_insert(
    delegators: Map<AccountId, Delegator>,
    f: spec_fn(Delegator) -> int,
    who: AccountId,
    d: Delegator,
)
    ensures
        sum_delegators(delegators.insert(who, d), f) == sum_delegators(delegators, f) - term_of(
            delegators,
            f,
            who,
        ) + f(d),
{
    lemma_sum_change(delegators, delegators.insert(who, d), f, who);
}

/// Removing a delegator takes what it contributed out of a sum.
pub proof fn lemma_sum_remove(
    delegators: Map<AccountId, Delegator>,
    f: spec_fn(Delegator) -> int,
    who: AccountId,
)
    ensures
        sum_delegators(delegators.remove(who), f) == sum_delegators(delegators, f) - term_of(
            delegators,
            f,
            who,
        ),
{
    lemma_sum_change(delegators, delegators.remove(who), f, who);
}

/// Functions that agree on every delegator have the same sum.
pub proof fn lemma_sum_agree(
    delegators: Map<AccountId, Delegator>,
    f: spec_fn(Delegator) -> int,
    g: spec_fn(Delegator) -> int,
)
    requires
        forall|a: AccountId| #[trigger]
            delegators.contains_key(a) ==> f(delegators[a]) == g(delegators[a]),
    ensures
        sum_delegators(delegators, f) == sum_delegators(delegators, g),
{
    lemma_sum_same(terms_of(delegators, f), terms_of(delegators, g), u64::MAX + 1);
}

/// A function that is nowhere larger has no larger sum.
pub proof fn lemma_sum_no_larger(
    delegators: Map<AccountId, Delegator>,
    f: spec_fn(Delegator) -> int,
    g: spec_fn(Delegator) -> int,
)
    requires
        forall|a: AccountId| #[trigger]
            delegators.contains_key(a) ==> f(delegators[a]) <= g(delegators[a]),
    ensures
        sum_delegators(delegators, f) <= sum_delegators(delegators, g),
{
    lemma_sum_le(terms_of(delegators, f), terms_of(delegators, g), u64::MAX + 1);
}

/// The sum of two functions is the sum of their sums.
pub proof fn lemma_sum_together(
    delegators: Map<AccountId, Delegator>,
    f: spec_fn(Delegator) -> int,
    g: spec_fn(Delegator) -> int,
    h: spec_fn(Delegator) -> int,
)
    requires
        forall|d: Delegator| #[trigger] h(d) == f(d) + g(d),
    ensures
        sum_delegators(delegators, h) == sum_delegators(delegators, f) + sum_delegators(
            delegators,
            g,
        ),
{
    lemma_sum_add(
        terms_of(delegators, f),
        terms_of(delegators, g),
        terms_of(delegators, h),
        u64::MAX + 1,
    );
}

/// A function scaled by a constant has its sum scaled by it.
pub proof fn lemma_sum_times(
    delegators: Map<AccountId, Delegator>,
    f: spec_fn(Delegator) -> int,
    g: spec_fn(Delegator) -> int,
    c: int,
)
    requires
        forall|d: Delegator| #[trigger] g(d) == f(d) * c,
    ensures
        sum_delegators(delegators, g) == sum_delegators(delegators, f) * c,
{
    assert(0 * c == 0) by (nonlinear_arith);
    lemma_sum_scale(
        terms_of(delegators, f),
        terms_of(delegators, g),
        c,
        u64::MAX + 1,
    );
}

/// No delegator contributes more than the whole of a sum of non-negative terms.
pub proof fn lemma_sum_includes(
    delegators: Map<AccountId, Delegator>,
    f: spec_fn(Delegator) -> int,
    who: AccountId,
)
    requires
        delegators.contains_key(who),
        forall|d: Delegator| #[trigger] f(d) >= 0,
    ensures
        0 <= f(delegators[who]) <= sum_delegators(delegators, f),
{
    let g = terms_of(delegators, f);
    lemma_sum_member(g, who as int, u64::MAX + 1);
    assert(g(who as int) == f(delegators[who]));
}

/// A function that is zero on every delegator has the sum zero.
pub proof fn lemma_sum_nothing(
    delegators: Map<AccountId, Delegator>,
    f: spec_fn(Delegator) -> int,
)
    requires
        forall|a: AccountId| #[trigger] delegators.contains_key(a) ==> f(delegators[a]) == 0,
    ensures
        sum_delegators(delegators, f) == 0,
{
    lemma_sum_zero(terms_of(delegators, f), u64::MAX + 1);
}

/// The shares of a delegator that is bonded in `pool`.
pub open spec fn if_bonded(pool: PoolId) -> spec_fn(Delegator) -> int {
    |d: Delegator|
        if d.pool == pool && d.unbonding_era is None {
            d.shares as int
        } else {
            0
        }
}

/// The shares of a delegator that started to unbond from `pool` in `era`.
pub open spec fn if_unbonding(pool: PoolId, era: EraIndex) -> spec_fn(Delegator) -> int {
    |d: Delegator|
        if d.pool == pool && d.unbonding_era == Some(era) {
            d.shares as int
        } else {
            0
        }
}

/// The shares of a delegator that started to unbond from `pool` in an era without a pool of its
/// own in `pools`.
pub open spec fn if_merged(pool: PoolId, pools: Map<EraIndex, UnbondPool>) -> spec_fn(
    Delegator,
) -> int {
    |d: Delegator|
        if d.pool == pool && d.unbonding_era is Some && !pools.contains_key(d.unbonding_era->0) {
            d.shares as int
        } else {
            0
        }
}

/// The shares of `pool`'s reward pool that a bonded delegator has a right to, with total earnings
/// of `total_earnings`.
pub open spec fn if_entitled(pool: PoolId, total_earnings: Balance) -> spec_fn(Delegator) -> int {
    |d: Delegator|
        if d.pool == pool && d.unbonding_era is None {
            d.shares * total_earnings.saturating_sub(d.reward_pool_total_earnings)
        } else {
            0
        }
}

impl Storage {
    /// A primary pool has as many shares as its bonded delegators hold.
    pub open spec fn primary_shares_add_up(self, pool: PoolId) -> bool {
        self.primary_pools.contains_key(pool) ==> self.primary_pools[pool].shares
            == sum_delegators(self.delegators, if_bonded(pool))
    }

    /// The pool of an era has as many shares as the delegators hold that started to unbond in it.
    pub open spec fn era_shares_add_up(self, pool: PoolId, era: EraIndex) -> bool {
        self.sub_pools_of(pool).with_era.contains_key(era) ==> self.sub_pools_of(
            pool,
        ).with_era[era].shares == sum_delegators(self.delegators, if_unbonding(pool, era))
    }

    /// The pool without an era has as many shares as the delegators hold whose pool was merged.
    pub open spec fn merged_shares_add_up(self, pool: PoolId) -> bool {
        self.sub_pools_of(pool).no_era.shares == sum_delegators(
            self.delegators,
            if_merged(pool, self.sub_pools_of(pool).with_era),
        )
    }

    /// A reward pool has at least the shares that its bonded delegators have a right to.
    pub open spec fn rewards_are_covered(self, pool: PoolId) -> bool {
        self.reward_pools.contains_key(pool) ==> self.reward_pools[pool].shares >= sum_delegators(
            self.delegators,
            if_entitled(pool, self.reward_pools[pool].total_earnings),
        )
    }

    /// There are at most `max_unbonding` unbonding pools.
    pub open spec fn era_pools_are_bounded(self, pool: PoolId) -> bool {
        self.sub_pools_of(pool).with_era.len() <= self.max_unbonding
    }

    /// No era is later than `now`.
    pub open spec fn eras_are_past(self, pool: PoolId, era: EraIndex, now: EraIndex) -> bool {
        self.sub_pools_of(pool).with_era.contains_key(era) ==> era <= now
    }

    /// A delegator's pools exist. If they are unbonding, then since an era that is not later than
    /// `now`, and in a pool of that era, unless that one was merged because of its age.
    pub open spec fn delegator_is_placed(self, who: AccountId, now: EraIndex) -> bool {
        let d = self.delegators[who];
        self.delegators.contains_key(who) ==> {
            &&& self.primary_pools.contains_key(d.pool)
            &&& self.reward_pools.contains_key(d.pool)
            &&& d.unbonding_era matches Some(era) ==> {
                &&& era <= now
                &&& self.sub_pools_of(d.pool).with_era.contains_key(era) || is_stale(
                    era,
                    now,
                    self.max_unbonding,
                )
            }
        }
    }

    /// The books add up, in the era `now`.
    pub open spec fn is_consistent(self, now: EraIndex) -> bool {
        &&& forall|pool: PoolId| #[trigger] self.primary_shares_add_up(pool)
        &&& forall|pool: PoolId, era: EraIndex| #[trigger] self.era_shares_add_up(pool, era)
        &&& forall|pool: PoolId| #[trigger] self.merged_shares_add_up(pool)
        &&& forall|pool: PoolId| #[trigger] self.rewards_are_covered(pool)
        &&& forall|pool: PoolId| #[trigger] self.era_pools_are_bounded(pool)
        &&& forall|pool: PoolId, era: EraIndex| #[trigger] self.eras_are_past(pool, era, now)
        &&& forall|who: AccountId| #[trigger] self.delegator_is_placed(who, now)
    }
}

/// The books add up where there are no delegators, and all pools are without shares.
pub proof fn law_start_is_consistent(s: Storage, now: EraIndex)
    requires
        s.delegators == Map::<AccountId, Delegator>::empty(),
        s.sub_pools == Map::<PoolId, SubPools>::empty(),
        forall|pool: PoolId| #[trigger]
            s.primary_pools.contains_key(pool) ==> s.primary_pools[pool].shares == 0,
    ensures
        s.is_consistent(now),
{
    assert forall|pool: PoolId| #[trigger] s.primary_shares_add_up(pool) by {
        lemma_sum_nothing(s.delegators, if_bonded(pool));
    }
    assert forall|pool: PoolId| #[trigger] s.merged_shares_add_up(pool) by {
        lemma_sum_nothing(s.delegators, if_merged(pool, s.sub_pools_of(pool).with_era));
    }
    assert forall|pool: PoolId| #[trigger] s.rewards_are_covered(pool) by {
        lemma_sum_nothing(s.delegators, if_entitled(pool, s.reward_pools[pool].total_earnings));
    }
}

/// The books still add up after a delegator joined, unless the pool's shares no longer fit.
pub proof fn law_join_keeps_consistency(
    s: Storage,
    now: EraIndex,
    who: AccountId,
    amount: Balance,
    target: PoolId,
    pool_free_balance: Balance,
    minimum_bond: Balance,
    reward_free_balance: Balance,
    new_free_balance: Balance,
    new_shares: Shares,
)
    requires
        s.is_consistent(now),
        s.join(who, amount, target, pool_free_balance, minimum_bond, reward_free_balance) is Ok,
        s.primary_pools[target].shares + new_shares <= u128::MAX,
    ensures
        s.joined(
            s.join(
                who,
                amount,
                target,
                pool_free_balance,
                minimum_bond,
                reward_free_balance,
            )->Ok_0,
            new_free_balance,
            new_shares,
        ).is_consistent(now),
{
    let joining = s.join(
        who,
        amount,
        target,
        pool_free_balance,
        minimum_bond,
        reward_free_balance,
    )->Ok_0;
    let t = s.joined(joining, new_free_balance, new_shares);
    let d = t.delegators[who];
    assert forall|pool: PoolId| #[trigger] t.primary_shares_add_up(pool) by {
        assert(s.primary_shares_add_up(pool));
        lemma_sum_insert(s.delegators, if_bonded(pool), who, d);
    }
    assert forall|pool: PoolId, era: EraIndex| #[trigger] t.era_shares_add_up(pool, era) by {
        assert(s.era_shares_add_up(pool, era));
        lemma_sum_insert(s.delegators, if_unbonding(pool, era), who, d);
    }
    assert forall|pool: PoolId| #[trigger] t.merged_shares_add_up(pool) by {
        assert(s.merged_shares_add_up(pool));
        lemma_sum_insert(s.delegators, if_merged(pool, s.sub_pools_of(pool).with_era), who, d);
    }
    assert forall|pool: PoolId| #[trigger] t.rewards_are_covered(pool) by {
        assert(s.rewards_are_covered(pool));
        let f = if_entitled(pool, s.reward_pools[pool].total_earnings);
        lemma_sum_insert(s.delegators, f, who, d);
        assert(f(d) == 0) by {
            assert(d.shares * 0 == 0) by (nonlinear_arith);
        }
    }
    assert forall|pool: PoolId| #[trigger] t.era_pools_are_bounded(pool) by {
        assert(s.era_pools_are_bounded(pool));
    }
    assert forall|pool: PoolId, era: EraIndex| #[trigger] t.eras_are_past(pool, era, now) by {
        assert(s.eras_are_past(pool, era, now));
    }
    assert forall|a: AccountId| #[trigger] t.delegator_is_placed(a, now) by {
        assert(s.delegator_is_placed(a, now));
    }
}

/// With the books in order, every bonded delegator can claim and unbond, whatever the pool has
/// earned.
pub proof fn law_bonded_delegator_can_claim(
    s: Storage,
    now: EraIndex,
    who: AccountId,
    reward_free_balance: Balance,
)
    requires
        s.is_consistent(now),
        s.delegators.contains_key(who),
        s.delegators[who].unbonding_era is None,
    ensures
        s.claim_payout(who, reward_free_balance) is Ok,
        s.unbond(who, reward_free_balance) is Ok,
{
    assert(s.delegator_is_placed(who, now));
}

/// With the books in order, the shares that a delegator claims on are among those of the reward
/// pool, and the claim leaves enough of them for all others.
proof fn lemma_claim_is_covered(
    s: Storage,
    now: EraIndex,
    who: AccountId,
    reward_free_balance: Balance,
)
    requires
        s.is_consistent(now),
        s.claim_payout(who, reward_free_balance) is Ok,
        s.earnings_fit(s.delegators[who].pool, reward_free_balance),
    ensures
        ({
            let d = s.delegators[who];
            let pool = d.pool;
            let r = s.reward_pools[pool];
            let total = r.updated(reward_free_balance).total_earnings;
            let inflated = r.inflated_shares(s.primary_pools[pool].shares, reward_free_balance);
            &&& r.virtual_shares(d, reward_free_balance) == if_entitled(pool, total)(d)
            &&& sum_delegators(s.delegators, if_entitled(pool, total)) <= inflated
            &&& r.virtual_shares(d, reward_free_balance) <= inflated
        }),
{
    let d = s.delegators[who];
    let pool = d.pool;
    let r = s.reward_pools[pool];
    let old_total = r.total_earnings;
    let total = r.updated(reward_free_balance).total_earnings;
    let earned = r.new_earnings(reward_free_balance) as int;
    let primary = s.primary_pools[pool].shares;
    assert(s.primary_shares_add_up(pool));
    assert(s.rewards_are_covered(pool));
    let before = if_entitled(pool, old_total);
    let after = if_entitled(pool, total);
    let bonded = if_bonded(pool);
    let growth = |x: Delegator| bonded(x) * earned;
    let bound = |x: Delegator| before(x) + growth(x);
    assert forall|a: AccountId| #[trigger] s.delegators.contains_key(a) implies after(
        s.delegators[a],
    ) <= bound(s.delegators[a]) by {
        let x = s.delegators[a];
        let (n, m) = (x.shares as int, x.reward_pool_total_earnings);
        let (u, v) = (total.saturating_sub(m) as int, old_total.saturating_sub(m) as int);
        assert(n * u <= n * v + n * earned) by (nonlinear_arith)
            requires
                u <= v + earned,
                0 <= n,
        ;
        assert(0 * earned == 0) by (nonlinear_arith);
    }
    lemma_sum_no_larger(s.delegators, after, bound);
    lemma_sum_together(s.delegators, before, growth, bound);
    lemma_sum_times(s.delegators, bonded, growth, earned);
    assert forall|x: Delegator| #[trigger] after(x) >= 0 by {
        assert(0 <= x.shares * total.saturating_sub(x.reward_pool_total_earnings))
            by (nonlinear_arith);
    }
    lemma_sum_includes(s.delegators, after, who);
}

impl Storage {
    /// Counting what `pool` has earned, up to `reward_free_balance` on its reward account, leads to
    /// numbers that fit.
    pub open spec fn earnings_fit(self, pool: PoolId, reward_free_balance: Balance) -> bool {
        let r = self.reward_pools[pool];
        let earned = reward_free_balance.saturating_sub(r.balance);
        &&& r.total_earnings + earned <= u128::MAX
        &&& r.shares + self.primary_pools[pool].shares * earned <= u128::MAX
    }
}

/// A payout never exceeds what is on the reward account. It leaves the books in order, unless the
/// earnings no longer fit.
pub proof fn law_payout_keeps_consistency(
    s: Storage,
    now: EraIndex,
    who: AccountId,
    reward_free_balance: Balance,
)
    requires
        s.is_consistent(now),
        s.claim_payout(who, reward_free_balance) is Ok,
        s.earnings_fit(s.delegators[who].pool, reward_free_balance),
    ensures
        s.claim_payout(who, reward_free_balance)->Ok_0.amount <= reward_free_balance,
        s.paid_out(s.claim_payout(who, reward_free_balance)->Ok_0).is_consistent(now),
{
    let payout = s.claim_payout(who, reward_free_balance)->Ok_0;
    let t = s.paid_out(payout);
    let d = s.delegators[who];
    let e = payout.delegator;
    let r = s.reward_pools[d.pool];
    let inflated = r.inflated_shares(s.primary_pools[d.pool].shares, reward_free_balance);
    let claimed = r.virtual_shares(d, reward_free_balance);
    lemma_claim_is_covered(s, now, who, reward_free_balance);
    if inflated != 0 {
        lemma_scaled_le(claimed, inflated, reward_free_balance);
        let (x, i, c, b) = (
            payout.amount as int,
            inflated as int,
            claimed as int,
            reward_free_balance as int,
        );
        assert(x <= b) by (nonlinear_arith)
            requires
                x * i <= c * b,
                c <= i,
                0 < i,
                0 <= b,
        ;
    }
    assert forall|pool: PoolId| #[trigger] t.primary_shares_add_up(pool) by {
        assert(s.primary_shares_add_up(pool));
        lemma_sum_insert(s.delegators, if_bonded(pool), who, e);
    }
    assert forall|pool: PoolId, era: EraIndex| #[trigger] t.era_shares_add_up(pool, era) by {
        assert(s.era_shares_add_up(pool, era));
        lemma_sum_insert(s.delegators, if_unbonding(pool, era), who, e);
    }
    assert forall|pool: PoolId| #[trigger] t.merged_shares_add_up(pool) by {
        assert(s.merged_shares_add_up(pool));
        lemma_sum_insert(s.delegators, if_merged(pool, s.sub_pools_of(pool).with_era), who, e);
    }
    assert forall|pool: PoolId| #[trigger] t.rewards_are_covered(pool) by {
        assert(s.rewards_are_covered(pool));
        let f = if_entitled(pool, t.reward_pools[pool].total_earnings);
        lemma_sum_insert(s.delegators, f, who, e);
        assert(e.shares * 0 == 0) by (nonlinear_arith);
    }
    assert forall|pool: PoolId| #[trigger] t.era_pools_are_bounded(pool) by {
        assert(s.era_pools_are_bounded(pool));
    }
    assert forall|pool: PoolId, era: EraIndex| #[trigger] t.eras_are_past(pool, era, now) by {
        assert(s.eras_are_past(pool, era, now));
    }
    assert forall|a: AccountId| #[trigger] t.delegator_is_placed(a, now) by {
        assert(s.delegator_is_placed(a, now));
        assert(s.delegator_is_placed(who, now));
    }
}

/// What the delegators hold whose pools were merged before, or belong to an era before `cut`.
spec fn if_merged_below(
    pool: PoolId,
    pools: Map<EraIndex, UnbondPool>,
    cut: int,
) -> spec_fn(Delegator) -> int {
    |d: Delegator|
        if d.pool == pool && d.unbonding_era is Some && (!pools.contains_key(d.unbonding_era->0)
            || d.unbonding_era->0 < cut) {
            d.shares as int
        } else {
            0
        }
}

/// The pools of the eras before `cut` hold the shares of the delegators that belong to them.
proof fn lemma_merged_below(s: Storage, now: EraIndex, pool: PoolId, cut: int)
    requires
        s.is_consistent(now),
        cut <= u32::MAX + 1,
    ensures
        s.sub_pools_of(pool).no_era.shares + shares_within(s.sub_pools_of(pool).with_era, 0, cut)
            == sum_delegators(
            s.delegators,
            if_merged_below(pool, s.sub_pools_of(pool).with_era, cut),
        ),
    decreases cut,
{
    let pools = s.sub_pools_of(pool).with_era;
    if cut <= 0 {
        assert(s.merged_shares_add_up(pool));
        lemma_sum_agree(s.delegators, if_merged(pool, pools), if_merged_below(pool, pools, cut));
    } else {
        lemma_merged_below(s, now, pool, cut - 1);
        let era = (cut - 1) as EraIndex;
        let before = if_merged_below(pool, pools, cut - 1);
        let after = if_merged_below(pool, pools, cut);
        if pools.contains_key(era) {
            assert(s.era_shares_add_up(pool, era));
            lemma_sum_together(s.delegators, before, if_unbonding(pool, era), after);
        } else {
            lemma_sum_agree(s.delegators, before, after);
        }
    }
}

/// The books still add up after a bonded delegator, who was paid their rewards, started to unbond.
proof fn lemma_unbonded_is_consistent(
    s: Storage,
    now: EraIndex,
    who: AccountId,
    current_era: EraIndex,
    amount: Balance,
)
    requires
        s.is_consistent(now),
        now <= current_era,
        s.max_unbonding >= 1,
        s.delegators.contains_key(who),
        s.delegators[who].unbonding_era is None,
        s.unbonded_shares_fit(who, current_era, amount),
    ensures
        s.unbonded(
            who,
            s.primary_pools[s.delegators[who].pool],
            current_era,
            amount,
        ).is_consistent(current_era),
{
    let d = s.delegators[who];
    let t = s.unbonded(who, s.primary_pools[d.pool], current_era, amount);
    let e = t.delegators[who];
    let found = s.sub_pools_of(d.pool);
    let merged = found.merged(current_era, s.max_unbonding);
    let stored = t.sub_pools_of(d.pool);
    let cut = current_era - s.max_unbonding + 1;
    assert(s.delegator_is_placed(who, now));
    assert(s.primary_shares_add_up(d.pool));
    lemma_sum_includes(s.delegators, if_bonded(d.pool), who);
    assert forall|pool: PoolId| #[trigger] t.primary_shares_add_up(pool) by {
        assert(s.primary_shares_add_up(pool));
        lemma_sum_insert(s.delegators, if_bonded(pool), who, e);
    }
    assert forall|pool: PoolId, era: EraIndex| #[trigger] t.era_shares_add_up(pool, era) by {
        assert(s.era_shares_add_up(pool, era));
        lemma_sum_insert(s.delegators, if_unbonding(pool, era), who, e);
        if pool == d.pool && era == current_era && !found.with_era.contains_key(era) {
            assert forall|a: AccountId| #[trigger]
                s.delegators.contains_key(a) implies if_unbonding(pool, era)(s.delegators[a])
                == 0 by {
                assert(s.delegator_is_placed(a, now));
            }
            lemma_sum_nothing(s.delegators, if_unbonding(pool, era));
        }
    }
    assert forall|pool: PoolId| #[trigger] t.merged_shares_add_up(pool) by {
        assert(s.merged_shares_add_up(pool));
        if pool == d.pool {
            lemma_merged_below(s, now, pool, cut);
            lemma_within_nonnegative(found.with_era, 0, cut);
            let below = if_merged_below(pool, found.with_era, cut);
            let after = if_merged(pool, stored.with_era);
            lemma_sum_insert(s.delegators, after, who, e);
            assert forall|a: AccountId| #[trigger] s.delegators.contains_key(a) implies below(
                s.delegators[a],
            ) == after(s.delegators[a]) by {
                assert(s.delegator_is_placed(a, now));
            }
            lemma_sum_agree(s.delegators, below, after);
        } else {
            lemma_sum_insert(s.delegators, if_merged(pool, s.sub_pools_of(pool).with_era), who, e);
        }
    }
    assert forall|pool: PoolId| #[trigger] t.rewards_are_covered(pool) by {
        assert(s.rewards_are_covered(pool));
        let total = s.reward_pools[pool].total_earnings;
        let f = if_entitled(pool, total);
        lemma_sum_insert(s.delegators, f, who, e);
        assert(0 <= d.shares * total.saturating_sub(d.reward_pool_total_earnings))
            by (nonlinear_arith);
    }
    assert forall|pool: PoolId| #[trigger] t.era_pools_are_bounded(pool) by {
        assert(s.era_pools_are_bounded(pool));
        if pool == d.pool {
            assert forall|era: EraIndex| #[trigger] found.with_era.contains_key(era) implies era
                <= current_era by {
                assert(s.eras_are_past(pool, era, now));
            }
            law_unbonding_pools_are_bounded(found, current_era, s.max_unbonding, amount);
        }
    }
    assert forall|pool: PoolId, era: EraIndex| #[trigger]
        t.eras_are_past(pool, era, current_era) by {
        assert(s.eras_are_past(pool, era, now));
    }
    assert forall|a: AccountId| #[trigger] t.delegator_is_placed(a, current_era) by {
        assert(s.delegator_is_placed(a, now));
    }
}

/// The books still add up after a delegator was paid their rewards and started to unbond, unless
/// the earnings or the shares of a sub pool no longer fit. Eras do not go back, and an unbonding
/// pool exists for one era at least.
pub proof fn law_unbond_keeps_consistency(
    s: Storage,
    now: EraIndex,
    who: AccountId,
    reward_free_balance: Balance,
    current_era: EraIndex,
    amount: Balance,
)
    requires
        s.is_consistent(now),
        now <= current_era,
        s.max_unbonding >= 1,
        s.unbond(who, reward_free_balance) is Ok,
        s.earnings_fit(s.delegators[who].pool, reward_free_balance),
        s.unbonded_shares_fit(who, current_era, amount),
    ensures
        ({
            let unbonding = s.unbond(who, reward_free_balance)->Ok_0;
            s.paid_out(unbonding.payout).unbonded(
                who,
                unbonding.primary_pool,
                current_era,
                amount,
            ).is_consistent(current_era)
        }),
{
    let unbonding = s.unbond(who, reward_free_balance)->Ok_0;
    law_payout_keeps_consistency(s, now, who, reward_free_balance);
    lemma_unbonded_is_consistent(
        s.paid_out(unbonding.payout),
        now,
        who,
        current_era,
        amount,
    );
}

impl Storage {
    /// The shares of the sub pools fit, after `who` started to unbond `amount`.
    pub open spec fn unbonded_shares_fit(
        self,
        who: AccountId,
        current_era: EraIndex,
        amount: Balance,
    ) -> bool {
        let found = self.sub_pools_of(self.delegators[who].pool);
        let unbond_pool = found.merged(current_era, self.max_unbonding).pool_of(current_era);
        &&& found.no_era.shares + shares_within(
            found.with_era,
            0,
            current_era - self.max_unbonding + 1,
        ) <= u128::MAX
        &&& unbond_pool.shares + issued_shares(unbond_pool.balance, unbond_pool.shares, amount)
            <= u128::MAX
    }
}

/// With the books in order, an unbonding delegator's shares are among those of the sub pool their
/// funds are in.
proof fn lemma_unbonding_shares_held(s: Storage, now: EraIndex, who: AccountId)
    requires
        s.is_consistent(now),
        s.delegators.contains_key(who),
        s.delegators[who].unbonding_era is Some,
    ensures
        s.delegators[who].shares <= s.unbond_pool_of(s.delegators[who]).shares,
{
    let d = s.delegators[who];
    let era = d.unbonding_era->0;
    let pools = s.sub_pools_of(d.pool).with_era;
    if pools.contains_key(era) {
        assert(s.era_shares_add_up(d.pool, era));
        lemma_sum_includes(s.delegators, if_unbonding(d.pool, era), who);
    } else {
        assert(s.merged_shares_add_up(d.pool));
        lemma_sum_includes(s.delegators, if_merged(d.pool, pools), who);
    }
}

/// With the books in order, every bonded delegator's shares have a price, whatever is bonded for
/// the pool, and so have every unbonding delegator's.
pub proof fn law_shares_have_a_price(s: Storage, now: EraIndex, who: AccountId, bonded: Balance)
    requires
        s.is_consistent(now),
        s.delegators.contains_key(who),
    ensures
        ({
            let d = s.delegators[who];
            let unbond_pool = s.unbond_pool_of(d);
            &&& d.unbonding_era is None ==> d.shares <= s.primary_pools[d.pool].shares && has_price(
                bonded,
                s.primary_pools[d.pool].shares,
                d.shares,
            )
            &&& d.unbonding_era is Some ==> d.shares <= unbond_pool.shares && has_price(
                unbond_pool.balance,
                unbond_pool.shares,
                d.shares,
            )
        }),
{
    let d = s.delegators[who];
    assert(s.delegator_is_placed(who, now));
    if d.unbonding_era is None {
        assert(s.primary_shares_add_up(d.pool));
        lemma_sum_includes(s.delegators, if_bonded(d.pool), who);
    } else {
        lemma_unbonding_shares_held(s, now, who);
    }
}

/// A withdrawal never exceeds what is in the sub pool it comes from, and the books still add up
/// after it.
pub proof fn law_withdraw_keeps_consistency(
    s: Storage,
    now: EraIndex,
    who: AccountId,
    current_era: EraIndex,
    bond_duration: EraIndex,
)
    requires
        s.is_consistent(now),
        s.withdraw_unbonded(who, current_era, bond_duration) is Ok,
    ensures
        ({
            let w = s.withdraw_unbonded(who, current_era, bond_duration)->Ok_0;
            let unbond_pool = s.unbond_pool_of(s.delegators[who]);
            &&& w.amount <= unbond_pool.balance
            &&& w.remaining.balance == unbond_pool.balance - w.amount
            &&& w.remaining.shares == unbond_pool.shares - s.delegators[who].shares
            &&& s.withdrawn(w).is_consistent(now)
        }),
{
    let w = s.withdraw_unbonded(who, current_era, bond_duration)->Ok_0;
    let t = s.withdrawn(w);
    let d = s.delegators[who];
    let unbond_pool = s.unbond_pool_of(d);
    lemma_unbonding_shares_held(s, now, who);
    law_redeeming_is_covered(unbond_pool.balance, unbond_pool.shares, d.shares);
    assert forall|pool: PoolId| #[trigger] t.primary_shares_add_up(pool) by {
        assert(s.primary_shares_add_up(pool));
        lemma_sum_remove(s.delegators, if_bonded(pool), who);
    }
    assert forall|pool: PoolId, era: EraIndex| #[trigger] t.era_shares_add_up(pool, era) by {
        assert(s.era_shares_add_up(pool, era));
        lemma_sum_remove(s.delegators, if_unbonding(pool, era), who);
    }
    assert forall|pool: PoolId| #[trigger] t.merged_shares_add_up(pool) by {
        assert(s.merged_shares_add_up(pool));
        let before = if_merged(pool, s.sub_pools_of(pool).with_era);
        let after = if_merged(pool, t.sub_pools_of(pool).with_era);
        lemma_sum_remove(s.delegators, before, who);
        lemma_sum_agree(t.delegators, before, after);
    }
    assert forall|pool: PoolId| #[trigger] t.rewards_are_covered(pool) by {
        assert(s.rewards_are_covered(pool));
        lemma_sum_remove(
            s.delegators,
            if_entitled(pool, s.reward_pools[pool].total_earnings),
            who,
        );
    }
    assert forall|pool: PoolId| #[trigger] t.era_pools_are_bounded(pool) by {
        assert(s.era_pools_are_bounded(pool));
        assert(t.sub_pools_of(pool).with_era.dom() =~= s.sub_pools_of(pool).with_era.dom());
    }
    assert forall|pool: PoolId, era: EraIndex| #[trigger] t.eras_are_past(pool, era, now) by {
        assert(s.eras_are_past(pool, era, now));
    }
    assert forall|a: AccountId| #[trigger] t.delegator_is_placed(a, now) by {
        assert(s.delegator_is_placed(a, now));
    }
}

/// The books still add up after a slash: it lowers balances, and touches no shares.
pub proof fn law_slash_keeps_consistency(
    s: Storage,
    now: EraIndex,
    pool: PoolId,
    slash_era: EraIndex,
    apply_era: EraIndex,
    parts: u128,
)
    requires
        s.is_consistent(now),
    ensures
        s.slashed(pool, slash_era, apply_era, parts).is_consistent(now),
{
    let t = s.slashed(pool, slash_era, apply_era, parts);
    assert forall|p: PoolId| #[trigger] t.primary_shares_add_up(p) by {
        assert(s.primary_shares_add_up(p));
    }
    assert forall|p: PoolId, era: EraIndex| #[trigger] t.era_shares_add_up(p, era) by {
        assert(s.era_shares_add_up(p, era));
    }
    assert forall|p: PoolId| #[trigger] t.merged_shares_add_up(p) by {
        assert(s.merged_shares_add_up(p));
        lemma_sum_agree(
            s.delegators,
            if_merged(p, s.sub_pools_of(p).with_era),
            if_merged(p, t.sub_pools_of(p).with_era),
        );
    }
    assert forall|p: PoolId| #[trigger] t.rewards_are_covered(p) by {
        assert(s.rewards_are_covered(p));
    }
    assert forall|p: PoolId| #[trigger] t.era_pools_are_bounded(p) by {
        assert(s.era_pools_are_bounded(p));
        assert(t.sub_pools_of(p).with_era.dom() =~= s.sub_pools_of(p).with_era.dom());
    }
    assert forall|p: PoolId, era: EraIndex| #[trigger] t.eras_are_past(p, era, now) by {
        assert(s.eras_are_past(p, era, now));
    }
    assert forall|a: AccountId| #[trigger] t.delegator_is_placed(a, now) by {
        assert(s.delegator_is_placed(a, now));
    }
}

} // verus!
