//! Sub pools: funds that are unbonding, by the era in which they started to.

use crate::fixed::{clip, scaled, Ratio};
use crate::shares::{balance_for, has_price, issued_shares, redeemed_balance, shares_for};
use crate::sums::sum_below;
use crate::types::{Balance, Shares};
use frame_support::storage::bounded_btree_map::BoundedBTreeMap;
use frame_support::traits::ConstU32;
use sp_staking::EraIndex;
use sp_std::collections::btree_map::BTreeMap;
use vstd::prelude::*;

verus! {

/// The bounded map of the runtime's storage, whose contents `era_pools` names.
#[verifier::external_type_specification]
#[verifier::external_body]
#[verifier::reject_recursive_types(K)]
#[verifier::reject_recursive_types(V)]
#[verifier::reject_recursive_types(S)]
pub struct ExBoundedBTreeMap<K, V, S>(BoundedBTreeMap<K, V, S>);

/// A constant bound for a bounded map.
#[verifier::external_type_specification]
#[verifier::external_body]
pub struct ExConstU32<const T: u32>(ConstU32<T>);

/// A pool of funds that started to unbond in the same era.
#[derive(Clone, Copy, PartialEq, Eq, Debug)]
pub struct UnbondPool {
    pub shares: Shares,
    pub balance: Balance,
}

/// Map of era to unbond pool. It takes any number of eras: how many of them there are at a time is
/// kept down by merging, to a number that is given when merging.
pub type SubPoolsWithEra = BoundedBTreeMap<EraIndex, UnbondPool, ConstU32<4294967295>>;

/// The unbond pools that a map holds, by era.
pub uninterp spec fn era_pools(m: SubPoolsWithEra) -> Map<EraIndex, UnbondPool>;

/// No unbond pools at all.
pub open spec fn no_pools() -> Map<EraIndex, UnbondPool> {
    Map::empty()
}

/// `BoundedBTreeMap::new`: a map that holds nothing.
#[verifier::external_body]
fn new_era_pools() -> (m: SubPoolsWithEra)
    ensures
        era_pools(m) == no_pools(),
{
    BoundedBTreeMap::new()
}

/// `BTreeMap::get`, which the bounded map dereferences to: the pool held for the era, if any.
#[verifier::external_body]
fn get_era_pool(m: &SubPoolsWithEra, era: EraIndex) -> (pool: Option<UnbondPool>)
    ensures
        pool == era_pools(*m).get(era),
{
    m.get(&era).copied()
}

/// `BTreeMap::keys`, which the bounded map dereferences to: the eras for which a pool is held, each
/// once and in ascending order.
#[verifier::external_body]
fn list_eras(m: &SubPoolsWithEra) -> (eras: Vec<EraIndex>)
    ensures
        forall|i: int, j: int| 0 <= i < j < eras.len() ==> eras[i] < eras[j],
        forall|era: EraIndex| #[trigger]
            era_pools(*m).contains_key(era) <==> eras@.contains(era),
{
    m.keys().cloned().collect()
}

/// `BoundedBTreeMap::remove`: takes the pool of the era out and hands it back, if there was one.
#[verifier::external_body]
fn remove_era_pool(m: &mut SubPoolsWithEra, era: EraIndex) -> (pool: Option<UnbondPool>)
    ensures
        era_pools(*final(m)) == era_pools(*old(m)).remove(era),
        pool == era_pools(*old(m)).get(era),
{
    m.remove(&era)
}

/// `BoundedBTreeMap::try_insert`: puts the pool in for the era and hands back the one that was
/// there. It does nothing, and hands the pair back, where the era is new and the map is as large as
/// its bound.
#[verifier::external_body]
fn try_insert_era_pool(m: &mut SubPoolsWithEra, era: EraIndex, pool: UnbondPool) -> (r: Result<
    Option<UnbondPool>,
    (EraIndex, UnbondPool),
>)
    ensures
        r is Ok <==> era_pools(*old(m)).contains_key(era) || era_pools(*old(m)).len() < u32::MAX,
        match r {
            Ok(previous) => previous == era_pools(*old(m)).get(era) && era_pools(*final(m))
                == era_pools(*old(m)).insert(era, pool),
            Err(back) => back == (era, pool) && era_pools(*final(m)) == era_pools(*old(m)),
        },
{
    m.try_insert(era, pool)
}

impl UnbondPool {
    /// A pool without funds and shares.
    pub open spec fn empty() -> UnbondPool {
        UnbondPool { shares: 0, balance: 0 }
    }

    /// This pool after `new_funds` came in.
    pub open spec fn issue(self, new_funds: Balance) -> UnbondPool {
        UnbondPool {
            shares: self.shares.saturating_add(
                issued_shares(self.balance, self.shares, new_funds),
            ),
            balance: self.balance.saturating_add(new_funds),
        }
    }

    /// This pool after `n` of its shares were taken out.
    pub open spec fn redeem(self, n: Shares) -> UnbondPool {
        UnbondPool {
            shares: self.shares.saturating_sub(n),
            balance: self.balance.saturating_sub(redeemed_balance(self.balance, self.shares, n)),
        }
    }

    /// The amount of shares to issue for some new funds.
    pub fn shares_to_issue(&self, new_funds: Balance) -> (issued: Shares)
        ensures
            issued == issued_shares(self.balance, self.shares, new_funds),
    {
        shares_for(self.balance, self.shares, new_funds)
    }

    /// The amount of balance that a delegator's shares are worth.
    pub fn balance_to_unbond(&self, delegator_shares: Shares) -> (worth: Balance)
        requires
            has_price(self.balance, self.shares, delegator_shares),
        ensures
            worth == redeemed_balance(self.balance, self.shares, delegator_shares),
    {
        balance_for(self.balance, self.shares, delegator_shares)
    }
}

impl Default for UnbondPool {
    fn default() -> (pool: UnbondPool)
        ensures
            pool == UnbondPool::empty(),
            pool.shares == 0 && pool.balance == 0,
    {
        UnbondPool { shares: 0, balance: 0 }
    }
}

/// What a group of sub pools holds.
#[verifier::ext_equal]
pub struct SubPools {
    pub no_era: UnbondPool,
    pub with_era: Map<EraIndex, UnbondPool>,
}

/// The sum of the shares of the pools of the eras from `lo` to `hi`, `hi` not among them.
pub open spec fn shares_within(m: Map<EraIndex, UnbondPool>, lo: int, hi: int) -> int {
    sum_below(
        |e: int|
            if lo <= e && m.contains_key(e as EraIndex) {
                m[e as EraIndex].shares as int
            } else {
                0
            },
        hi,
    )
}

/// The sum of the balances of the pools of the eras from `lo` to `hi`, `hi` not among them.
pub open spec fn balance_within(m: Map<EraIndex, UnbondPool>, lo: int, hi: int) -> int {
    sum_below(
        |e: int|
            if lo <= e && m.contains_key(e as EraIndex) {
                m[e as EraIndex].balance as int
            } else {
                0
            },
        hi,
    )
}

/// One era more adds its pool, if there is one.
pub proof fn lemma_within_step(m: Map<EraIndex, UnbondPool>, lo: int, hi: int)
    requires
        0 <= lo <= hi <= u32::MAX,
    ensures
        shares_within(m, lo, hi + 1) == shares_within(m, lo, hi) + (if m.contains_key(
            hi as EraIndex,
        ) {
            m[hi as EraIndex].shares as int
        } else {
            0
        }),
        balance_within(m, lo, hi + 1) == balance_within(m, lo, hi) + (if m.contains_key(
            hi as EraIndex,
        ) {
            m[hi as EraIndex].balance as int
        } else {
            0
        }),
{
}

/// Eras without pools add nothing.
pub proof fn lemma_within_gap(m: Map<EraIndex, UnbondPool>, lo: int, a: int, b: int)
    requires
        0 <= lo,
        a <= b <= u32::MAX + 1,
        forall|e: EraIndex| lo <= e && a <= e < b ==> !#[trigger] m.contains_key(e),
    ensures
        shares_within(m, lo, a) == shares_within(m, lo, b),
        balance_within(m, lo, a) == balance_within(m, lo, b),
    decreases b - a,
{
    if a < b {
        lemma_within_gap(m, lo, a, b - 1);
        if 0 < b {
            assert(lo <= b - 1 ==> !m.contains_key((b - 1) as EraIndex));
        }
    }
}

/// The era after the last of the first `n` of some eras in ascending order.
pub open spec fn after_listed(eras: Seq<EraIndex>, n: int) -> int {
    if n <= 0 {
        0
    } else {
        eras[n - 1] + 1
    }
}

/// With all eras that have a pool listed in ascending order, there is no pool between one of them
/// and the next.
pub proof fn lemma_within_listed(
    m: Map<EraIndex, UnbondPool>,
    eras: Seq<EraIndex>,
    n: int,
    hi: int,
)
    requires
        forall|i: int, j: int| 0 <= i < j < eras.len() ==> eras[i] < eras[j],
        forall|era: EraIndex| #[trigger] m.contains_key(era) <==> eras.contains(era),
        0 <= n <= eras.len(),
        after_listed(eras, n) <= hi <= u32::MAX + 1,
        n < eras.len() ==> hi <= eras[n],
    ensures
        forall|era: EraIndex| after_listed(eras, n) <= era < hi ==> !#[trigger] m.contains_key(era),
        shares_within(m, 0, after_listed(eras, n)) == shares_within(m, 0, hi),
        balance_within(m, 0, after_listed(eras, n)) == balance_within(m, 0, hi),
{
    assert forall|era: EraIndex| after_listed(eras, n) <= era < hi implies !#[trigger]
        m.contains_key(era) by {
        if m.contains_key(era) {
            let j = choose|j: int| 0 <= j < eras.len() && eras[j] == era;
            if j < n - 1 {
                assert(eras[j] < eras[n - 1]);
            }
            if j > n {
                assert(eras[n] < eras[j]);
            }
        }
    }
    lemma_within_gap(m, 0, after_listed(eras, n), hi);
}

/// An empty range of eras holds nothing.
pub proof fn lemma_within_empty(m: Map<EraIndex, UnbondPool>, lo: int, hi: int)
    requires
        hi <= lo,
    ensures
        shares_within(m, lo, hi) == 0,
        balance_within(m, lo, hi) == 0,
    decreases hi,
{
    if hi > 0 {
        lemma_within_empty(m, lo, hi - 1);
    }
}

/// What a range of eras holds is not negative.
pub proof fn lemma_within_nonnegative(m: Map<EraIndex, UnbondPool>, lo: int, hi: int)
    ensures
        shares_within(m, lo, hi) >= 0,
        balance_within(m, lo, hi) >= 0,
    decreases hi,
{
    if hi > 0 {
        lemma_within_nonnegative(m, lo, hi - 1);
    }
}

/// There are only finitely many eras.
pub proof fn lemma_eras_finite(eras: Set<EraIndex>)
    ensures
        eras.finite(),
{
    let all = vstd::set_lib::set_int_range(0, u32::MAX + 1);
    vstd::set_lib::lemma_int_range(0, u32::MAX + 1);
    let f = |i: int| i as EraIndex;
    all.lemma_map_finite(f);
    assert(eras.subset_of(all.map(f))) by {
        assert forall|era: EraIndex| eras.contains(era) implies all.map(f).contains(era) by {
            assert(all.contains(era as int) && f(era as int) == era);
        }
    }
    vstd::set_lib::lemma_set_subset_finite(all.map(f), eras);
}

/// The pools of the eras from `cut` on.
pub open spec fn pools_from(m: Map<EraIndex, UnbondPool>, cut: int) -> Map<EraIndex, UnbondPool> {
    Map::new(|era: EraIndex| m.contains_key(era) && cut <= era, |era: EraIndex| m[era])
}

/// Whether the pool of `era` has existed for `max_unbonding` eras, so that it is merged.
pub open spec fn is_stale(era: EraIndex, current_era: EraIndex, max_unbonding: u32) -> bool {
    era + max_unbonding <= current_era
}

impl SubPools {
    /// No funds at all.
    pub open spec fn empty() -> SubPools {
        SubPools { no_era: UnbondPool::empty(), with_era: no_pools() }
    }

    /// These pools, with the funds and shares of all stale ones moved to the one without an era.
    pub open spec fn merged(self, current_era: EraIndex, max_unbonding: u32) -> SubPools {
        SubPools {
            no_era: UnbondPool {
                shares: clip(
                    self.no_era.shares + shares_within(
                        self.with_era,
                        0,
                        current_era - max_unbonding + 1,
                    ),
                ),
                balance: clip(
                    self.no_era.balance + balance_within(
                        self.with_era,
                        0,
                        current_era - max_unbonding + 1,
                    ),
                ),
            },
            with_era: Map::new(
                |era: EraIndex|
                    self.with_era.contains_key(era) && !is_stale(era, current_era, max_unbonding),
                |era: EraIndex| self.with_era[era],
            ),
        }
    }

    /// The pool of `era`, or an empty one.
    pub open spec fn pool_of(self, era: EraIndex) -> UnbondPool {
        if self.with_era.contains_key(era) {
            self.with_era[era]
        } else {
            UnbondPool::empty()
        }
    }

    /// Whether the map has room for a pool of `era`.
    pub open spec fn has_room(self, era: EraIndex) -> bool {
        self.with_era.contains_key(era) || self.with_era.len() < u32::MAX
    }

    /// These pools after `new_funds` came in for `era`.
    pub open spec fn issue(self, era: EraIndex, new_funds: Balance) -> SubPools {
        SubPools {
            with_era: self.with_era.insert(era, self.pool_of(era).issue(new_funds)),
            ..self
        }
    }

    /// These pools, with the balance of each of the eras `first` to `last` scaled by `parts`.
    pub open spec fn slashed(self, first: int, last: int, parts: u128) -> SubPools {
        SubPools {
            with_era: Map::new(
                |era: EraIndex| self.with_era.contains_key(era),
                |era: EraIndex|
                    if first <= era <= last {
                        UnbondPool {
                            balance: scaled(parts, self.with_era[era].balance),
                            ..self.with_era[era]
                        }
                    } else {
                        self.with_era[era]
                    },
            ),
            ..self
        }
    }

    /// The balances of the eras `first` to `last`, each scaled by `parts`.
    pub open spec fn slashed_balances(self, first: int, last: int, parts: u128) -> Map<
        EraIndex,
        Balance,
    > {
        Map::new(
            |era: EraIndex| self.with_era.contains_key(era) && first <= era <= last,
            |era: EraIndex| scaled(parts, self.with_era[era].balance),
        )
    }
}

/// A group of pools of unbonding funds.
pub struct SubPoolsContainer {
    /// A general, era agnostic pool of funds that have fully unbonded. The pools of `with_era`
    /// are lazily merged into this pool once they are too old.
    pub no_era: UnbondPool,
    /// Map of era to unbond pool.
    pub with_era: SubPoolsWithEra,
}

impl View for SubPoolsContainer {
    type V = SubPools;

    open spec fn view(&self) -> SubPools {
        SubPools { no_era: self.no_era, with_era: era_pools(self.with_era) }
    }
}

impl Default for SubPoolsContainer {
    fn default() -> (pools: SubPoolsContainer)
        ensures
            pools@ == SubPools::empty(),
    {
        SubPoolsContainer { no_era: UnbondPool::default(), with_era: new_era_pools() }
    }
}

impl SubPoolsContainer {
    /// Merge the unbonding pools that have existed for `max_unbonding` eras into the general unbond
    /// pool with no associated era.
    ///
    /// If `max_unbonding` is 5 and the current era is 10, only the pools 6 to 10 are retained.
    pub fn maybe_merge_pools(self, current_era: EraIndex, max_unbonding: u32) -> (r: Self)
        ensures
            r@ == self@.merged(current_era, max_unbonding),
    {
        let mut pools = self;
        let ghost start = self@;
        if current_era < max_unbonding {
            // For the first `max_unbonding` eras of the chain there is nothing to do.
            proof {
                assert(start.merged(current_era, max_unbonding).with_era =~= start.with_era);
            }
            return pools;
        }
        let newest_to_merge: EraIndex = current_era - max_unbonding;
        let eras = list_eras(&pools.with_era);
        let mut i: usize = 0;
        let ghost mut cut: int = 0;
        proof {
            lemma_within_empty(start.with_era, 0, 0);
            assert(pools@.with_era =~= pools_from(start.with_era, cut));
        }
        while i < eras.len() && eras[i] <= newest_to_merge
            invariant
                forall|a: int, b: int| 0 <= a < b < eras.len() ==> eras[a] < eras[b],
                forall|era: EraIndex| #[trigger]
                    start.with_era.contains_key(era) <==> eras@.contains(era),
                i <= eras.len(),
                cut == after_listed(eras@, i as int),
                cut <= newest_to_merge + 1,
                pools@.with_era == pools_from(start.with_era, cut),
                pools.no_era.shares == clip(
                    start.no_era.shares + shares_within(start.with_era, 0, cut),
                ),
                pools.no_era.balance == clip(
                    start.no_era.balance + balance_within(start.with_era, 0, cut),
                ),
            decreases eras.len() - i,
        {
            let era: EraIndex = eras[i];
            proof {
                assert(eras@.contains(era)) by {
                    assert(eras@[i as int] == era);
                }
                assert(start.with_era.contains_key(era));
                if i > 0 {
                    assert(eras[i - 1] < eras[i as int]);
                }
                lemma_within_listed(start.with_era, eras@, i as int, era as int);
                lemma_within_step(start.with_era, 0, era as int);
                lemma_within_nonnegative(start.with_era, 0, cut);
            }
            if let Some(pool) = remove_era_pool(&mut pools.with_era, era) {
                pools.no_era.shares = pools.no_era.shares.saturating_add(pool.shares);
                pools.no_era.balance = pools.no_era.balance.saturating_add(pool.balance);
            }
            i += 1;
            proof {
                cut = era + 1;
                assert(pools@.with_era =~= pools_from(start.with_era, cut));
            }
        }
        proof {
            lemma_within_listed(start.with_era, eras@, i as int, newest_to_merge + 1);
            assert(pools@.with_era =~= start.merged(current_era, max_unbonding).with_era);
        }
        pools
    }

    /// The pool of `era`, if there is one.
    pub fn get(&self, era: EraIndex) -> (pool: Option<UnbondPool>)
        ensures
            pool == self@.with_era.get(era),
    {
        get_era_pool(&self.with_era, era)
    }

    /// Put `pool` in place for `era`.
    pub fn set(&mut self, era: EraIndex, pool: UnbondPool)
        requires
            old(self)@.has_room(era),
        ensures
            final(self)@ == (SubPools {
                with_era: old(self)@.with_era.insert(era, pool),
                ..old(self)@
            }),
    {
        let _ = try_insert_era_pool(&mut self.with_era, era, pool);
    }

    /// Take `new_funds` into the pool of `era`, which is created if it does not yet exist, and
    /// return the shares that were issued for them.
    pub fn issue(&mut self, era: EraIndex, new_funds: Balance) -> (issued: Shares)
        requires
            old(self)@.has_room(era),
        ensures
            issued == issued_shares(
                old(self)@.pool_of(era).balance,
                old(self)@.pool_of(era).shares,
                new_funds,
            ),
            final(self)@ == old(self)@.issue(era, new_funds),
    {
        let pool = match self.get(era) {
            Some(pool) => pool,
            None => UnbondPool::default(),
        };
        let issued: Shares = pool.shares_to_issue(new_funds);
        self.set(
            era,
            UnbondPool {
                shares: pool.shares.saturating_add(issued),
                balance: pool.balance.saturating_add(new_funds),
            },
        );
        issued
    }

    /// The funds in the pools of the eras `first` to `last`. This does not count the pool without
    /// an era.
    pub fn affected_balance(&self, first: EraIndex, last: EraIndex) -> (sum: Balance)
        ensures
            sum == clip(balance_within(self@.with_era, first as int, last + 1)),
    {
        let mut sum: Balance = 0;
        let mut era: u64 = first as u64;
        proof {
            lemma_within_empty(self@.with_era, first as int, first as int);
            if last < first {
                lemma_within_empty(self@.with_era, first as int, last + 1);
            }
        }
        while era <= last as u64
            invariant
                first <= era,
                era <= last + 1 || era == first,
                sum == clip(balance_within(self@.with_era, first as int, era as int)),
            decreases last + 1 - era,
        {
            proof {
                lemma_within_step(self@.with_era, first as int, era as int);
                lemma_within_nonnegative(self@.with_era, first as int, era as int);
            }
            if let Some(pool) = self.get(era as EraIndex) {
                sum = sum.saturating_add(pool.balance);
            }
            era += 1;
        }
        sum
    }

    /// Scale the balance of each pool of the eras `first` to `last` by `multiplier`, and return
    /// the balances by era.
    pub fn slash(&mut self, first: EraIndex, last: EraIndex, multiplier: Ratio) -> (balances:
        BTreeMap<EraIndex, Balance>)
        ensures
            final(self)@ == old(self)@.slashed(first as int, last as int, multiplier.parts),
            balances@ == old(self)@.slashed_balances(first as int, last as int, multiplier.parts),
            forall|era: EraIndex| #[trigger]
                balances@.contains_key(era) <==> old(self)@.with_era.contains_key(era) && first
                    <= era <= last,
            forall|era: EraIndex| #[trigger]
                balances@.contains_key(era) ==> final(self)@.with_era.contains_key(era)
                    && balances@[era] == final(self)@.with_era[era].balance,
    {
        let ghost start = self@;
        let mut balances: BTreeMap<EraIndex, Balance> = BTreeMap::new();
        let mut era: u64 = first as u64;
        proof {
            assert(self@ =~= start.slashed(first as int, first - 1, multiplier.parts));
            assert(balances@ =~= start.slashed_balances(first as int, first - 1, multiplier.parts));
            if last < first {
                assert(self@ =~= start.slashed(first as int, last as int, multiplier.parts));
                assert(balances@ =~= start.slashed_balances(
                    first as int,
                    last as int,
                    multiplier.parts,
                ));
            }
        }
        while era <= last as u64
            invariant
                first <= era,
                era <= last + 1 || era == first,
                self@ == start.slashed(first as int, era - 1, multiplier.parts),
                balances@ == start.slashed_balances(first as int, era - 1, multiplier.parts),
            decreases last + 1 - era,
        {
            let this_era: EraIndex = era as EraIndex;
            if let Some(pool) = self.get(this_era) {
                let after_slash_balance: Balance = multiplier.mul_int(pool.balance);
                self.set(this_era, UnbondPool { balance: after_slash_balance, ..pool });
                balances.insert(this_era, after_slash_balance);
            }
            proof {
                assert(self@ =~= start.slashed(first as int, era as int, multiplier.parts));
                assert(balances@ =~= start.slashed_balances(
                    first as int,
                    era as int,
                    multiplier.parts,
                ));
            }
            era += 1;
        }
        balances
    }
}

} // verus!
