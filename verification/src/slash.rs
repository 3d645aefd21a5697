//! Slashing the funds of a pool.

use crate::fixed::{clip, complement, ratio_of, scaled, Ratio};
use crate::staking::StakingInterface;
use crate::storage::{Pallet, Storage};
use crate::sub_pools::{balance_within, lemma_within_gap};
use crate::types::{AccountId, Balance, PoolId};
use sp_staking::EraIndex;
use sp_std::collections::btree_map::BTreeMap;
use vstd::prelude::*;

verus! {

impl Storage {
    /// The funds of a pool that a slash reaches: those that are bonded, and those that started to
    /// unbond after `slash_era` and up to `apply_era`. This does not count the pool without an era.
    pub open spec fn affected_balance(
        self,
        pool: PoolId,
        slash_era: EraIndex,
        apply_era: EraIndex,
        bonded_balance: Balance,
    ) -> Balance {
        bonded_balance.saturating_add(
            clip(balance_within(self.sub_pools_of(pool).with_era, slash_era + 1, apply_era + 1)),
        )
    }

    /// What remains, in parts, of each of these funds after a slash.
    pub open spec fn slash_multiplier(
        self,
        pool: PoolId,
        slash_amount: Balance,
        slash_era: EraIndex,
        apply_era: EraIndex,
        bonded_balance: Balance,
    ) -> u128 {
        complement(
            ratio_of(
                slash_amount,
                self.affected_balance(pool, slash_era, apply_era, bonded_balance),
            ),
        )
    }

    /// What is stored after a slash that leaves `parts` parts.
    pub open spec fn slashed(
        self,
        pool: PoolId,
        slash_era: EraIndex,
        apply_era: EraIndex,
        parts: u128,
    ) -> Storage {
        Storage {
            sub_pools: self.sub_pools.insert(
                pool,
                self.sub_pools_of(pool).slashed(slash_era + 1, apply_era as int, parts),
            ),
            ..self
        }
    }
}

/// What a slash gives back: the bonded balance after it, and the unbonding balances by era.
pub open spec fn is_slash_outcome(
    before: Storage,
    pool: PoolId,
    slash_amount: Balance,
    slash_era: EraIndex,
    apply_era: EraIndex,
    bonded_balance: Balance,
    outcome: (Balance, BTreeMap<EraIndex, Balance>),
) -> bool {
    let parts = before.slash_multiplier(pool, slash_amount, slash_era, apply_era, bonded_balance);
    &&& outcome.0 == scaled(parts, bonded_balance)
    &&& outcome.1@ == before.sub_pools_of(pool).slashed_balances(
        slash_era + 1,
        apply_era as int,
        parts,
    )
}

impl Pallet {
    /// Slash `slash_amount` of the pool with the account `pool_account`, which has `bonded_balance`
    /// bonded: every balance that the slash reaches is lowered in proportion. Return the bonded
    /// balance after the slash, and the balances of the unbonding pools that it reached by era.
    ///
    /// `slash_era` is the era the slash was initially reported, `apply_era` the one it is applied
    /// in. Nothing is done where no pool has this account.
    pub fn do_slash(
        &mut self,
        pool_account: &AccountId,
        slash_amount: Balance,
        slash_era: EraIndex,
        apply_era: EraIndex,
        bonded_balance: Balance,
    ) -> (r: Option<(Balance, BTreeMap<EraIndex, Balance>)>)
        requires
            old(self)@.pool_ids.contains_key(*pool_account) ==> slash_era < u32::MAX && old(
                self,
            )@.affected_balance(
                old(self)@.pool_ids[*pool_account],
                slash_era,
                apply_era,
                bonded_balance,
            ) != 0,
        ensures
            r is Some <==> old(self)@.pool_ids.contains_key(*pool_account),
            match r {
                Some(outcome) => {
                    let pool = old(self)@.pool_ids[*pool_account];
                    &&& is_slash_outcome(
                        old(self)@,
                        pool,
                        slash_amount,
                        slash_era,
                        apply_era,
                        bonded_balance,
                        outcome,
                    )
                    &&& final(self)@ == old(self)@.slashed(
                        pool,
                        slash_era,
                        apply_era,
                        old(self)@.slash_multiplier(
                            pool,
                            slash_amount,
                            slash_era,
                            apply_era,
                            bonded_balance,
                        ),
                    )
                    &&& forall|era: EraIndex| #[trigger]
                        outcome.1@.contains_key(era) <==> old(self)@.sub_pools.contains_key(pool)
                            && old(self)@.sub_pools[pool].with_era.contains_key(era) && slash_era
                            < era <= apply_era
                    &&& forall|era: EraIndex| #[trigger]
                        outcome.1@.contains_key(era) ==> final(self)@.sub_pools.contains_key(pool)
                            && final(self)@.sub_pools[pool].with_era.contains_key(era)
                            && outcome.1@[era] == final(self)@.sub_pools[pool].with_era[era].balance
                },
                None => final(self)@ == old(self)@,
            },
    {
        let pool_id: PoolId = match self.pool_ids.get(pool_account) {
            Some(pool_id) => *pool_id,
            None => return None,
        };
        let mut sub_pools = self.take_sub_pools(pool_id);
        let first_era: EraIndex = slash_era + 1;
        // Note that this doesn't count the balance in the `no_era` pool
        let unbonding_affected_balance: Balance = sub_pools.affected_balance(first_era, apply_era);
        let total_affected_balance: Balance = bonded_balance.saturating_add(
            unbonding_affected_balance,
        );
        let slash_ratio = Ratio::from_rational(slash_amount, total_affected_balance);
        let slash_multiplier = slash_ratio.complement();
        let unlock_chunk_balances = sub_pools.slash(first_era, apply_era, slash_multiplier);
        self.put_sub_pools(pool_id, sub_pools);
        let slashed_bonded_pool_balance: Balance = slash_multiplier.mul_int(bonded_balance);
        assert(self@ =~= old(self)@.slashed(
            pool_id,
            slash_era,
            apply_era,
            slash_multiplier.parts,
        ));
        Some((slashed_bonded_pool_balance, unlock_chunk_balances))
    }

    /// The funds that a slash of the pool with the account `pool_account` would reach, if there is
    /// such a pool.
    pub fn slashable_balance(
        &self,
        pool_account: &AccountId,
        slash_era: EraIndex,
        apply_era: EraIndex,
        bonded_balance: Balance,
    ) -> (r: Option<Balance>)
        requires
            self@.pool_ids.contains_key(*pool_account) ==> slash_era < u32::MAX,
        ensures
            r == (if self@.pool_ids.contains_key(*pool_account) {
                Some(
                    self@.affected_balance(
                        self@.pool_ids[*pool_account],
                        slash_era,
                        apply_era,
                        bonded_balance,
                    ),
                )
            } else {
                None
            }),
    {
        let pool_id: PoolId = match self.pool_ids.get(pool_account) {
            Some(pool_id) => *pool_id,
            None => return None,
        };
        let unbonding: Balance = match self.sub_pools.get(&pool_id) {
            Some(sub_pools) => sub_pools.affected_balance(slash_era + 1, apply_era),
            None => {
                proof {
                    lemma_within_gap(
                        self@.sub_pools_of(pool_id).with_era,
                        slash_era + 1,
                        0,
                        apply_era + 1,
                    );
                }
                0
            },
        };
        Some(bonded_balance.saturating_add(unbonding))
    }

    /// Slash `slash_amount` of the pool with the account `pool_account`, at the balance that the
    /// staking system reports for it. Nothing is done, and the staking system is not asked, where no
    /// pool has this account. Nothing is done either where the slash reaches no funds.
    pub fn slash_pool<S: StakingInterface<Balance = Balance, AccountId = AccountId>>(
        &mut self,
        pool_account: &AccountId,
        slash_amount: Balance,
        slash_era: EraIndex,
        apply_era: EraIndex,
    ) -> (r: Option<(Balance, BTreeMap<EraIndex, Balance>)>)
        requires
            old(self)@.pool_ids.contains_key(*pool_account) ==> slash_era < u32::MAX,
        ensures
            !old(self)@.pool_ids.contains_key(*pool_account) ==> r is None,
            old(self)@.pool_ids.contains_key(*pool_account) ==> exists|bonded_balance: Balance|
                #![trigger call_ensures(S::bonded_balance, (pool_account,), bonded_balance)]
                {
                    let pool = old(self)@.pool_ids[*pool_account];
                    &&& call_ensures(S::bonded_balance, (pool_account,), bonded_balance)
                    &&& r is Some <==> old(self)@.affected_balance(
                        pool,
                        slash_era,
                        apply_era,
                        bonded_balance,
                    ) != 0
                    &&& r matches Some(outcome) ==> is_slash_outcome(
                        old(self)@,
                        pool,
                        slash_amount,
                        slash_era,
                        apply_era,
                        bonded_balance,
                        outcome,
                    ) && final(self)@ == old(self)@.slashed(
                        pool,
                        slash_era,
                        apply_era,
                        old(self)@.slash_multiplier(
                            pool,
                            slash_amount,
                            slash_era,
                            apply_era,
                            bonded_balance,
                        ),
                    )
                },
            r matches Some(outcome) ==> {
                let pool = old(self)@.pool_ids[*pool_account];
                &&& forall|era: EraIndex| #[trigger]
                    outcome.1@.contains_key(era) <==> old(self)@.sub_pools.contains_key(pool)
                        && old(self)@.sub_pools[pool].with_era.contains_key(era) && slash_era
                        < era <= apply_era
                &&& forall|era: EraIndex| #[trigger]
                    outcome.1@.contains_key(era) ==> final(self)@.sub_pools.contains_key(pool)
                        && final(self)@.sub_pools[pool].with_era.contains_key(era)
                        && outcome.1@[era] == final(self)@.sub_pools[pool].with_era[era].balance
            },
            r is None ==> final(self)@ == old(self)@,
    {
        if !self.pool_ids.contains_key(pool_account) {
            return None;
        }
        let bonded_balance: Balance = S::bonded_balance(pool_account);
        match self.slashable_balance(pool_account, slash_era, apply_era, bonded_balance) {
            Some(total) => {
                if total == 0 {
                    return None;
                }
                self.do_slash(pool_account, slash_amount, slash_era, apply_era, bonded_balance)
            },
            None => None,
        }
    }
}

} // verus!
