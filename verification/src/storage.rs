//! What the pools keep from one request to the next.

use crate::primary::Pool;
use crate::reward::RewardPool;
use crate::sub_pools::{SubPools, SubPoolsContainer};
use crate::types::{AccountId, Delegator, Event, PoolId};
use sp_std::collections::btree_map::BTreeMap;
use vstd::prelude::*;

verus! {

/// All that is stored, as mathematical values.
#[verifier::ext_equal]
pub struct Storage {
    pub delegators: Map<AccountId, Delegator>,
    pub pool_ids: Map<AccountId, PoolId>,
    pub primary_pools: Map<PoolId, Pool>,
    pub reward_pools: Map<PoolId, RewardPool>,
    pub sub_pools: Map<PoolId, SubPools>,
    pub events: Seq<Event>,
    pub max_unbonding: u32,
}

impl Storage {
    /// The sub pools of `pool`; there are none until they are first needed.
    pub open spec fn sub_pools_of(self, pool: PoolId) -> SubPools {
        if self.sub_pools.contains_key(pool) {
            self.sub_pools[pool]
        } else {
            SubPools::empty()
        }
    }

    /// Nothing is stored.
    pub open spec fn empty(max_unbonding: u32) -> Storage {
        Storage {
            delegators: Map::empty(),
            pool_ids: Map::empty(),
            primary_pools: Map::empty(),
            reward_pools: Map::empty(),
            sub_pools: Map::empty(),
            events: Seq::empty(),
            max_unbonding,
        }
    }
}

/// The pools, and what is known of their members.
///
/// A request that needs funds to be transferred is made in two parts. The first one decides on the
/// request and says which transfer it needs; the second one is for after the transfer was made,
/// and stores the outcome. A request that is refused by its first part stores nothing.
pub struct Pallet {
    /// Active delegators.
    pub delegators: BTreeMap<AccountId, Delegator>,
    /// `PoolId` lookup from the pool's account. Useful for pool lookup from the slashing system.
    pub pool_ids: BTreeMap<AccountId, PoolId>,
    /// Bonded pools.
    pub primary_pools: BTreeMap<PoolId, Pool>,
    /// Reward pools. This is where the rewards for each pool accumulate. When a delegator's payout
    /// is claimed, the balance comes out of the reward pool.
    pub reward_pools: BTreeMap<PoolId, RewardPool>,
    /// Groups of unbonding pools. Each group of unbonding pools belongs to a primary pool, hence
    /// the name sub pools.
    pub sub_pools: BTreeMap<PoolId, SubPoolsContainer>,
    /// What has happened, oldest first.
    pub events: Vec<Event>,
    /// The maximum amount of eras an unbonding pool can exist prior to being merged with the pool
    /// without an era. This should be greater than the bond duration, so that delegators have a
    /// chance to withdraw before their pool gets merged. It must be greater than the number of eras
    /// that a slash is deferred, so that the slash still finds the pools that it reaches.
    pub max_unbonding: u32,
}

impl View for Pallet {
    type V = Storage;

    open spec fn view(&self) -> Storage {
        Storage {
            delegators: self.delegators@,
            pool_ids: self.pool_ids@,
            primary_pools: self.primary_pools@,
            reward_pools: self.reward_pools@,
            sub_pools: self.sub_pools@.map_values(|pools: SubPoolsContainer| pools@),
            events: self.events@,
            max_unbonding: self.max_unbonding,
        }
    }
}

impl Pallet {
    /// No pools and no delegators.
    pub fn new(max_unbonding: u32) -> (pallet: Pallet)
        ensures
            pallet@ == Storage::empty(max_unbonding),
    {
        let pallet = Pallet {
            delegators: BTreeMap::new(),
            pool_ids: BTreeMap::new(),
            primary_pools: BTreeMap::new(),
            reward_pools: BTreeMap::new(),
            sub_pools: BTreeMap::new(),
            events: Vec::new(),
            max_unbonding,
        };
        assert(pallet@ =~= Storage::empty(max_unbonding));
        pallet
    }

    /// Record that `event` happened.
    pub fn deposit_event(&mut self, event: Event)
        ensures
            final(self)@ == (Storage { events: old(self)@.events.push(event), ..old(self)@ }),
    {
        self.events.push(event);
    }

    /// Take the sub pools of `pool` out of storage, or an empty group if there are none.
    pub(crate) fn take_sub_pools(&mut self, pool: PoolId) -> (pools: SubPoolsContainer)
        ensures
            pools@ == old(self)@.sub_pools_of(pool),
            final(self)@ == (Storage { sub_pools: old(self)@.sub_pools.remove(pool), ..old(self)@ }),
    {
        let taken = self.sub_pools.remove(&pool);
        assert(self@.sub_pools =~= old(self)@.sub_pools.remove(pool));
        match taken {
            Some(pools) => pools,
            None => SubPoolsContainer::default(),
        }
    }

    /// Store the sub pools of `pool`.
    pub(crate) fn put_sub_pools(&mut self, pool: PoolId, pools: SubPoolsContainer)
        ensures
            final(self)@ == (Storage {
                sub_pools: old(self)@.sub_pools.insert(pool, pools@),
                ..old(self)@
            }),
    {
        self.sub_pools.insert(pool, pools);
        assert(self@.sub_pools =~= old(self)@.sub_pools.insert(pool, pools@));
    }
}

} // verus!
