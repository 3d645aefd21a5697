//! Delegation pools for nominating in a staking system.
//!
//! The delegation pool abstraction is concretely composed of:
//!
//! * primary pool: the actively staked funds, in shares that the delegators hold ([`Pool`]).
//! * rewards pool: the rewards earned by actively staked funds ([`RewardPool`]).
//! * sub pools: a group of pools of unbonding funds, organized by era, and one pool that is not
//!   associated with an era ([`SubPoolsContainer`]). Once a pool of an era has existed for
//!   `max_unbonding` eras, its shares and balance get merged into the pool without an era.
//!
//! [`Pallet`] holds all pools and delegators. A request is first decided on, and then goes on after
//! the transfer of funds that it needs was made:
//!
//! * joining: [`Pallet::join`], then [`Pallet::finish_join`]
//! * claiming rewards: [`Pallet::claim_payout`], then [`Pallet::finish_payout`]
//! * unbonding: [`Pallet::unbond`], then [`Pallet::finish_unbond`]
//! * withdrawing: [`Pallet::withdraw_unbonded`], then [`Pallet::finish_withdraw`]
//!
//! [`Pallet::slash_pool`] slashes the funds of a pool. The staking system is reached through
//! [`StakingInterface`].

pub mod consistency;
pub mod fixed;
pub mod join;
pub mod laws;
pub mod outcomes;
pub mod payout;
pub mod primary;
pub mod reward;
pub mod shares;
pub mod slash;
pub mod staking;
pub mod storage;
pub mod sub_pools;
pub mod sums;
pub mod types;
pub mod unbond;
pub mod withdraw;

pub use crate::join::Joining;
pub use crate::payout::Payout;
pub use crate::primary::Pool;
pub use crate::reward::RewardPool;
pub use crate::staking::StakingInterface;
pub use crate::storage::Pallet;
pub use crate::sub_pools::{SubPoolsContainer, UnbondPool};
pub use crate::types::{
    AccountId, Balance, Delegator, Error, Event, ExistenceRequirement, PoolId, Shares, Transfer,
};
pub use crate::unbond::Unbonding;
pub use crate::withdraw::Withdrawal;
