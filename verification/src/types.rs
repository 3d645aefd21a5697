//! The plain values that the pools are made of.

use sp_staking::EraIndex;
use vstd::prelude::*;

verus! {

/// The number of a pool.
pub type PoolId = u32;

/// The number under which an account is known.
pub type AccountId = u64;

/// An amount of funds.
pub type Balance = u128;

/// A quantity of shares in some pool.
pub type Shares = u128;

/// A member of a pool.
#[derive(Clone, Copy, PartialEq, Eq, Debug)]
pub struct Delegator {
    /// The pool this delegator belongs to.
    pub pool: PoolId,
    /// The quantity of shares this delegator has in the primary pool, or in a sub pool if
    /// `unbonding_era` is some.
    pub shares: Shares,
    /// The reward pool's total earnings ever, the last time this delegator claimed a payout. It
    /// lines up with `RewardPool::total_earnings` after a claim.
    pub reward_pool_total_earnings: Balance,
    /// The era this delegator started unbonding at.
    pub unbonding_era: Option<EraIndex>,
}

/// Why a request is refused.
#[derive(Clone, Copy, PartialEq, Eq, Debug, Structural)]
pub enum Error {
    /// The given (primary) pool id does not exist.
    PoolNotFound,
    /// The given account is not a delegator.
    DelegatorNotFound,
    /// The given reward pool does not exist. In all cases this is a system logic error.
    RewardPoolNotFound,
    /// The account is already delegating in another pool. An account may only belong to one pool
    /// at a time.
    AccountBelongsToOtherPool,
    /// The pool has insufficient balance to bond as a nominator.
    InsufficientBond,
    /// The delegator is already unbonding.
    AlreadyUnbonding,
    /// The delegator is not unbonding and thus cannot withdraw funds.
    NotUnbonding,
    /// Unbonded funds cannot be withdrawn yet because the bond duration has not passed.
    NotUnbondedYet,
}

/// What happened to a delegator.
#[derive(Clone, Copy, PartialEq, Eq, Debug, Structural)]
pub enum Event {
    Joined { delegator: AccountId, pool: PoolId, bonded: Balance },
    PaidOut { delegator: AccountId, pool: PoolId, payout: Balance },
    Unbonded { delegator: AccountId, pool: PoolId, amount: Balance },
    Withdrawn { delegator: AccountId, pool: PoolId, amount: Balance },
}

/// Whether the paying account has to outlive a transfer.
#[derive(Clone, Copy, PartialEq, Eq, Debug, Structural)]
pub enum ExistenceRequirement {
    KeepAlive,
    AllowDeath,
}

/// A transfer of funds that has to be made before a request can go on.
#[derive(Clone, Copy, PartialEq, Eq, Debug, Structural)]
pub struct Transfer {
    pub source: AccountId,
    pub dest: AccountId,
    pub value: Balance,
    pub requirement: ExistenceRequirement,
}

} // verus!
