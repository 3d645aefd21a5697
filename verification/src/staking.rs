//! The staking system that the pools bond their funds with.

use sp_runtime::DispatchError;
use sp_staking::EraIndex;
use vstd::prelude::*;

verus! {

/// The error that a refused dispatch of another pallet comes with, carried through as it is.
#[verifier::external_type_specification]
#[verifier::external_body]
pub struct ExDispatchError(DispatchError);

/// Trait for communication with the staking pallet.
pub trait StakingInterface {
    /// Balance type used by the staking system.
    type Balance;

    /// Account id type used by the staking system.
    type AccountId;

    /// The minimum amount necessary to bond to be a nominator. This does not necessarily mean the
    /// nomination will be counted in an election, but instead just enough to be stored as a
    /// nominator.
    fn minimum_bond() -> Self::Balance;

    /// The current era for the staking system.
    fn current_era() -> EraIndex;

    /// Balance `controller` has bonded for nominating.
    fn bonded_balance(controller: &Self::AccountId) -> Self::Balance;

    /// Bond `extra` more for `controller`.
    fn bond_extra(controller: &Self::AccountId, extra: Self::Balance) -> Result<(), DispatchError>;

    /// Start unbonding `value` of what `controller` has bonded.
    fn unbond(controller: &Self::AccountId, value: Self::Balance) -> Result<(), DispatchError>;

    /// Number of eras that staked funds must remain bonded for.
    fn bond_duration() -> EraIndex;
}

} // verus!
