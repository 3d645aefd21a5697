//! Primary pools: the funds that are actively staked.

use crate::shares::{balance_for, has_price, issued_shares, redeemed_balance, shares_for};
use crate::staking::StakingInterface;
use crate::types::{AccountId, Balance, Shares};
use vstd::prelude::*;

verus! {

/// A pool of actively staked funds.
#[derive(Clone, Copy, PartialEq, Eq, Debug)]
pub struct Pool {
    /// All shares that the bonded delegators hold.
    pub shares: Shares,
    /// The stash and controller account of the pool.
    pub account_id: AccountId,
}

impl Pool {
    /// The amount of shares to issue for some new funds that will be bonded in the pool, at the
    /// balance that the staking system reports for it.
    pub fn shares_to_issue<S: StakingInterface<Balance = Balance, AccountId = AccountId>>(
        &self,
        new_funds: Balance,
    ) -> (issued: Shares)
        ensures
            exists|bonded: Balance| #[trigger]
                call_ensures(S::bonded_balance, (&self.account_id,), bonded) && issued
                    == issued_shares(bonded, self.shares, new_funds),
    {
        let bonded_balance: Balance = S::bonded_balance(&self.account_id);
        shares_for(bonded_balance, self.shares, new_funds)
    }

    /// The amount of balance to unbond from the pool for a delegator's shares of it, at the
    /// balance that the staking system reports for it.
    pub fn balance_to_unbond<S: StakingInterface<Balance = Balance, AccountId = AccountId>>(
        &self,
        delegator_shares: Shares,
    ) -> (worth: Balance)
        requires
            forall|bonded: Balance| #[trigger]
                call_ensures(S::bonded_balance, (&self.account_id,), bonded) ==> has_price(
                    bonded,
                    self.shares,
                    delegator_shares,
                ),
        ensures
            exists|bonded: Balance| #[trigger]
                call_ensures(S::bonded_balance, (&self.account_id,), bonded) && worth
                    == redeemed_balance(bonded, self.shares, delegator_shares),
    {
        let bonded_balance: Balance = S::bonded_balance(&self.account_id);
        balance_for(bonded_balance, self.shares, delegator_shares)
    }
}

} // verus!
