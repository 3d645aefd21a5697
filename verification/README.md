# pools

Delegation pools for nominating in a staking system, with their behaviour stated in contracts and
proved by Verus.

* `src/` is the library. `storage.rs` holds what is stored; `join.rs`, `payout.rs`, `unbond.rs`,
  `withdraw.rs` and `slash.rs` hold the requests, each with the spec function that says what it
  decides and what it stores. `primary.rs`, `reward.rs` and `sub_pools.rs` hold the three kinds of
  pools, `shares.rs` the exchange of funds and shares, and `fixed.rs` the arithmetic of ratios.
* `src/consistency.rs` proves that the shares of all pools always add up and that rewards are
  covered, and `src/laws.rs` what holds of one request after another.
* `tests/` runs the library on concrete values.
* `app/` is the pallet around the library: storage, accounts, transfers and events of a runtime.
