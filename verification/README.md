# anchornet

The AnchorNet liquidity coordination contract for Stellar anchors, with its
logic verified in Verus.

Registered anchors fund per-asset liquidity pools; settlements reserve pool
liquidity, and are then executed (accruing a protocol fee), cancelled, or
reclaimed once expired. An administrator, optionally helped by an operator
who may pause and unpause, configures fees, fee waivers, per-asset fee
overrides, minimum liquidity floors, settlement caps and the expiry window.
While the contract is paused, every liquidity and settlement mutation
(deposits, withdrawals, opening, executing, cancelling and reclaiming
settlements) fails with `Paused` and changes nothing.

## Layout

- `src/` — the verified library. `storage.rs` holds the environment an
  invocation sees (stored entries, published events, demanded
  authorizations, ledger sequence) and its typed accessors; `admin.rs`,
  `anchors.rs`, `liquidity.rs`, `settlements.rs` and `queries.rs` hold the
  entrypoints, each specified by a `spec_*` function describing its result,
  stored entries, events and authorizations; `contract.rs` holds the fee
  arithmetic and the guards; `consistency.rs`, `conservation.rs`,
  `accounting.rs` and `laws.rs` state and prove the properties that hold across calls (the
  store invariant, liquidity and fee accounting, per-asset conservation of
  balances against pool and settled amounts, settlement immutability,
  pagination coverage, round trips).
- `tests/` — tests of the library's behaviour on concrete scenarios.
- `app/` — the Soroban contract: each entrypoint loads the stored entries
  into the library's environment, runs the library, demands the
  authorizations it recorded and, on success, stores the entries back and
  publishes its events. The whole state is kept as one persistent entry,
  rewritten by each mutating call; its size grows with the number of
  anchors, assets, balances and settlements, so a long-lived deployment
  reaches the host's entry-size limit.
