# gmc_core

The deterministic logic core of the GMC (Global Merit Chain) protocol, written in
Verus: every module states its behaviour as `requires` / `ensures` contracts over
mathematical models, and Verus proves the code against them.

## Layout

- `src/types.rs` — fixed-point `Decimal` / `Ratio`, `Timestamp`, `ChainId` / `FayID`,
  scoring dimensions, text helpers (decimal ids, whitespace, lexicographic order).
- `src/error.rs` — the error codes shared by all modules.
- `src/registry.rs` — the derivation tree: ordered `derive` validation, paths, lifecycle,
  mechanism inheritance; laws on the tree's shape.
- `src/chain_creation.rs`, `src/gmc_base.rs` — the three creation channels and the root
  with its refusal of monetary requests.
- `src/mechanism.rs`, `src/governance.rs` — evaluation mechanisms and merit-weighted
  voting; laws on the approval ratio and on the weights summing to one.
- `src/quota.rs`, `src/scoring.rs`, `src/merit.rs`, `src/minting.rs` — quota
  accounting, the three-dimension mint amount, exponential decay with the `minMerit`
  floor, and the atomic mint pipeline; laws on decay monotonicity and floors.
- `src/registration.rs`, `src/recording.rs`, `src/retroactive.rs`, `src/antifraud.rs`,
  `src/carbon.rs` — intake, recording, retroactive review, voter selection and anomaly
  detection, carbon-credit conversion.
- `src/l1_settlement.rs`, `src/l2_rollup.rs` — the settlement and rollup models.
- `src/flows.rs` — the end-to-end flows composing the modules.
- `tests/` — executable tests of the library.
