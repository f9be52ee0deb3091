# single_rwa_vault

A verified model of a single-asset real-world-asset vault on Soroban.

Investors deposit an underlying asset and receive shares; the exchange rate
carries a virtual offset so the first deposit converts 1:1. Once the funding
target is met the vault is activated and operators distribute yield in
numbered epochs. Each holder can claim, for every epoch, the epoch's yield in
proportion to the shares it held when the epoch was distributed; what the
vault cannot pay at claim time is recorded as a shortfall that operators
resolve later.

Layout:

- `src/math.rs` — `mul_div` / `mul_div_ceil` with a 256-bit intermediate
  product computed by the Soroban host (`soroban_sdk::I256`), and the
  rounding laws they satisfy.
- `src/storage.rs` — per-epoch records (yield, share supply, total assets,
  ledger time) and the current epoch.
- `src/token.rs` — the underlying asset's balances.
- `src/vault.rs` — the vault: deposits, withdrawals, redemptions, share
  transfers, yield distribution and claims, shortfall resolution, previews,
  activity counters, events and reconciliation views, each specified against
  a functional model (`VaultView`), with the share-accounting invariant
  (`Vault::wf`) that every operation keeps. Operations that stamp an event
  or a record with the ledger time read it from the host and hand it to a
  `*_at` twin that is specified for every possible time.
- `src/context.rs` — a deployed vault with its accounts, and the multi-step
  flows that fund it and distribute yield into it.
- `app/lib.rs` — the error type as the contract reports it, the paths that
  abort an invocation, and the publishing of the vault's events.

Everything under `src/` is checked by Verus; `tests/` runs it against a
Soroban test environment for the 256-bit arithmetic and the ledger clock,
while the asset's balances and the epoch records are the library's own
in-memory models (`TokenLedger`, `EpochStorage`), not the host's token
contract and persistent storage.
