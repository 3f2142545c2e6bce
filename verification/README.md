# stellar_ai_payments

Payment contracts for AI agents on Stellar, as verified state machines.

- `src/shared.rs`: addresses, payment records and statuses, errors, the
  token transfers that a call asks for, `is_expired`, `count_by_status`.
- `src/agent_escrow.rs`: escrow of payments (deposit, release, refund).
- `src/payment_router.rs`: splitting one payment across destinations by basis points.
- `src/sponsored_fee_vault.rs`: a vault that pays the fees of registered agents.

Each contract has an abstract model (`EscrowModel`, `RouterModel`,
`VaultModel`) whose spec methods say what every entry point returns and how
the state changes; the executable methods are proved equal to them, and the
laws of each contract (per-asset conservation of escrowed funds, payouts at
most once, payments that only move forward, routing
tables that split the whole payment, a balance that never goes negative,
a vault balance equal to its net inflow over any run of calls) are proof
functions over the models.

`app/` holds the Soroban entry points: authorization, the ledger clock,
storage and token transfers, around calls into the library.
