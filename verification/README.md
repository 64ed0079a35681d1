# shieldedpay

Verified core of the ShieldedPay Soroban contracts.

- `src/` is the library, checked by Verus:
  - `treasury`: per-organization balances; deposits, token deposits,
    withdrawals, disbursements (authorized by the recorded claim contract,
    else the admin) and yield, each returning the authorization,
    token transfer and event that the call needs.
  - `payroll`: the registry of committed Merkle roots, leaf and root hashing
    with `0x00`/`0x01` domain separation, verification and reclaiming.
  - `claim`: claims guarded by their nullifier and by the leaf they pay,
    which is paid at most once, and how each claim is paid.
  - `keymap`, `addr`, `effects`: the map, address and effect types these use.
  - `host`: the two host computations the contracts rely on (SHA-256 and the
    XDR encoding of an `i128`), as trusted wrappers over `soroban-sdk`.
- `app/` holds the Soroban contracts themselves: they load state from
  storage into the library's types, call the library, and then require the
  authorization, perform the transfers, write storage and publish events.
- `tests/` exercises the library on concrete values.
