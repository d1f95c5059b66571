# evm2

The verified core of an EVM execution engine, written in Verus.

- `src/` is the library, verified by Verus against the `requires`/`ensures` contracts its
  functions carry: the transaction state overlay with its revert journal (`state`), the
  in-memory cache database (`db`), the host operations that opcodes perform (`evm`, `host`,
  `create`), EIP-7928 block access lists (`bal`, `bal_account`, `bal_context`, `bal_database`)
  with their canonical export and line-by-line dump (`bal_dump`), warm-address tracking, block
  rewards and withdrawals, the decisions of the block's transaction loop, system-call planning
  with its gas and request collection, and the decisions of blocking on a future from an async
  fiber. Calls into outside crates (Keccak-256, address derivation, 256-bit arithmetic, bit
  vectors) stand behind small trusted wrappers whose contracts name what the outside code
  returns. The change sinks are a trait for users to implement: the library's own sinks state
  exactly what each change does to them, and a sink written outside states nothing unless it
  defines `handles`.
- `tests/` runs the library on concrete values.
- `app/` is ordinary Rust around the library: conversions to and from the `alloy` types,
  error types with `thiserror`, and printing.
