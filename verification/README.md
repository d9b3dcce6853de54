# code_vm_api

The account layouts, instruction encodings and state rules of the Code VM, a
Solana program for compact virtual accounts, written in Verus with their
contracts proved.

- `src/` is the verified library: opcodes and instruction data, virtual
  accounts and their packing, the VM's account states, the memory allocators
  (simple, paged, slice), the circular buffer, the Merkle tree of compressed
  accounts, address derivation, instruction builders, the change log, the
  ed25519 signature check, and the account and instruction encodings of the
  timelock and splitter programs the VM calls.
- Calls into outside crates (hashing, address derivation, curve arithmetic,
  base58) go through small trusted wrappers whose contracts name or state
  what the crates compute; everything around them is proved.
- `app/` holds what needs the Solana runtime: cross-program invocations,
  reads of account data and owners, and conversions between the library's
  plain types and the runtime's.
- `tests/` runs the library against concrete values, including byte-level
  comparisons with borsh.
