# rbpf_runtime

A runtime for eBPF programs that work on Bitcoin UTXOs, with its logic
verified by Verus.

## Layout

- `src/` — the verified library.
  - `bytes.rs` — little-endian encodings and their lemmas.
  - `types.rs` — UTXO identities, program keys, transactions and instructions.
  - `entrypoint.rs`, `utxo_info.rs` — the program side: how a program reads
    its input, and the UTXO it sees (data, room to grow, authority).
  - `heap.rs` — the program's bump allocator and its error codes.
  - `relative_call.rs` — a small program that calls helper functions.
  - `host.rs` — a simple host format for a program's inputs.
  - `vm_input.rs` — the test runtime's framed input and its tables.
  - `bridge.rs` — the bridge program: vaults, peg-ins and peg-outs.
  - `program.rs` — what a program makes of the return data it is handed.
  - `runtime/` — the host side: transaction and instruction contexts,
    serialisation of a program's input and reading it back, the invocation
    (compute meter, heap, instruction frames), guest memory and its system
    calls, cross-program calls, and messages.
- `app/` — what runs around the library: the virtual machine (`solana_rbpf`),
  the system calls wired to the library, and borsh encodings of the
  library's types.
- `tests/` — tests of the library on concrete values.
