//! A verified model of an eBPF runtime for Bitcoin UTXO programs: the byte
//! layouts exchanged with a program, the instruction stacks of a transaction,
//! the permission rules on UTXO data and authority, and the allocators.

pub mod bytes;
pub mod types;
pub mod entrypoint;
pub mod runtime;

pub mod utxo_info;
pub mod heap;
pub mod relative_call;
pub mod host;
pub mod vm_input;
pub mod bridge;
pub mod program;
