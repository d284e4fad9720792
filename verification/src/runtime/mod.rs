//! The host side: the contexts of a transaction and of its instructions, the
//! layout in which the runtime hands UTXOs to a program and reads them back,
//! and the helpers of the system calls.

pub mod errors;
pub mod context;
pub mod serialization;
pub mod invoke;
pub mod memory;
pub mod cpi;
pub mod message;
pub mod syscalls;
