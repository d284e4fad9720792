use vstd::prelude::*;
use crate::runtime::memory::MemoryError;

verus! {

/// Why the runtime refused an instruction.
#[derive(Debug, Clone, Copy, PartialEq, Eq, Structural)]
pub enum InstructionError {
    CallDepth,
    MaxInstructionTraceLengthExceeded,
    MissingAccount,
    NotEnoughAccountKeys,
    AccountBorrowFailed,
    ModifiedProgramId,
    AccountDataSizeChanged,
    InvalidRealloc,
    ExternalAccountDataModified,
    InvalidArgument,
    MaxAccountsExceeded,
    AccountDataTooSmall,
}

/// Why the runtime refused a transaction.
#[derive(Debug, Clone, Copy, PartialEq, Eq, Structural)]
pub enum TransactionError {
    InvalidAccountIndex,
    Instruction(InstructionError),
}

/// Why a system call failed.
#[derive(Debug, Clone, Copy, PartialEq, Eq, Structural)]
pub enum SyscallError {
    InvalidLength,
    CopyOverlapping,
    UnalignedPointer,
    InvalidString,
    Memory(MemoryError),
    Instruction(InstructionError),
}

} // verus!
