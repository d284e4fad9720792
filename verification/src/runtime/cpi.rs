//! Cross-program invocation: how the UTXOs that a program passes to another
//! program are synchronised between the caller's view of them in its guest
//! memory and the runtime's copy, before and after the callee runs.
use vstd::prelude::*;
use crate::bytes::{le_bytes, le_value, push_u64_le, read_u64_le_at};
use crate::entrypoint::MAX_PERMITTED_DATA_INCREASE;
use crate::runtime::context::{
    BorrowState, BorrowedUtxo, IndexOfUtxo, InstructionContext, InstructionUtxo, TransactionContext,
    UtxoSharedData, UtxoState, flagged, set_flag, spec_can_data_be_changed, spec_can_data_be_resized,
};
use crate::runtime::serialization::SerializedUtxoMetadata;
use crate::types::{Pubkey, StableInstruction, UtxoId, UtxoIdentity, spec_utxo_id};
use crate::runtime::errors::{InstructionError, SyscallError};
use crate::runtime::memory::{
    AccessType, GuestMemory, MemoryError, host_index, lookup, region, vm_to_host,
};

verus! {

/// Where the guest range of `len` bytes from `a` begins in the host buffer,
/// if one region that admits the access holds all of it.
pub open spec fn map_result(
    regions: Seq<crate::runtime::memory::MemoryRegion>,
    access: AccessType,
    a: u64,
    len: u64,
) -> Result<u64, MemoryError> {
    match lookup(regions, access, a as int) {
        Some(i) => if a - regions[i].vm_addr + len <= regions[i].len {
            Ok(host_index(regions[i], a as int) as u64)
        } else {
            Err(MemoryError::AccessViolation(access, a, len))
        },
        None => Err(MemoryError::AccessViolation(access, a, len)),
    }
}

/// Resolves the guest range of `len` bytes from `vm_addr` to its place in the
/// host buffer.
pub fn translate(mem: &GuestMemory, access: AccessType, vm_addr: u64, len: u64) -> (res: Result<
    u64,
    MemoryError,
>)
    requires
        mem.wf(),
    ensures
        res == map_result(mem.regions@, access, vm_addr, len),
        res matches Ok(h) ==> h + len <= mem.host@.len(),
{
    proof {
        crate::runtime::memory::lemma_lookup_some(mem.regions@, access, vm_addr as int);
    }
    let i = match region(mem, access, vm_addr) {
        Ok(i) => i,
        Err(_) => return Err(MemoryError::AccessViolation(access, vm_addr, len)),
    };
    let r = mem.regions[i];
    proof {
        assert(mem.host@.len() == mem.host.len());
        assert(mem.regions@[i as int] == r);
    }
    match vm_to_host(r, vm_addr, len) {
        Ok(h) => Ok(h),
        Err(_) => Err(MemoryError::AccessViolation(access, vm_addr, len)),
    }
}

/// The host buffer with `bytes` written from `at` on.
pub open spec fn splice(host: Seq<u8>, at: int, bytes: Seq<u8>) -> Seq<u8> {
    host.subrange(0, at) + bytes + host.subrange(at + bytes.len(), host.len() as int)
}

pub(crate) fn host_write(host: &mut Vec<u8>, at: usize, bytes: &[u8])
    requires
        at + bytes@.len() <= old(host)@.len(),
    ensures
        final(host)@ == splice(old(host)@, at as int, bytes@),
        final(host)@.len() == old(host)@.len(),
{
    let ghost before = host@;
    let mut k: usize = 0;
    while k < bytes.len()
        invariant
            k <= bytes@.len(),
            at + bytes@.len() <= host.len(),
            host@.len() == before.len(),
            forall|x: int|
                0 <= x < before.len() ==> #[trigger] host@[x] == if at <= x < at + k {
                    bytes@[x - at]
                } else {
                    before[x]
                },
        decreases bytes@.len() - k,
    {
        host.set(at + k, bytes[k]);
        k = k + 1;
    }
    assert(host@ =~= splice(before, at as int, bytes@));
}

fn host_read(host: &Vec<u8>, at: usize, len: usize) -> (res: Vec<u8>)
    requires
        at + len <= host@.len(),
    ensures
        res@ == host@.subrange(at as int, at + len),
{
    assert(host@.len() == host.len());
    vstd::slice::slice_to_vec(vstd::slice::slice_subrange(host.as_slice(), at, at + len))
}

fn host_write_u64(host: &mut Vec<u8>, at: usize, v: u64)
    requires
        at + 8 <= old(host)@.len(),
    ensures
        final(host)@ == splice(old(host)@, at as int, le_bytes(v as nat, 8)),
        final(host)@.len() == old(host)@.len(),
{
    let mut bytes: Vec<u8> = Vec::new();
    push_u64_le(&mut bytes, v);
    assert(bytes@ =~= le_bytes(v as nat, 8));
    proof {
        crate::bytes::lemma_le_bytes_len(v as nat, 8);
    }
    host_write(host, at, bytes.as_slice());
}

/// A value of the guest that the runtime reads and writes in place, by the
/// host index of its bytes.
#[derive(Debug, Clone, Copy, PartialEq, Eq, Structural)]
pub enum VmValue {
    Translated(u64),
}

impl VmValue {
    /// The host index of the value's bytes.
    pub open spec fn at(self) -> int {
        match self {
            VmValue::Translated(h) => h as int,
        }
    }

    /// The `u64` that the value holds.
    pub fn get(&self, mem: &GuestMemory) -> (res: Result<u64, SyscallError>)
        requires
            self.at() + 8 <= mem.host@.len(),
        ensures
            res matches Ok(v) && v as nat == le_value(mem.host@.subrange(self.at(), self.at() + 8)),
    {
        match self {
            VmValue::Translated(h) => {
                assert(mem.host@.len() == mem.host.len());
                let v = read_u64_le_at(mem.host.as_slice(), *h as usize);
                Ok(v)
            },
        }
    }

    /// Stores `value` in the value's place.
    pub fn get_mut(&self, mem: &mut GuestMemory, value: u64) -> (res: Result<(), SyscallError>)
        requires
            self.at() + 8 <= old(mem).host@.len(),
        ensures
            final(mem).regions@ == old(mem).regions@,
            final(mem).host@ == splice(old(mem).host@, self.at(), le_bytes(value as nat, 8)),
            final(mem).host@.len() == old(mem).host@.len(),
            res is Ok,
    {
        match self {
            VmValue::Translated(h) => {
                assert(mem.host@.len() == mem.host.len());
                host_write_u64(&mut mem.host, *h as usize, value);
                Ok(())
            },
        }
    }
}

/// The caller's view, in its guest memory, of a UTXO that it passes on: where
/// its authority, its data and the length of its data lie in the host buffer.
#[derive(Debug, Clone, Copy, PartialEq, Eq, Structural)]
pub struct CallerAccount {
    /// Host index of the 32 bytes of the authority.
    pub authority: u64,
    /// The length of the data when the current instruction began.
    pub original_data_len: usize,
    /// Host index and length of the data.
    pub serialized_data: u64,
    pub serialized_data_len: u64,
    /// Guest address of the data.
    pub vm_data_addr: u64,
    /// Host index of the length field of the caller's data slice.
    pub ref_to_len_in_vm: VmValue,
}

/// The places of a caller account lie in the host buffer.
pub open spec fn caller_account_fits(c: CallerAccount, host_len: int) -> bool {
    &&& c.authority + 32 <= host_len
    &&& c.serialized_data + c.serialized_data_len <= host_len
    &&& c.ref_to_len_in_vm.at() + 8 <= host_len
}

impl CallerAccount {
    /// Whether the places of the account lie in a host buffer of `host_len`
    /// bytes.
    pub fn fits_in(&self, host_len: usize) -> (res: bool)
        ensures
            res == caller_account_fits(*self, host_len as int),
    {
        let len_at = match self.ref_to_len_in_vm {
            VmValue::Translated(h) => h,
        };
        (self.authority as u128) + 32 <= host_len as u128 && (self.serialized_data as u128)
            + (self.serialized_data_len as u128) <= host_len as u128 && (len_at as u128) + 8
            <= host_len as u128
    }
}

/// What the callee's copy of a UTXO becomes when the caller's view of it is
/// written over it before the call, and whether that is allowed: its data
/// where the runtime lets it change (else they must be equal), then its
/// authority where it differs.
pub open spec fn callee_update(b: BorrowState, data: Seq<u8>, authority: Seq<u8>) -> (
    UtxoState,
    Result<(), InstructionError>,
) {
    let gate = match spec_can_data_be_resized(b, data.len() as usize) {
        Ok(()) => spec_can_data_be_changed(b),
        Err(e) => Err(e),
    };
    let first: (UtxoState, Result<(), InstructionError>) = match gate {
        Ok(()) => (UtxoState { data, ..b.utxo }, Ok(())),
        Err(e) => if b.utxo.data != data {
            (b.utxo, Err(e))
        } else {
            (b.utxo, Ok(()))
        },
    };
    if first.1 is Err {
        first
    } else if first.0.authority != authority {
        if b.program_key == first.0.authority {
            (UtxoState { authority, ..first.0 }, Ok(()))
        } else {
            (first.0, Err(InstructionError::ModifiedProgramId))
        }
    } else {
        first
    }
}

/// Before a call, a UTXO whose data and authority in the caller's view equal
/// the runtime's copy passes, whoever owns it, and the copy stays as it was.
/// A UTXO that the running program does not own cannot be changed this way:
/// where the caller's data differ from the copy, the call is refused and the
/// copy stays as it was; where they agree, the copy keeps its data and
/// authority.
pub proof fn lemma_pre_call_sync_respects_ownership(b: BorrowState, data: Seq<u8>, authority: Seq<u8>)
    ensures
        data == b.utxo.data && authority == b.utxo.authority ==> callee_update(b, data, authority) == (
            b.utxo,
            Ok::<(), InstructionError>(()),
        ),
        b.program_key != b.utxo.authority && data != b.utxo.data ==> callee_update(b, data, authority).1 is Err
            && callee_update(b, data, authority).0 == b.utxo,
        b.program_key != b.utxo.authority ==> callee_update(b, data, authority).0.data == b.utxo.data
            && callee_update(b, data, authority).0.authority == b.utxo.authority,
{
}

/// When writing the caller's view over the runtime's copy is allowed, the
/// copy then holds the caller's data and authority.
pub proof fn lemma_callee_sees_caller_changes(b: BorrowState, data: Seq<u8>, authority: Seq<u8>)
    requires
        callee_update(b, data, authority).1 is Ok,
    ensures
        callee_update(b, data, authority).0.data == data,
        callee_update(b, data, authority).0.authority == authority,
        callee_update(b, data, authority).0.txid == b.utxo.txid,
        callee_update(b, data, authority).0.vout == b.utxo.vout,
{
}

/// Before a call, makes the runtime's copy of a UTXO agree with the caller's
/// view of it in guest memory: the data, where the caller may change it (or
/// else it must not have changed), then the authority. The copy is handed
/// back to the transaction whatever the outcome, with the changes made before
/// an error.
pub fn update_callee_account(
    transaction_context: &mut TransactionContext,
    mem: &GuestMemory,
    caller_account: &CallerAccount,
    callee_account: BorrowedUtxo,
) -> (res: Result<(), SyscallError>)
    requires
        caller_account_fits(*caller_account, mem.host@.len() as int),
        callee_account@.index_in_transaction < old(transaction_context).utxos().len(),
        caller_account.serialized_data_len <= usize::MAX,
    ensures
        ({
            let data = mem.host@.subrange(
                caller_account.serialized_data as int,
                caller_account.serialized_data + caller_account.serialized_data_len,
            );
            let authority = mem.host@.subrange(
                caller_account.authority as int,
                caller_account.authority + 32,
            );
            let u = callee_update(callee_account@, data, authority);
            &&& final(transaction_context).utxos() == old(transaction_context).utxos().update(
                callee_account@.index_in_transaction as int,
                u.0,
            )
            &&& res == match u.1 {
                Ok(()) => Ok::<(), SyscallError>(()),
                Err(e) => Err(SyscallError::Instruction(e)),
            }
        }),
        final(transaction_context).ids() == old(transaction_context).ids(),
        final(transaction_context).borrowed() == set_flag(
            old(transaction_context).borrowed(),
            callee_account@.index_in_transaction as int,
            false,
        ),
        final(transaction_context).stack() == old(transaction_context).stack(),
        final(transaction_context).trace() == old(transaction_context).trace(),
        final(transaction_context).stack_capacity() == old(transaction_context).stack_capacity(),
        final(transaction_context).trace_capacity() == old(transaction_context).trace_capacity(),
{
    let mut callee = callee_account;
    assert(mem.host@.len() == mem.host.len());
    let data = host_read(
        &mem.host,
        caller_account.serialized_data as usize,
        caller_account.serialized_data_len as usize,
    );
    let authority = host_read(&mem.host, caller_account.authority as usize, 32);
    let gate = match callee.can_data_be_resized(data.len()) {
        Ok(()) => callee.can_data_be_changed(),
        Err(e) => Err(e),
    };
    let mut result: Result<(), InstructionError> = Ok(());
    match gate {
        Ok(()) => {
            result = callee.set_data_from_slice(data.as_slice());
        },
        Err(e) => {
            if !crate::bytes::bytes_eq(callee.get_data(), data.as_slice()) {
                result = Err(e);
            }
        },
    }
    if result.is_ok() {
        if !crate::bytes::bytes_eq(callee.get_authority().as_slice(), authority.as_slice()) {
            result = callee.set_authority(authority.as_slice());
        }
    }
    transaction_context.return_utxo(callee);
    match result {
        Ok(()) => Ok(()),
        Err(e) => Err(SyscallError::Instruction(e)),
    }
}

/// `a + b`, or the largest `usize` where that overflows.
pub open spec fn sat_add_usize(a: usize, b: usize) -> int {
    if a + b > usize::MAX {
        usize::MAX as int
    } else {
        a + b
    }
}

/// Where the guest bytes of a resized data slice begin in the host buffer:
/// an empty slice needs no place; a longer one than the host's signed size
/// allows is refused.
pub open spec fn data_slice_result(
    regions: Seq<crate::runtime::memory::MemoryRegion>,
    vm_addr: u64,
    len: u64,
) -> Result<u64, SyscallError> {
    if len == 0 {
        Ok(0)
    } else if len > isize::MAX {
        Err(SyscallError::InvalidLength)
    } else {
        match map_result(regions, AccessType::Store, vm_addr, len) {
            Ok(h) => Ok(h),
            Err(e) => Err(SyscallError::Memory(e)),
        }
    }
}

/// After a call, what the caller's guest memory and its view of a UTXO
/// become when the runtime's copy (`data`, `authority`) is written back: the
/// authority always; where the length changed, the length fields (within the
/// permitted growth, and with the bytes that the data no longer covers set to
/// zero); then the data.
pub open spec fn caller_sync(
    regions: Seq<crate::runtime::memory::MemoryRegion>,
    host: Seq<u8>,
    c: CallerAccount,
    data: Seq<u8>,
    authority: Seq<u8>,
) -> (Seq<u8>, CallerAccount, Result<(), SyscallError>) {
    let h1 = splice(host, c.authority as int, authority);
    let prev_len = le_value(h1.subrange(c.ref_to_len_in_vm.at(), c.ref_to_len_in_vm.at() + 8));
    let post_len = data.len();
    if prev_len != post_len {
        if post_len > sat_add_usize(c.original_data_len, MAX_PERMITTED_DATA_INCREASE) {
            (h1, c, Err(SyscallError::Instruction(InstructionError::InvalidRealloc)))
        } else if post_len < prev_len && post_len > c.serialized_data_len {
            (h1, c, Err(SyscallError::Instruction(InstructionError::AccountDataTooSmall)))
        } else {
            let h2 = if post_len < prev_len {
                crate::runtime::memory::fill_range(
                    h1,
                    c.serialized_data + post_len,
                    c.serialized_data_len - post_len,
                    0,
                )
            } else {
                h1
            };
            match data_slice_result(regions, c.vm_data_addr, post_len as u64) {
                Err(e) => (h2, c, Err(e)),
                Ok(h) => {
                    let c2 = CallerAccount {
                        serialized_data: h,
                        serialized_data_len: post_len as u64,
                        ..c
                    };
                    let h3 = splice(h2, c.ref_to_len_in_vm.at(), le_bytes(post_len, 8));
                    let len_addr = if c.vm_data_addr >= 8 {
                        (c.vm_data_addr - 8) as u64
                    } else {
                        0u64
                    };
                    match map_result(regions, AccessType::Store, len_addr, 8) {
                        Err(e) => (h3, c2, Err(SyscallError::Memory(e))),
                        Ok(p) => if p % 8 != 0 {
                            (h3, c2, Err(SyscallError::UnalignedPointer))
                        } else {
                            let h4 = splice(h3, p as int, le_bytes(post_len, 8));
                            (splice(h4, h as int, data), c2, Ok(()))
                        },
                    }
                },
            }
        }
    } else if c.serialized_data_len != post_len {
        (h1, c, Err(SyscallError::Instruction(InstructionError::AccountDataTooSmall)))
    } else {
        (splice(h1, c.serialized_data as int, data), c, Ok(()))
    }
}

fn host_zero(host: &mut Vec<u8>, start: usize, len: usize)
    requires
        start + len <= old(host)@.len(),
    ensures
        final(host)@ == crate::runtime::memory::fill_range(old(host)@, start as int, len as int, 0),
{
    let ghost before = host@;
    let mut k: usize = 0;
    while k < len
        invariant
            k <= len,
            start + len <= host.len(),
            host@.len() == before.len(),
            forall|x: int|
                0 <= x < before.len() ==> #[trigger] host@[x] == if start <= x < start + k {
                    0u8
                } else {
                    before[x]
                },
        decreases len - k,
    {
        host.set(start + k, 0);
        k = k + 1;
    }
    assert(host@ =~= crate::runtime::memory::fill_range(before, start as int, len as int, 0));
}

/// Resolves the data slice of `len` guest bytes from `vm_addr` for writing.
fn translate_data_slice(mem: &GuestMemory, vm_addr: u64, len: u64) -> (res: Result<u64, SyscallError>)
    requires
        mem.wf(),
    ensures
        res == data_slice_result(mem.regions@, vm_addr, len),
        res matches Ok(h) ==> h + len <= mem.host@.len(),
{
    if len == 0 {
        return Ok(0);
    }
    if len > isize::MAX as u64 {
        return Err(SyscallError::InvalidLength);
    }
    match translate(mem, AccessType::Store, vm_addr, len) {
        Ok(h) => Ok(h),
        Err(e) => Err(SyscallError::Memory(e)),
    }
}

/// After a call, writes the runtime's copy of a UTXO back into the caller's
/// guest memory: its authority, its length where that changed, and its data.
pub fn update_caller_account(
    mem: &mut GuestMemory,
    caller_account: &mut CallerAccount,
    callee_account: &BorrowedUtxo,
) -> (res: Result<(), SyscallError>)
    requires
        old(mem).wf(),
        caller_account_fits(*old(caller_account), old(mem).host@.len() as int),
    ensures
        ({
            let r = caller_sync(
                old(mem).regions@,
                old(mem).host@,
                *old(caller_account),
                callee_account@.utxo.data,
                callee_account@.utxo.authority,
            );
            &&& final(mem).regions@ == old(mem).regions@
            &&& final(mem).host@ == r.0
            &&& *final(caller_account) == r.1
            &&& res == r.2
        }),
        final(mem).host@.len() == old(mem).host@.len(),
        caller_account_fits(*final(caller_account), final(mem).host@.len() as int),
{
    proof {
        assert(mem.host@.len() == mem.host.len());
    }
    let ghost host0 = mem.host@;
    let ghost c0 = *caller_account;
    let ghost host_regions = mem.regions@;
    let authority = callee_account.get_authority();
    host_write(&mut mem.host, caller_account.authority as usize, authority.as_slice());
    let prev_len = match caller_account.ref_to_len_in_vm.get(mem) {
        Ok(v) => v,
        Err(e) => return Err(e),
    };
    let data = callee_account.get_data();
    let post_len = data.len();
    if prev_len != post_len as u64 {
        let limit = caller_account.original_data_len.saturating_add(MAX_PERMITTED_DATA_INCREASE);
        if post_len > limit {
            return Err(SyscallError::Instruction(InstructionError::InvalidRealloc));
        }
        if (post_len as u64) < prev_len {
            if post_len as u64 > caller_account.serialized_data_len {
                return Err(SyscallError::Instruction(InstructionError::AccountDataTooSmall));
            }
            host_zero(
                &mut mem.host,
                (caller_account.serialized_data + post_len as u64) as usize,
                (caller_account.serialized_data_len - post_len as u64) as usize,
            );
        }
        let h = match translate_data_slice(mem, caller_account.vm_data_addr, post_len as u64) {
            Ok(h) => h,
            Err(e) => return Err(e),
        };
        caller_account.serialized_data = h;
        caller_account.serialized_data_len = post_len as u64;
        match caller_account.ref_to_len_in_vm.get_mut(mem, post_len as u64) {
            Ok(()) => {},
            Err(e) => return Err(e),
        }
        let len_addr = caller_account.vm_data_addr.saturating_sub(8);
        let p = match translate(mem, AccessType::Store, len_addr, 8) {
            Ok(p) => p,
            Err(e) => return Err(SyscallError::Memory(e)),
        };
        if p % 8 != 0 {
            return Err(SyscallError::UnalignedPointer);
        }
        proof {
            assert(mem.host@.len() == mem.host.len());
        }
        let ghost with_len_field = mem.host@;
        host_write_u64(&mut mem.host, p as usize, post_len as u64);
        proof {
            let with_authority = splice(host0, c0.authority as int, authority.0@);
            let trimmed = if (post_len as int) < prev_len {
                crate::runtime::memory::fill_range(
                    with_authority,
                    c0.serialized_data + post_len,
                    c0.serialized_data_len - post_len,
                    0,
                )
            } else {
                with_authority
            };
            assert(with_len_field == splice(trimmed, c0.ref_to_len_in_vm.at(), le_bytes(post_len as nat, 8)));
        }
    } else if caller_account.serialized_data_len != post_len as u64 {
        return Err(SyscallError::Instruction(InstructionError::AccountDataTooSmall));
    }
    proof {
        let r = caller_sync(host_regions, host0, c0, data@, authority.0@);
        assert(r.2 is Ok);
        assert(r.1 == *caller_account);
    }
    host_write(&mut mem.host, caller_account.serialized_data as usize, data);
    proof {
        let r = caller_sync(host_regions, host0, c0, data@, authority.0@);
        assert(mem.host@ == r.0);
    }
    Ok(())
}

/// The guest addresses of the fields of a UTXO that a program passes to a
/// call: its authority, the reference to its data (a pointer, then a length),
/// its transaction id and its output index.
#[derive(Debug, Clone, Copy, PartialEq, Eq, Structural)]
pub struct UtxoInfoAddresses {
    pub authority: u64,
    pub data: u64,
    pub txid: u64,
    pub vout: u64,
}

/// The caller's view of a UTXO as its guest memory describes it: the
/// authority must be writable, the data reference readable and aligned for a
/// pointer, its length field writable, and the data it points to writable.
pub open spec fn caller_account_result(
    regions: Seq<crate::runtime::memory::MemoryRegion>,
    host: Seq<u8>,
    info: UtxoInfoAddresses,
    original_data_len: usize,
) -> Result<CallerAccount, SyscallError> {
    match map_result(regions, AccessType::Store, info.authority, 32) {
        Err(e) => Err(SyscallError::Memory(e)),
        Ok(a) => match map_result(regions, AccessType::Load, info.data, 16) {
            Err(e) => Err(SyscallError::Memory(e)),
            Ok(r) => if r % 8 != 0 {
                Err(SyscallError::UnalignedPointer)
            } else {
                let ptr = le_value(host.subrange(r as int, r + 8)) as u64;
                let len = le_value(host.subrange(r + 8, r + 16)) as u64;
                let len_field = if info.data + 8 > u64::MAX {
                    u64::MAX
                } else {
                    (info.data + 8) as u64
                };
                match map_result(regions, AccessType::Store, len_field, 8) {
                    Err(e) => Err(SyscallError::Memory(e)),
                    Ok(l) => match data_slice_result(regions, ptr, len) {
                        Err(e) => Err(e),
                        Ok(d) => Ok(
                            CallerAccount {
                                authority: a,
                                original_data_len,
                                serialized_data: d,
                                serialized_data_len: len,
                                vm_data_addr: ptr,
                                ref_to_len_in_vm: VmValue::Translated(l),
                            },
                        ),
                    },
                }
            },
        },
    }
}

impl CallerAccount {
    /// Builds the caller's view of a UTXO from the guest addresses of its
    /// fields.
    pub fn from_utxo_info(mem: &GuestMemory, account_info: &UtxoInfoAddresses, original_data_len: usize) -> (res:
        Result<CallerAccount, SyscallError>)
        requires
            mem.wf(),
        ensures
            res == caller_account_result(mem.regions@, mem.host@, *account_info, original_data_len),
            res matches Ok(c) ==> caller_account_fits(c, mem.host@.len() as int),
    {
        proof {
            assert(mem.host@.len() == mem.host.len());
        }
        let authority = match translate(mem, AccessType::Store, account_info.authority, 32) {
            Ok(a) => a,
            Err(e) => return Err(SyscallError::Memory(e)),
        };
        let data_ref = match translate(mem, AccessType::Load, account_info.data, 16) {
            Ok(r) => r,
            Err(e) => return Err(SyscallError::Memory(e)),
        };
        if data_ref % 8 != 0 {
            return Err(SyscallError::UnalignedPointer);
        }
        let ptr = read_u64_le_at(mem.host.as_slice(), data_ref as usize);
        let len = read_u64_le_at(mem.host.as_slice(), (data_ref + 8) as usize);
        let ref_to_len_in_vm = match translate(
            mem,
            AccessType::Store,
            account_info.data.saturating_add(8),
            8,
        ) {
            Ok(l) => VmValue::Translated(l),
            Err(e) => return Err(SyscallError::Memory(e)),
        };
        let serialized_data = match translate_data_slice(mem, ptr, len) {
            Ok(d) => d,
            Err(e) => return Err(e),
        };
        Ok(
            CallerAccount {
                authority,
                original_data_len,
                serialized_data,
                serialized_data_len: len,
                vm_data_addr: ptr,
                ref_to_len_in_vm,
            },
        )
    }
}

/// The identity of a UTXO that a program passes to a call, read from its
/// guest memory: the 32 bytes of its transaction id and its output index, a
/// `u32` aligned for its type.
pub open spec fn account_info_key(
    regions: Seq<crate::runtime::memory::MemoryRegion>,
    host: Seq<u8>,
    info: UtxoInfoAddresses,
) -> Result<Seq<u8>, SyscallError> {
    match map_result(regions, AccessType::Load, info.txid, 32) {
        Err(e) => Err(SyscallError::Memory(e)),
        Ok(t) => match map_result(regions, AccessType::Load, info.vout, 4) {
            Err(e) => Err(SyscallError::Memory(e)),
            Ok(v) => if v % 4 != 0 {
                Err(SyscallError::UnalignedPointer)
            } else {
                Ok(
                    spec_utxo_id(
                        host.subrange(t as int, t + 32),
                        le_value(host.subrange(v as int, v + 4)) as u32,
                    ),
                )
            },
        },
    }
}

/// The identities of the UTXOs that a program passes to a call, in order;
/// the first one that cannot be read gives its error.
pub fn translate_account_infos(mem: &GuestMemory, account_infos: &[UtxoInfoAddresses]) -> (res: Result<
    Vec<UtxoId>,
    SyscallError,
>)
    requires
        mem.wf(),
    ensures
        res matches Ok(keys) ==> keys@.len() == account_infos@.len() && forall|k: int|
            0 <= k < keys@.len() ==> account_info_key(mem.regions@, mem.host@, account_infos@[k])
                == Ok::<Seq<u8>, SyscallError>(#[trigger] keys@[k].bytes()),
        res matches Err(e) ==> exists|k: int|
            0 <= k < account_infos@.len() && account_info_key(mem.regions@, mem.host@, account_infos@[k])
                == Err::<Seq<u8>, SyscallError>(e) && forall|m: int|
                0 <= m < k ==> #[trigger] account_info_key(mem.regions@, mem.host@, account_infos@[m]) is Ok,
{
    proof {
        assert(mem.host@.len() == mem.host.len());
    }
    let mut keys: Vec<UtxoId> = Vec::new();
    let mut i: usize = 0;
    while i < account_infos.len()
        invariant
            mem.wf(),
            mem.host@.len() == mem.host.len(),
            i <= account_infos@.len(),
            keys@.len() == i,
            forall|k: int|
                0 <= k < i ==> #[trigger] account_info_key(mem.regions@, mem.host@, account_infos@[k])
                    == Ok::<Seq<u8>, SyscallError>(keys@[k].bytes()),
        decreases account_infos@.len() - i,
    {
        let info = account_infos[i];
        let t = match translate(mem, AccessType::Load, info.txid, 32) {
            Ok(t) => t,
            Err(e) => {
                assert(forall|m: int| 0 <= m < i ==> #[trigger] account_info_key(mem.regions@, mem.host@, account_infos@[m]) is Ok);
                return Err(SyscallError::Memory(e));
            },
        };
        let v = match translate(mem, AccessType::Load, info.vout, 4) {
            Ok(v) => v,
            Err(e) => {
                assert(forall|m: int| 0 <= m < i ==> #[trigger] account_info_key(mem.regions@, mem.host@, account_infos@[m]) is Ok);
                return Err(SyscallError::Memory(e));
            },
        };
        if v % 4 != 0 {
            assert(forall|m: int| 0 <= m < i ==> #[trigger] account_info_key(mem.regions@, mem.host@, account_infos@[m]) is Ok);
            return Err(SyscallError::UnalignedPointer);
        }
        let txid_bytes = host_read(&mem.host, t as usize, 32);
        let txid = to_txid(txid_bytes.as_slice());
        let vout_value = crate::bytes::read_le_at(mem.host.as_slice(), v as usize, 4);
        proof {
            reveal_with_fuel(crate::bytes::pow256, 5);
        }
        let vout = vout_value as u32;
        let key = <UtxoSharedData as UtxoIdentity>::processor(&txid, vout);
        keys.push(key);
        i = i + 1;
    }
    Ok(keys)
}

fn to_txid(s: &[u8]) -> (res: [u8; 32])
    requires
        s@.len() == 32,
    ensures
        res@ == s@,
{
    let mut out = [0u8; 32];
    let mut k: usize = 0;
    while k < 32
        invariant
            k <= 32,
            s@.len() == 32,
            forall|m: int| 0 <= m < k ==> out@[m] == s@[m],
        decreases 32 - k,
    {
        out[k] = s[k];
        k = k + 1;
    }
    assert(out@ =~= s@);
    out
}

/// The bytes of each identity.
pub open spec fn key_bytes(keys: Seq<UtxoId>) -> Seq<Seq<u8>> {
    keys.map_values(|k: UtxoId| k.bytes())
}

/// The first place, from `k` on, where `keys` holds the identity `id`.
pub open spec fn key_position(keys: Seq<Seq<u8>>, id: Seq<u8>, k: int) -> Option<int>
    decreases keys.len() - k,
{
    if k < 0 || k >= keys.len() {
        None
    } else if keys[k] == id {
        Some(k)
    } else {
        key_position(keys, id, k + 1)
    }
}

fn position_of_key(keys: &[UtxoId], id: &UtxoId) -> (res: Option<usize>)
    ensures
        res matches Some(p) ==> key_position(key_bytes(keys@), id.bytes(), 0) == Some(p as int),
        res is None ==> key_position(key_bytes(keys@), id.bytes(), 0) is None,
{
    let mut k: usize = 0;
    while k < keys.len()
        invariant
            k <= keys@.len(),
            key_position(key_bytes(keys@), id.bytes(), 0) == key_position(key_bytes(keys@), id.bytes(), k as int),
        decreases keys@.len() - k,
    {
        if keys[k].same_as(id) {
            return Some(k);
        }
        k = k + 1;
    }
    None
}

/// Before a call: for each UTXO of the callee's instruction that is not a
/// repetition of an earlier one, in order, the caller's view of it is found
/// among what the caller passed (by identity), built from its guest memory,
/// and written over the runtime's copy. Gives the transaction's UTXOs after
/// these writes, the views built, and the error that stopped the walk, if
/// any.
pub open spec fn sync_callees(
    utxos: Seq<UtxoState>,
    borrowed: Seq<bool>,
    ids: Seq<UtxoId>,
    caller_utxos: Seq<InstructionUtxo>,
    program_key: Seq<u8>,
    regions: Seq<crate::runtime::memory::MemoryRegion>,
    host: Seq<u8>,
    ias: Seq<InstructionUtxo>,
    keys: Seq<Seq<u8>>,
    infos: Seq<UtxoInfoAddresses>,
    metas: Seq<SerializedUtxoMetadata>,
    idx: int,
) -> (Seq<UtxoState>, Seq<(usize, CallerAccount)>, Option<SyscallError>)
    decreases ias.len() - idx,
{
    if idx < 0 || idx >= ias.len() {
        (utxos, Seq::empty(), None)
    } else {
        let ia = ias[idx];
        if idx != ia.index_in_callee {
            sync_callees(utxos, borrowed, ids, caller_utxos, program_key, regions, host, ias, keys, infos, metas, idx + 1)
        } else if ia.index_in_caller >= caller_utxos.len() {
            (utxos, Seq::empty(), Some(SyscallError::Instruction(InstructionError::NotEnoughAccountKeys)))
        } else {
            let t = caller_utxos[ia.index_in_caller as int].index_in_transaction;
            if t >= utxos.len() {
                (utxos, Seq::empty(), Some(SyscallError::Instruction(InstructionError::MissingAccount)))
            } else if flagged(borrowed, t as int) {
                (utxos, Seq::empty(), Some(SyscallError::Instruction(InstructionError::AccountBorrowFailed)))
            } else if ia.index_in_transaction >= ids.len() {
                (utxos, Seq::empty(), Some(SyscallError::Instruction(InstructionError::NotEnoughAccountKeys)))
            } else {
                match key_position(keys, ids[ia.index_in_transaction as int].bytes(), 0) {
                    None => (utxos, Seq::empty(), Some(SyscallError::InvalidLength)),
                    Some(pos) => if ia.index_in_caller >= metas.len() {
                        (utxos, Seq::empty(), Some(SyscallError::Instruction(InstructionError::MissingAccount)))
                    } else if pos >= infos.len() {
                        (utxos, Seq::empty(), Some(SyscallError::InvalidLength))
                    } else {
                        match caller_account_result(
                            regions,
                            host,
                            infos[pos],
                            metas[ia.index_in_caller as int].original_data_len,
                        ) {
                            Err(e) => (utxos, Seq::empty(), Some(e)),
                            Ok(c) => {
                                let b = BorrowState {
                                    index_in_transaction: t,
                                    index_in_instruction: ia.index_in_caller,
                                    utxo: utxos[t as int],
                                    program_key,
                                };
                                let u = callee_update(
                                    b,
                                    host.subrange(c.serialized_data as int, c.serialized_data + c.serialized_data_len),
                                    host.subrange(c.authority as int, c.authority + 32),
                                );
                                let utxos2 = utxos.update(t as int, u.0);
                                match u.1 {
                                    Err(e) => (utxos2, Seq::empty(), Some(SyscallError::Instruction(e))),
                                    Ok(()) => {
                                        let rest = sync_callees(
                                            utxos2,
                                            borrowed,
                                            ids,
                                            caller_utxos,
                                            program_key,
                                            regions,
                                            host,
                                            ias,
                                            keys,
                                            infos,
                                            metas,
                                            idx + 1,
                                        );
                                        (rest.0, seq![(ia.index_in_caller, c)].add(rest.1), rest.2)
                                    },
                                }
                            },
                        }
                    },
                }
            }
        }
    }
}

/// Before a call, finds the caller's view of each UTXO of the callee's
/// instruction and writes it over the runtime's copy; returns the views, with
/// the index of each UTXO in the caller's instruction, for the write back
/// after the call.
pub fn translate_and_update_accounts(
    transaction_context: &mut TransactionContext,
    instruction_context: &InstructionContext,
    mem: &GuestMemory,
    instruction_accounts: &[InstructionUtxo],
    account_info_keys: &[UtxoId],
    account_infos: &[UtxoInfoAddresses],
    accounts_metadata: &[SerializedUtxoMetadata],
) -> (res: Result<Vec<(IndexOfUtxo, CallerAccount)>, SyscallError>)
    requires
        mem.wf(),
    ensures
        ({
            let w = sync_callees(
                old(transaction_context).utxos(),
                old(transaction_context).borrowed(),
                old(transaction_context).ids(),
                instruction_context.instruction_utxos@,
                instruction_context.program_id.0@,
                mem.regions@,
                mem.host@,
                instruction_accounts@,
                key_bytes(account_info_keys@),
                account_infos@,
                accounts_metadata@,
                0,
            );
            &&& final(transaction_context).utxos() == w.0
            &&& final(transaction_context).ids() == old(transaction_context).ids()
            &&& final(transaction_context).borrowed() == old(transaction_context).borrowed()
            &&& final(transaction_context).stack() == old(transaction_context).stack()
            &&& final(transaction_context).trace() == old(transaction_context).trace()
            &&& match w.2 {
                None => res matches Ok(accounts) && accounts@ == w.1,
                Some(e) => res == Err::<Vec<(IndexOfUtxo, CallerAccount)>, SyscallError>(e),
            }
        }),
{
    let ghost ids = transaction_context.ids();
    let ghost caller_utxos = instruction_context.instruction_utxos@;
    let ghost program_key = instruction_context.program_id.0@;
    let ghost regions = mem.regions@;
    let ghost host = mem.host@;
    let ghost ias = instruction_accounts@;
    let ghost keys = key_bytes(account_info_keys@);
    let ghost infos = account_infos@;
    let ghost metas = accounts_metadata@;
    let ghost lent = transaction_context.borrowed();
    let ghost whole = sync_callees(
        transaction_context.utxos(), lent, ids, caller_utxos, program_key, regions, host, ias, keys, infos, metas, 0);
    let ghost stack0 = transaction_context.stack();
    let ghost trace0 = transaction_context.trace();
    let mut accounts: Vec<(IndexOfUtxo, CallerAccount)> = Vec::new();
    let mut failure: Option<SyscallError> = None;
    let mut i: usize = 0;
    assert(accounts@.add(whole.1) =~= whole.1);
    while i < instruction_accounts.len()
        invariant_except_break
            failure is None,
            whole.0 == sync_callees(
                transaction_context.utxos(), lent, ids, caller_utxos, program_key, regions, host, ias, keys, infos, metas, i as int).0,
            whole.2 == sync_callees(
                transaction_context.utxos(), lent, ids, caller_utxos, program_key, regions, host, ias, keys, infos, metas, i as int).2,
            whole.1 == accounts@.add(sync_callees(
                transaction_context.utxos(), lent, ids, caller_utxos, program_key, regions, host, ias, keys, infos, metas, i as int).1),
        invariant
            mem.wf(),
            regions == mem.regions@,
            host == mem.host@,
            ias == instruction_accounts@,
            keys == key_bytes(account_info_keys@),
            infos == account_infos@,
            metas == accounts_metadata@,
            caller_utxos == instruction_context.instruction_utxos@,
            program_key == instruction_context.program_id.0@,
            i <= instruction_accounts@.len(),
            transaction_context.ids() == ids,
            transaction_context.borrowed() == lent,
            transaction_context.stack() == stack0,
            transaction_context.trace() == trace0,
        ensures
            failure is None ==> whole.0 == transaction_context.utxos() && whole.2 is None && whole.1 == accounts@,
            failure matches Some(e) ==> whole.0 == transaction_context.utxos() && whole.2 == Some(e),
        decreases instruction_accounts@.len() - i,
    {
        let ia = instruction_accounts[i];
        if i == ia.index_in_callee {
            let callee = match instruction_context.read_instruction_utxo(transaction_context, ia.index_in_caller) {
                Ok(b) => b,
                Err(e) => {
                    failure = Some(SyscallError::Instruction(e));
                    break;
                },
            };
            let id = match transaction_context.get_id_of_utxo_at_index(ia.index_in_transaction) {
                Ok(id) => *id,
                Err(e) => {
                    failure = Some(SyscallError::Instruction(e));
                    break;
                },
            };
            let pos = match position_of_key(account_info_keys, &id) {
                Some(pos) => pos,
                None => {
                    failure = Some(SyscallError::InvalidLength);
                    break;
                },
            };
            if ia.index_in_caller >= accounts_metadata.len() {
                failure = Some(SyscallError::Instruction(InstructionError::MissingAccount));
                break;
            }
            if pos >= account_infos.len() {
                failure = Some(SyscallError::InvalidLength);
                break;
            }
            let caller_account = match CallerAccount::from_utxo_info(
                mem,
                &account_infos[pos],
                accounts_metadata[ia.index_in_caller].original_data_len,
            ) {
                Ok(c) => c,
                Err(e) => {
                    failure = Some(e);
                    break;
                },
            };
            let ghost before = transaction_context.utxos();
            let updated = update_callee_account(transaction_context, mem, &caller_account, callee);
            let ghost rest = sync_callees(
                transaction_context.utxos(), lent, ids, caller_utxos, program_key, regions, host, ias, keys, infos, metas, i + 1);
            match updated {
                Ok(()) => {},
                Err(e) => {
                    failure = Some(e);
                    break;
                },
            }
            proof {
                assert(accounts@.push((ia.index_in_caller, caller_account)).add(rest.1) =~= accounts@.add(
                    seq![(ia.index_in_caller, caller_account)].add(rest.1)));
            }
            accounts.push((ia.index_in_caller, caller_account));
        }
        i = i + 1;
    }
    match failure {
        None => Ok(accounts),
        Some(e) => Err(e),
    }
}

proof fn lemma_map_result_in_host(
    regions: Seq<crate::runtime::memory::MemoryRegion>,
    host_len: int,
    access: AccessType,
    a: u64,
    len: u64,
)
    requires
        crate::runtime::memory::memory_wf(regions, host_len),
    ensures
        map_result(regions, access, a, len) matches Ok(h) ==> h + len <= host_len,
{
    crate::runtime::memory::lemma_lookup_some(regions, access, a as int);
}

proof fn lemma_splice_reads_back(host: Seq<u8>, at: int, bytes: Seq<u8>)
    requires
        0 <= at,
        at + bytes.len() <= host.len(),
    ensures
        splice(host, at, bytes).len() == host.len(),
        splice(host, at, bytes).subrange(at, at + bytes.len()) == bytes,
{
    assert(splice(host, at, bytes).subrange(at, at + bytes.len()) =~= bytes);
}

/// When writing the runtime's copy back into the caller's guest memory
/// succeeds, the caller's view has the copy's length and its data bytes hold
/// the copy's data.
pub proof fn lemma_caller_sees_callee_data(
    regions: Seq<crate::runtime::memory::MemoryRegion>,
    host: Seq<u8>,
    c: CallerAccount,
    data: Seq<u8>,
    authority: Seq<u8>,
)
    requires
        crate::runtime::memory::memory_wf(regions, host.len() as int),
        caller_account_fits(c, host.len() as int),
        authority.len() == 32,
        caller_sync(regions, host, c, data, authority).2 is Ok,
    ensures
        ({
            let r = caller_sync(regions, host, c, data, authority);
            &&& r.1.serialized_data_len == data.len()
            &&& r.0.subrange(r.1.serialized_data as int, r.1.serialized_data + data.len()) == data
        }),
{
    let h1 = splice(host, c.authority as int, authority);
    lemma_splice_reads_back(host, c.authority as int, authority);
    let prev_len = le_value(h1.subrange(c.ref_to_len_in_vm.at(), c.ref_to_len_in_vm.at() + 8));
    let post_len = data.len();
    if prev_len != post_len {
        let h2 = if post_len < prev_len {
            crate::runtime::memory::fill_range(h1, c.serialized_data + post_len, c.serialized_data_len - post_len, 0)
        } else {
            h1
        };
        assert(h2.len() == host.len());
        lemma_map_result_in_host(regions, host.len() as int, AccessType::Store, c.vm_data_addr, post_len as u64);
        let h = data_slice_result(regions, c.vm_data_addr, post_len as u64)->Ok_0;
        assert(h + post_len <= host.len());
        crate::bytes::lemma_le_bytes_len(post_len, 8);
        let h3 = splice(h2, c.ref_to_len_in_vm.at(), le_bytes(post_len, 8));
        lemma_splice_reads_back(h2, c.ref_to_len_in_vm.at(), le_bytes(post_len, 8));
        let len_addr = if c.vm_data_addr >= 8 {
            (c.vm_data_addr - 8) as u64
        } else {
            0u64
        };
        lemma_map_result_in_host(regions, host.len() as int, AccessType::Store, len_addr, 8);
        let p = map_result(regions, AccessType::Store, len_addr, 8)->Ok_0;
        let h4 = splice(h3, p as int, le_bytes(post_len, 8));
        lemma_splice_reads_back(h3, p as int, le_bytes(post_len, 8));
        lemma_splice_reads_back(h4, h as int, data);
    } else {
        lemma_splice_reads_back(h1, c.serialized_data as int, data);
    }
}

/// Two host ranges share no byte.
pub open spec fn bytes_apart(a: int, n: int, b: int, m: int) -> bool {
    a + n <= b || b + m <= a
}

proof fn lemma_splice_keeps(s: Seq<u8>, at: int, bytes: Seq<u8>, lo: int, n: int)
    requires
        0 <= at,
        at + bytes.len() <= s.len(),
        0 <= lo,
        0 <= n,
        lo + n <= s.len(),
        bytes_apart(lo, n, at, bytes.len() as int),
    ensures
        splice(s, at, bytes).len() == s.len(),
        splice(s, at, bytes).subrange(lo, lo + n) == s.subrange(lo, lo + n),
{
    assert(splice(s, at, bytes).subrange(lo, lo + n) =~= s.subrange(lo, lo + n));
}

/// Two guest ranges that follow each other lie apart in the host buffer too.
proof fn lemma_adjacent_ranges_apart(
    regions: Seq<crate::runtime::memory::MemoryRegion>,
    host_len: int,
    a: u64,
    n: u64,
    m: u64,
)
    requires
        crate::runtime::memory::memory_wf(regions, host_len),
        host_len <= u64::MAX,
        m > 0,
        a + n <= u64::MAX,
        map_result(regions, AccessType::Store, a, n) is Ok,
        map_result(regions, AccessType::Store, (a + n) as u64, m) is Ok,
    ensures
        bytes_apart(
            map_result(regions, AccessType::Store, a, n)->Ok_0 as int,
            n as int,
            map_result(regions, AccessType::Store, (a + n) as u64, m)->Ok_0 as int,
            m as int,
        ),
{
    crate::runtime::memory::lemma_lookup_some(regions, AccessType::Store, a as int);
    crate::runtime::memory::lemma_lookup_some(regions, AccessType::Store, a + n);
    let i = crate::runtime::memory::lookup(regions, AccessType::Store, a as int)->Some_0;
    let j = crate::runtime::memory::lookup(regions, AccessType::Store, a + n)->Some_0;
    let p = crate::runtime::memory::host_index(regions[i], a as int);
    let h = crate::runtime::memory::host_index(regions[j], a + n);
    assert(map_result(regions, AccessType::Store, a, n)->Ok_0 == p);
    assert(map_result(regions, AccessType::Store, (a + n) as u64, m)->Ok_0 == h);
    if i != j {
        assert(regions[i].host_offset + regions[i].len <= regions[j].host_offset || regions[j].host_offset
            + regions[j].len <= regions[i].host_offset);
    }
}

/// After a call, when the runtime's copy of a UTXO is written back into the
/// caller's guest memory successfully and its data length differs from the
/// length that the caller's data slice had, both of the caller's length
/// fields hold the new length, little-endian: the one that its data slice
/// refers to, and the 8 bytes just before the data's guest address. This
/// holds for shrinking as well as growing. (The length reference is taken to
/// lie apart from the authority, from the other length field and from the
/// data.)
pub proof fn lemma_write_back_updates_both_lengths(
    regions: Seq<crate::runtime::memory::MemoryRegion>,
    host: Seq<u8>,
    c: CallerAccount,
    data: Seq<u8>,
    authority: Seq<u8>,
)
    requires
        crate::runtime::memory::memory_wf(regions, host.len() as int),
        host.len() <= usize::MAX,
        caller_account_fits(c, host.len() as int),
        authority.len() == 32,
        c.vm_data_addr >= 8,
        bytes_apart(c.ref_to_len_in_vm.at(), 8, c.authority as int, 32),
        le_value(host.subrange(c.ref_to_len_in_vm.at(), c.ref_to_len_in_vm.at() + 8)) != data.len(),
    ensures
        ({
            let r = caller_sync(regions, host, c, data, authority);
            let at = c.ref_to_len_in_vm.at();
            let before = map_result(regions, AccessType::Store, (c.vm_data_addr - 8) as u64, 8);
            r.2 is Ok ==> {
                &&& before is Ok
                &&& r.1.serialized_data_len == data.len()
                &&& (bytes_apart(at, 8, before->Ok_0 as int, 8) && bytes_apart(
                    at,
                    8,
                    r.1.serialized_data as int,
                    data.len() as int,
                )) ==> r.0.subrange(at, at + 8) == le_bytes(data.len(), 8)
                &&& r.0.subrange(before->Ok_0 as int, before->Ok_0 + 8) == le_bytes(data.len(), 8)
            }
        }),
{
    let at = c.ref_to_len_in_vm.at();
    let h1 = splice(host, c.authority as int, authority);
    lemma_splice_keeps(host, c.authority as int, authority, at, 8);
    let prev_len = le_value(h1.subrange(at, at + 8));
    let post_len = data.len();
    assert(prev_len != post_len);
    let r = caller_sync(regions, host, c, data, authority);
    if r.2 is Ok {
        let h2 = if post_len < prev_len {
            crate::runtime::memory::fill_range(h1, c.serialized_data + post_len, c.serialized_data_len - post_len, 0)
        } else {
            h1
        };
        assert(h2.len() == host.len());
        lemma_map_result_in_host(regions, host.len() as int, AccessType::Store, c.vm_data_addr, post_len as u64);
        let h = data_slice_result(regions, c.vm_data_addr, post_len as u64)->Ok_0;
        assert(h + post_len <= host.len());
        crate::bytes::lemma_le_bytes_len(post_len, 8);
        let h3 = splice(h2, at, le_bytes(post_len, 8));
        lemma_splice_reads_back(h2, at, le_bytes(post_len, 8));
        let len_addr = (c.vm_data_addr - 8) as u64;
        lemma_map_result_in_host(regions, host.len() as int, AccessType::Store, len_addr, 8);
        let p = map_result(regions, AccessType::Store, len_addr, 8)->Ok_0;
        let h4 = splice(h3, p as int, le_bytes(post_len, 8));
        lemma_splice_reads_back(h3, p as int, le_bytes(post_len, 8));
        assert(r.0 == splice(h4, h as int, data));
        assert(r.1.serialized_data == h);
        if bytes_apart(at, 8, p as int, 8) && bytes_apart(at, 8, h as int, post_len as int) {
            lemma_splice_keeps(h3, p as int, le_bytes(post_len, 8), at, 8);
            lemma_splice_keeps(h4, h as int, data, at, 8);
        }
        if post_len > 0 {
            lemma_adjacent_ranges_apart(regions, host.len() as int, len_addr, 8, post_len as u64);
        }
        lemma_splice_keeps(h4, h as int, data, p as int, 8);
    }
}

/// After a call, when the runtime's copy of a UTXO is written back
/// successfully and its data became shorter than the caller's, the caller's
/// bytes that the data no longer covers are zero (those not taken by the
/// length fields or the new data).
pub proof fn lemma_write_back_zeroes_released_bytes(
    regions: Seq<crate::runtime::memory::MemoryRegion>,
    host: Seq<u8>,
    c: CallerAccount,
    data: Seq<u8>,
    authority: Seq<u8>,
    x: int,
)
    requires
        crate::runtime::memory::memory_wf(regions, host.len() as int),
        caller_account_fits(c, host.len() as int),
        authority.len() == 32,
        c.vm_data_addr >= 8,
        bytes_apart(c.ref_to_len_in_vm.at(), 8, c.authority as int, 32),
        data.len() < le_value(host.subrange(c.ref_to_len_in_vm.at(), c.ref_to_len_in_vm.at() + 8)),
        c.serialized_data + data.len() <= x < c.serialized_data + c.serialized_data_len,
    ensures
        ({
            let r = caller_sync(regions, host, c, data, authority);
            let at = c.ref_to_len_in_vm.at();
            let before = map_result(regions, AccessType::Store, (c.vm_data_addr - 8) as u64, 8);
            (r.2 is Ok && bytes_apart(x, 1, at, 8) && bytes_apart(x, 1, before->Ok_0 as int, 8)
                && bytes_apart(x, 1, r.1.serialized_data as int, data.len() as int)) ==> r.0[x] == 0
        }),
{
    let at = c.ref_to_len_in_vm.at();
    let h1 = splice(host, c.authority as int, authority);
    lemma_splice_keeps(host, c.authority as int, authority, at, 8);
    let post_len = data.len();
    let r = caller_sync(regions, host, c, data, authority);
    let before = map_result(regions, AccessType::Store, (c.vm_data_addr - 8) as u64, 8);
    if r.2 is Ok && bytes_apart(x, 1, at, 8) && bytes_apart(x, 1, before->Ok_0 as int, 8)
        && bytes_apart(x, 1, r.1.serialized_data as int, data.len() as int) {
        lemma_splice_reads_back(host, c.authority as int, authority);
        let h2 = crate::runtime::memory::fill_range(h1, c.serialized_data + post_len, c.serialized_data_len - post_len, 0);
        assert(h2[x] == 0);
        lemma_map_result_in_host(regions, host.len() as int, AccessType::Store, c.vm_data_addr, post_len as u64);
        let h = data_slice_result(regions, c.vm_data_addr, post_len as u64)->Ok_0;
        crate::bytes::lemma_le_bytes_len(post_len, 8);
        let h3 = splice(h2, at, le_bytes(post_len, 8));
        lemma_splice_keeps(h2, at, le_bytes(post_len, 8), x, 1);
        lemma_map_result_in_host(regions, host.len() as int, AccessType::Store, (c.vm_data_addr - 8) as u64, 8);
        let p = before->Ok_0;
        let h4 = splice(h3, p as int, le_bytes(post_len, 8));
        lemma_splice_keeps(h3, p as int, le_bytes(post_len, 8), x, 1);
        lemma_splice_keeps(h4, h as int, data, x, 1);
        assert(r.0 == splice(h4, h as int, data));
        assert(r.0.subrange(x, x + 1)[0] == h2.subrange(x, x + 1)[0]);
    }
}

/// After a call: for each passed UTXO, in order, the runtime's copy is
/// written back into the caller's guest memory and view. Gives the host
/// buffer and the views after these writes, and the error that stopped the
/// walk, if any.
pub open spec fn sync_callers(
    regions: Seq<crate::runtime::memory::MemoryRegion>,
    host: Seq<u8>,
    utxos: Seq<UtxoState>,
    borrowed: Seq<bool>,
    caller_utxos: Seq<InstructionUtxo>,
    accounts: Seq<(usize, CallerAccount)>,
    k: int,
) -> (Seq<u8>, Seq<(usize, CallerAccount)>, Option<SyscallError>)
    decreases accounts.len() - k,
{
    if k < 0 || k >= accounts.len() {
        (host, accounts, None)
    } else {
        let idx = accounts[k].0;
        if idx >= caller_utxos.len() {
            (host, accounts, Some(SyscallError::Instruction(InstructionError::NotEnoughAccountKeys)))
        } else {
            let t = caller_utxos[idx as int].index_in_transaction;
            if t >= utxos.len() {
                (host, accounts, Some(SyscallError::Instruction(InstructionError::MissingAccount)))
            } else if flagged(borrowed, t as int) {
                (host, accounts, Some(SyscallError::Instruction(InstructionError::AccountBorrowFailed)))
            } else {
                let r = caller_sync(regions, host, accounts[k].1, utxos[t as int].data, utxos[t as int].authority);
                let accounts2 = accounts.update(k, (idx, r.1));
                match r.2 {
                    Err(e) => (r.0, accounts2, Some(e)),
                    Ok(()) => sync_callers(regions, r.0, utxos, borrowed, caller_utxos, accounts2, k + 1),
                }
            }
        }
    }
}

/// After a call, writes the runtime's copy of each passed UTXO back into the
/// caller's guest memory and its view of it.
pub fn update_caller_accounts(
    transaction_context: &TransactionContext,
    instruction_context: &InstructionContext,
    mem: &mut GuestMemory,
    accounts: &mut Vec<(IndexOfUtxo, CallerAccount)>,
) -> (res: Result<(), SyscallError>)
    requires
        old(mem).wf(),
        forall|j: int|
            0 <= j < old(accounts)@.len() ==> caller_account_fits(
                #[trigger] old(accounts)@[j].1,
                old(mem).host@.len() as int,
            ),
    ensures
        ({
            let w = sync_callers(
                old(mem).regions@,
                old(mem).host@,
                transaction_context.utxos(),
                transaction_context.borrowed(),
                instruction_context.instruction_utxos@,
                old(accounts)@,
                0,
            );
            &&& final(mem).regions@ == old(mem).regions@
            &&& final(mem).host@ == w.0
            &&& final(accounts)@ == w.1
            &&& res == match w.2 {
                None => Ok::<(), SyscallError>(()),
                Some(e) => Err(e),
            }
        }),
{
    let ghost regions = mem.regions@;
    let ghost utxos = transaction_context.utxos();
    let ghost caller_utxos = instruction_context.instruction_utxos@;
    let ghost whole = sync_callers(regions, mem.host@, utxos, transaction_context.borrowed(), caller_utxos, accounts@, 0);
    let ghost host_len = mem.host@.len();
    let mut k: usize = 0;
    let mut failure: Option<SyscallError> = None;
    while k < accounts.len()
        invariant_except_break
            failure is None,
            whole == sync_callers(regions, mem.host@, utxos, transaction_context.borrowed(), caller_utxos, accounts@, k as int),
            forall|j: int|
                k <= j < accounts@.len() ==> caller_account_fits(#[trigger] accounts@[j].1, host_len as int),
        invariant
            mem.wf(),
            mem.regions@ == regions,
            mem.host@.len() == host_len,
            utxos == transaction_context.utxos(),
            caller_utxos == instruction_context.instruction_utxos@,
            k <= accounts@.len(),
        ensures
            failure is None ==> whole == (mem.host@, accounts@, None::<SyscallError>),
            failure matches Some(e) ==> whole.0 == mem.host@ && whole.1 == accounts@ && whole.2 == Some(e),
        decreases accounts@.len() - k,
    {
        let (idx, account) = accounts[k];
        let callee = match instruction_context.read_instruction_utxo(transaction_context, idx) {
            Ok(b) => b,
            Err(e) => {
                failure = Some(SyscallError::Instruction(e));
                break;
            },
        };
        let mut updated = account;
        let r = update_caller_account(mem, &mut updated, &callee);
        accounts.set(k, (idx, updated));
        match r {
            Ok(()) => {},
            Err(e) => {
                failure = Some(e);
                break;
            },
        }
        k = k + 1;
    }
    match failure {
        None => Ok(()),
        Some(e) => Err(e),
    }
}

/// Where `len` elements of `size` bytes from the guest address `ptr` lie in
/// the host buffer, for reading: an empty slice needs no place; one larger
/// than the host's signed size allows is refused.
pub open spec fn slice_result(
    regions: Seq<crate::runtime::memory::MemoryRegion>,
    ptr: u64,
    len: u64,
    size: u64,
) -> Result<u64, SyscallError> {
    let total = if len * size > u64::MAX {
        u64::MAX as int
    } else {
        len * size
    };
    if len == 0 {
        Ok(0)
    } else if total > isize::MAX {
        Err(SyscallError::InvalidLength)
    } else {
        match map_result(regions, AccessType::Load, ptr, total as u64) {
            Ok(h) => Ok(h),
            Err(e) => Err(SyscallError::Memory(e)),
        }
    }
}

pub(crate) fn translate_slice(mem: &GuestMemory, ptr: u64, len: u64, size: u64) -> (res: Result<u64, SyscallError>)
    requires
        mem.wf(),
        size > 0,
    ensures
        res == slice_result(mem.regions@, ptr, len, size),
        res matches Ok(h) ==> len == 0 || h + len * size <= mem.host@.len(),
{
    if len == 0 {
        return Ok(0);
    }
    let total = match len.checked_mul(size) {
        Some(t) => t,
        None => u64::MAX,
    };
    if total > isize::MAX as u64 {
        return Err(SyscallError::InvalidLength);
    }
    match translate(mem, AccessType::Load, ptr, total) {
        Ok(h) => Ok(h),
        Err(e) => Err(SyscallError::Memory(e)),
    }
}

/// The instruction that a program passes to a call, read from its guest
/// memory in its `#[repr(C)]` layout: the UTXO identities (a pointer, a
/// capacity and a length), the data (the same), and the 32 bytes of the
/// program id. Gives the identities, the data and the program id.
pub open spec fn instruction_result(
    regions: Seq<crate::runtime::memory::MemoryRegion>,
    host: Seq<u8>,
    addr: u64,
) -> Result<(Seq<Seq<u8>>, Seq<u8>, Seq<u8>), SyscallError> {
    match map_result(regions, AccessType::Load, addr, 80) {
        Err(e) => Err(SyscallError::Memory(e)),
        Ok(h) => if h % 8 != 0 {
            Err(SyscallError::UnalignedPointer)
        } else {
            let uptr = le_value(host.subrange(h as int, h + 8)) as u64;
            let ulen = le_value(host.subrange(h + 16, h + 24)) as u64;
            let dptr = le_value(host.subrange(h + 24, h + 32)) as u64;
            let dlen = le_value(host.subrange(h + 40, h + 48)) as u64;
            match slice_result(regions, uptr, ulen, 36) {
                Err(e) => Err(e),
                Ok(hu) => match slice_result(regions, dptr, dlen, 1) {
                    Err(e) => Err(e),
                    Ok(hd) => Ok(
                        (
                            Seq::new(ulen as nat, |k: int| host.subrange(hu + 36 * k, hu + 36 * k + 36)),
                            host.subrange(hd as int, hd + dlen),
                            host.subrange(h + 48, h + 80),
                        ),
                    ),
                },
            }
        },
    }
}

fn to_utxo_id(s: &[u8], at: usize) -> (res: UtxoId)
    requires
        at + 36 <= s@.len(),
    ensures
        res.bytes() == s@.subrange(at as int, at + 36),
{
    let mut out = [0u8; 36];
    let mut k: usize = 0;
    while k < 36
        invariant
            k <= 36,
            at + 36 <= s.len(),
            forall|m: int| 0 <= m < k ==> out@[m] == s@[at + m],
        decreases 36 - k,
    {
        out[k] = s[at + k];
        k = k + 1;
    }
    assert(out@ =~= s@.subrange(at as int, at + 36));
    UtxoId(out)
}

impl StableInstruction {
    /// The identities, data and program id of the instruction.
    pub open spec fn parts(self) -> (Seq<Seq<u8>>, Seq<u8>, Seq<u8>) {
        (self.utxos@.map_values(|u: UtxoId| u.bytes()), self.data@, self.program_id.0@)
    }
}

/// The identities of the passed UTXOs, in order, or the first error.
pub open spec fn account_keys_from(
    regions: Seq<crate::runtime::memory::MemoryRegion>,
    host: Seq<u8>,
    infos: Seq<UtxoInfoAddresses>,
    k: int,
) -> Result<Seq<Seq<u8>>, SyscallError>
    decreases infos.len() - k,
{
    if k < 0 || k >= infos.len() {
        Ok(Seq::empty())
    } else {
        match account_info_key(regions, host, infos[k]) {
            Err(e) => Err(e),
            Ok(key) => match account_keys_from(regions, host, infos, k + 1) {
                Err(e) => Err(e),
                Ok(rest) => Ok(seq![key].add(rest)),
            },
        }
    }
}

pub open spec fn account_keys(
    regions: Seq<crate::runtime::memory::MemoryRegion>,
    host: Seq<u8>,
    infos: Seq<UtxoInfoAddresses>,
) -> Result<Seq<Seq<u8>>, SyscallError> {
    account_keys_from(regions, host, infos, 0)
}

proof fn lemma_account_keys_ok_from(
    regions: Seq<crate::runtime::memory::MemoryRegion>,
    host: Seq<u8>,
    infos: Seq<UtxoInfoAddresses>,
    keys: Seq<UtxoId>,
    k: int,
)
    requires
        0 <= k <= infos.len(),
        keys.len() == infos.len(),
        forall|m: int|
            0 <= m < infos.len() ==> #[trigger] account_info_key(regions, host, infos[m]) == Ok::<
                Seq<u8>,
                SyscallError,
            >(keys[m].bytes()),
    ensures
        account_keys_from(regions, host, infos, k) == Ok::<Seq<Seq<u8>>, SyscallError>(
            key_bytes(keys).subrange(k, keys.len() as int),
        ),
    decreases infos.len() - k,
{
    if k < infos.len() {
        lemma_account_keys_ok_from(regions, host, infos, keys, k + 1);
        assert(account_info_key(regions, host, infos[k]) == Ok::<Seq<u8>, SyscallError>(keys[k].bytes()));
        assert(seq![keys[k].bytes()].add(key_bytes(keys).subrange(k + 1, keys.len() as int)) =~= key_bytes(
            keys,
        ).subrange(k, keys.len() as int));
    } else {
        assert(key_bytes(keys).subrange(k, keys.len() as int) =~= Seq::<Seq<u8>>::empty());
    }
}

proof fn lemma_account_keys_ok(
    regions: Seq<crate::runtime::memory::MemoryRegion>,
    host: Seq<u8>,
    infos: Seq<UtxoInfoAddresses>,
    keys: Seq<UtxoId>,
)
    requires
        keys.len() == infos.len(),
        forall|m: int|
            0 <= m < infos.len() ==> #[trigger] account_info_key(regions, host, infos[m]) == Ok::<
                Seq<u8>,
                SyscallError,
            >(keys[m].bytes()),
    ensures
        account_keys(regions, host, infos) == Ok::<Seq<Seq<u8>>, SyscallError>(key_bytes(keys)),
{
    lemma_account_keys_ok_from(regions, host, infos, keys, 0);
    assert(key_bytes(keys).subrange(0, keys.len() as int) =~= key_bytes(keys));
}

proof fn lemma_account_keys_error_from(
    regions: Seq<crate::runtime::memory::MemoryRegion>,
    host: Seq<u8>,
    infos: Seq<UtxoInfoAddresses>,
    e: SyscallError,
    bad: int,
    k: int,
)
    requires
        0 <= k <= bad < infos.len(),
        account_info_key(regions, host, infos[bad]) == Err::<Seq<u8>, SyscallError>(e),
        forall|m: int| 0 <= m < bad ==> #[trigger] account_info_key(regions, host, infos[m]) is Ok,
    ensures
        account_keys_from(regions, host, infos, k) == Err::<Seq<Seq<u8>>, SyscallError>(e),
    decreases bad - k,
{
    if k < bad {
        lemma_account_keys_error_from(regions, host, infos, e, bad, k + 1);
        assert(account_info_key(regions, host, infos[k]) is Ok);
    }
}

proof fn lemma_account_keys_error(
    regions: Seq<crate::runtime::memory::MemoryRegion>,
    host: Seq<u8>,
    infos: Seq<UtxoInfoAddresses>,
    e: SyscallError,
)
    requires
        exists|k: int|
            0 <= k < infos.len() && account_info_key(regions, host, infos[k]) == Err::<Seq<u8>, SyscallError>(e)
                && forall|m: int| 0 <= m < k ==> #[trigger] account_info_key(regions, host, infos[m]) is Ok,
    ensures
        account_keys(regions, host, infos) == Err::<Seq<Seq<u8>>, SyscallError>(e),
{
    let bad = choose|k: int|
        0 <= k < infos.len() && account_info_key(regions, host, infos[k]) == Err::<Seq<u8>, SyscallError>(e)
            && forall|m: int| 0 <= m < k ==> #[trigger] account_info_key(regions, host, infos[m]) is Ok;
    lemma_account_keys_error_from(regions, host, infos, e, bad, 0);
}

/// The translation of a call that a program written in Rust makes.
pub struct SyscallInvokeSignedRust {}

impl SyscallInvokeSignedRust {
    /// Reads the instruction that a program passes to a call from its guest
    /// memory.
    pub fn translate_instruction(mem: &GuestMemory, addr: u64) -> (res: Result<StableInstruction, SyscallError>)
        requires
            mem.wf(),
        ensures
            match instruction_result(mem.regions@, mem.host@, addr) {
                Err(e) => res == Err::<StableInstruction, SyscallError>(e),
                Ok(p) => res matches Ok(ix) && ix.parts() == p,
            },
    {
        proof {
            assert(mem.host@.len() == mem.host.len());
        }
        let h = match translate(mem, AccessType::Load, addr, 80) {
            Ok(h) => h,
            Err(e) => return Err(SyscallError::Memory(e)),
        };
        if h % 8 != 0 {
            return Err(SyscallError::UnalignedPointer);
        }
        let host = mem.host.as_slice();
        let hu = h as usize;
        let uptr = read_u64_le_at(host, hu);
        let ulen = read_u64_le_at(host, hu + 16);
        let dptr = read_u64_le_at(host, hu + 24);
        let dlen = read_u64_le_at(host, hu + 40);
        let mut program_id = [0u8; 32];
        let mut k: usize = 0;
        while k < 32
            invariant
                k <= 32,
                hu + 80 <= host.len(),
                forall|m: int| 0 <= m < k ==> program_id@[m] == host@[hu + 48 + m],
            decreases 32 - k,
        {
            program_id[k] = host[hu + 48 + k];
            k = k + 1;
        }
        assert(program_id@ =~= host@.subrange(hu + 48, hu + 80));
        let su = match translate_slice(mem, uptr, ulen, 36) {
            Ok(s) => s,
            Err(e) => return Err(e),
        };
        let sd = match translate_slice(mem, dptr, dlen, 1) {
            Ok(s) => s,
            Err(e) => return Err(e),
        };
        let mut utxos: Vec<UtxoId> = Vec::new();
        let mut i: u64 = 0;
        while i < ulen
            invariant
                i <= ulen,
                utxos@.len() == i,
                host@ == mem.host@,
                host@.len() == host.len(),
                ulen == 0 || su + ulen * 36 <= host@.len(),
                forall|m: int|
                    0 <= m < i ==> (#[trigger] utxos@[m]).bytes() == host@.subrange(su + 36 * m, su + 36 * m + 36),
            decreases ulen - i,
        {
            proof {
                assert(36 * i + 36 <= 36 * ulen) by (nonlinear_arith)
                    requires
                        i < ulen,
                ;
            }
            let id = to_utxo_id(host, (su + 36 * i) as usize);
            utxos.push(id);
            i = i + 1;
        }
        let data = if dlen == 0 {
            Vec::new()
        } else {
            vstd::slice::slice_to_vec(vstd::slice::slice_subrange(host, sd as usize, (sd + dlen) as usize))
        };
        let ix = StableInstruction { utxos, data, program_id: Pubkey(program_id) };
        proof {
            let p = instruction_result(mem.regions@, mem.host@, addr)->Ok_0;
            assert(ix.utxos@.map_values(|u: UtxoId| u.bytes()) =~= p.0);
            assert(ix.data@ =~= p.1);
        }
        Ok(ix)
    }

    /// The caller's views of the UTXOs of a call, found among the UTXOs the
    /// caller passed (by identity) and written over the runtime's copies;
    /// `account_infos` holds the guest addresses of the fields of each
    /// passed UTXO.
    pub fn translate_accounts(
        instruction_accounts: &[InstructionUtxo],
        account_infos: &[UtxoInfoAddresses],
        mem: &GuestMemory,
        transaction_context: &mut TransactionContext,
        instruction_context: &InstructionContext,
        accounts_metadata: &[SerializedUtxoMetadata],
    ) -> (res: Result<Vec<(IndexOfUtxo, CallerAccount)>, SyscallError>)
        requires
            mem.wf(),
        ensures
            match account_keys(mem.regions@, mem.host@, account_infos@) {
                Err(e) => res == Err::<Vec<(IndexOfUtxo, CallerAccount)>, SyscallError>(e)
                    && final(transaction_context).utxos() == old(transaction_context).utxos(),
                Ok(keys) => {
                    let w = sync_callees(
                        old(transaction_context).utxos(),
                        old(transaction_context).borrowed(),
                        old(transaction_context).ids(),
                        instruction_context.instruction_utxos@,
                        instruction_context.program_id.0@,
                        mem.regions@,
                        mem.host@,
                        instruction_accounts@,
                        keys,
                        account_infos@,
                        accounts_metadata@,
                        0,
                    );
                    &&& final(transaction_context).utxos() == w.0
                    &&& match w.2 {
                        None => res matches Ok(accounts) && accounts@ == w.1,
                        Some(e) => res == Err::<Vec<(IndexOfUtxo, CallerAccount)>, SyscallError>(e),
                    }
                },
            },
    {
        let keys = match translate_account_infos(mem, account_infos) {
            Ok(k) => k,
            Err(e) => {
                proof {
                    lemma_account_keys_error(mem.regions@, mem.host@, account_infos@, e);
                }
                return Err(e);
            },
        };
        proof {
            lemma_account_keys_ok(mem.regions@, mem.host@, account_infos@, keys@);
        }
        translate_and_update_accounts(
            transaction_context,
            instruction_context,
            mem,
            instruction_accounts,
            keys.as_slice(),
            account_infos,
            accounts_metadata,
        )
    }
}

} // verus!
