//! The memory system calls that a program makes, on its guest memory.
use vstd::prelude::*;
use crate::bytes::le_bytes;
use crate::runtime::cpi::{map_result, slice_result, splice, translate, translate_slice};
use crate::runtime::errors::SyscallError;
use crate::runtime::memory::{
    AccessType, GuestMemory, apply_fills, apply_moves, comparison_outcome,
    is_nonoverlapping, memcmp_non_contiguous, memmove_non_contiguous, memset_non_contiguous,
    moves_backward, pair_walk, ranges_apart,
};

verus! {


/// The outcome of a move of `n` guest bytes from `src_addr` to `dst_addr`.
pub open spec fn move_outcome(mem: GuestMemory, dst_addr: u64, src_addr: u64, n: u64) -> (Seq<u8>, Result<u64, SyscallError>) {
    let w = pair_walk(
        mem.regions@,
        AccessType::Load,
        src_addr as int,
        AccessType::Store,
        dst_addr as int,
        n as int,
        moves_backward(dst_addr, src_addr, n),
    );
    (
        apply_moves(mem.regions@, mem.host@, w.0),
        match w.1 {
            None => Ok(0),
            Some(e) => Err(SyscallError::Memory(e)),
        },
    )
}

/// Copies `n` guest bytes from `src_addr` to `dst_addr`, which must not
/// overlap.
pub fn syscall_memcpy(mem: &mut GuestMemory, dst_addr: u64, src_addr: u64, n: u64) -> (res: Result<
    u64,
    SyscallError,
>)
    requires
        old(mem).wf(),
    ensures
        final(mem).regions@ == old(mem).regions@,
        !ranges_apart(src_addr, n, dst_addr, n) ==> res == Err::<u64, SyscallError>(
            SyscallError::CopyOverlapping,
        ) && final(mem).host@ == old(mem).host@,
        ranges_apart(src_addr, n, dst_addr, n) ==> final(mem).host@ == move_outcome(
            *old(mem),
            dst_addr,
            src_addr,
            n,
        ).0 && res == move_outcome(*old(mem), dst_addr, src_addr, n).1,
{
    if !is_nonoverlapping(src_addr, n, dst_addr, n) {
        return Err(SyscallError::CopyOverlapping);
    }
    syscall_memmove(mem, dst_addr, src_addr, n)
}

/// Copies `n` guest bytes from `src_addr` to `dst_addr`, as one move.
pub fn syscall_memmove(mem: &mut GuestMemory, dst_addr: u64, src_addr: u64, n: u64) -> (res: Result<
    u64,
    SyscallError,
>)
    requires
        old(mem).wf(),
    ensures
        final(mem).regions@ == old(mem).regions@,
        final(mem).host@ == move_outcome(*old(mem), dst_addr, src_addr, n).0,
        res == move_outcome(*old(mem), dst_addr, src_addr, n).1,
{
    match memmove_non_contiguous(dst_addr, src_addr, n, mem) {
        Ok(v) => Ok(v),
        Err(e) => Err(SyscallError::Memory(e)),
    }
}

/// Sets `n` guest bytes from `dst_addr` to the low byte of `c`.
pub fn syscall_memset(mem: &mut GuestMemory, dst_addr: u64, c: u64, n: u64) -> (res: Result<
    u64,
    SyscallError,
>)
    requires
        old(mem).wf(),
    ensures
        ({
            let w = pair_walk(
                old(mem).regions@,
                AccessType::Store,
                dst_addr as int,
                AccessType::Store,
                dst_addr as int,
                n as int,
                false,
            );
            &&& final(mem).regions@ == old(mem).regions@
            &&& final(mem).host@ == apply_fills(old(mem).regions@, old(mem).host@, w.0, c as u8)
            &&& res == match w.1 {
                None => Ok::<u64, SyscallError>(0),
                Some(e) => Err(SyscallError::Memory(e)),
            }
        }),
{
    match memset_non_contiguous(dst_addr, c as u8, n, mem) {
        Ok(v) => Ok(v),
        Err(e) => Err(SyscallError::Memory(e)),
    }
}

/// The four little-endian bytes of an `i32`.
pub open spec fn i32_bytes(v: i32) -> Seq<u8> {
    le_bytes(v as u32 as nat, 4)
}

fn write_i32_at(host: &mut Vec<u8>, at: u64, v: i32)
    requires
        at + 4 <= old(host)@.len(),
    ensures
        final(host)@ == stored_result(old(host)@, at, v),
{
    let b = crate::bytes::u32_to_le(v as u32);
    proof {
        crate::bytes::lemma_le_bytes_len(v as u32 as nat, 4);
    }
    let ghost before = host@;
    let at = at as usize;
    let mut k: usize = 0;
    while k < 4
        invariant
            k <= 4,
            at + 4 <= host.len(),
            host@.len() == before.len(),
            b@ == i32_bytes(v),
            forall|x: int|
                0 <= x < before.len() ==> #[trigger] host@[x] == if at <= x < at + k {
                    b@[x - at]
                } else {
                    before[x]
                },
        decreases 4 - k,
    {
        host.set(at + k, b[k]);
        k = k + 1;
    }
    assert(host@ =~= splice(before, at as int, i32_bytes(v)));
}

/// The host buffer with the result `r` stored at `h`.
pub open spec fn stored_result(host: Seq<u8>, h: u64, r: i32) -> Seq<u8> {
    splice(host, h as int, i32_bytes(r))
}

/// Where the result of a comparison goes: a writable, 4-aligned `i32`.
pub open spec fn result_slot(mem: GuestMemory, result_addr: u64) -> Result<u64, SyscallError> {
    match map_result(mem.regions@, AccessType::Store, result_addr, 4) {
        Err(e) => Err(SyscallError::Memory(e)),
        Ok(h) => if h % 4 != 0 {
            Err(SyscallError::UnalignedPointer)
        } else {
            Ok(h)
        },
    }
}

fn result_slot_exec(mem: &GuestMemory, result_addr: u64) -> (res: Result<u64, SyscallError>)
    requires
        mem.wf(),
    ensures
        res == result_slot(*mem, result_addr),
        res matches Ok(h) ==> h + 4 <= mem.host@.len(),
{
    match translate(mem, AccessType::Store, result_addr, 4) {
        Err(e) => Err(SyscallError::Memory(e)),
        Ok(h) => if h % 4 != 0 {
            Err(SyscallError::UnalignedPointer)
        } else {
            Ok(h)
        },
    }
}

/// Compares `n` guest bytes from `s1_addr` with `n` from `s2_addr` and
/// stores the result as an `i32` at `result_addr`.
pub fn syscall_memcmp(mem: &mut GuestMemory, s1_addr: u64, s2_addr: u64, n: u64, result_addr: u64) -> (res:
    Result<u64, SyscallError>)
    requires
        old(mem).wf(),
    ensures
        final(mem).regions@ == old(mem).regions@,
        match result_slot(*old(mem), result_addr) {
            Err(e) => res == Err::<u64, SyscallError>(e) && final(mem).host@ == old(mem).host@,
            Ok(h) => match comparison_outcome(old(mem).regions@, old(mem).host@, s1_addr, s2_addr, n) {
                Err(e) => res == Err::<u64, SyscallError>(SyscallError::Memory(e)) && final(mem).host@
                    == old(mem).host@,
                Ok(r) => res == Ok::<u64, SyscallError>(0) && final(mem).host@ == stored_result(
                    old(mem).host@,
                    h,
                    r,
                ),
            },
        },
{
    let slot = match result_slot_exec(mem, result_addr) {
        Ok(h) => h,
        Err(e) => return Err(e),
    };
    let r = match memcmp_non_contiguous(s1_addr, s2_addr, n, mem) {
        Ok(r) => r,
        Err(e) => return Err(SyscallError::Memory(e)),
    };
    write_i32_at(&mut mem.host, slot, r);
    Ok(0)
}

/// `String::from_utf8` on a copy of `bytes`: it accepts exactly the byte
/// strings that are valid UTF-8 (vstd's `valid_utf8`, the definition of the
/// Unicode standard that std follows) and gives the characters that they
/// encode.
#[verifier::external_body]
fn utf8_string(bytes: &[u8]) -> (res: Option<String>)
    ensures
        res is Some <==> vstd::utf8::valid_utf8(bytes@),
        res matches Some(s) ==> s@ == vstd::utf8::decode_utf8(bytes@),
{
    match String::from_utf8(bytes.to_vec()) {
        Ok(s) => Some(s),
        Err(_) => None,
    }
}

/// The text of `len` guest bytes from `addr`, read as UTF-8.
pub open spec fn string_result(
    regions: Seq<crate::runtime::memory::MemoryRegion>,
    host: Seq<u8>,
    addr: u64,
    len: u64,
) -> Result<Seq<char>, SyscallError> {
    match slice_result(regions, addr, len, 1) {
        Err(e) => Err(e),
        Ok(h) => {
            let bytes = host.subrange(h as int, h + len);
            if vstd::utf8::valid_utf8(bytes) {
                Ok(vstd::utf8::decode_utf8(bytes))
            } else {
                Err(SyscallError::InvalidString)
            }
        },
    }
}

/// Reads the `len` guest bytes from `addr` as UTF-8 text, as the log and
/// panic calls do with the message that a program passes them.
pub fn translate_string(mem: &GuestMemory, addr: u64, len: u64) -> (res: Result<String, SyscallError>)
    requires
        mem.wf(),
    ensures
        match string_result(mem.regions@, mem.host@, addr, len) {
            Ok(text) => res matches Ok(s) && s@ == text,
            Err(e) => res == Err::<String, SyscallError>(e),
        },
{
    let h = match translate_slice(mem, addr, len, 1) {
        Ok(h) => h,
        Err(e) => return Err(e),
    };
    proof {
        assert(mem.host@.len() == mem.host.len());
    }
    let bytes = vstd::slice::slice_subrange(mem.host.as_slice(), h as usize, (h + len) as usize);
    match utf8_string(bytes) {
        Some(s) => Ok(s),
        None => Err(SyscallError::InvalidString),
    }
}

} // verus!
