//! What a program makes of what the runtime hands back: the result of a
//! call into another program, and the return data.
use vstd::prelude::*;
use crate::entrypoint::SUCCESS;
use crate::types::Pubkey;

verus! {

/// What a call into another program gives the calling program, from the
/// code that the runtime returns: `Ok` for `SUCCESS`, else the code as the
/// error.
pub fn invoke_result(code: u64) -> (res: Result<(), u64>)
    ensures
        code == SUCCESS ==> res == Ok::<(), u64>(()),
        code != SUCCESS ==> res == Err::<(), u64>(code),
{
    if code == SUCCESS {
        Ok(())
    } else {
        Err(code)
    }
}

/// The most bytes of return data that the runtime keeps.
pub const MAX_RETURN_DATA: usize = 1024;

/// The return data that a program gets after the runtime wrote up to
/// `MAX_RETURN_DATA` bytes of it into `buf` and reported its full length
/// `size` and the program that set it: nothing when there is none, else the
/// bytes, cut to what the buffer holds.
pub fn return_data_from(size: u64, buf: &[u8], program_id: Pubkey) -> (res: Option<(Pubkey, Vec<u8>)>)
    requires
        buf@.len() == MAX_RETURN_DATA,
    ensures
        size == 0 ==> res is None,
        size != 0 ==> (res matches Some((p, d)) && p == program_id && d@ == buf@.subrange(
            0,
            if size < MAX_RETURN_DATA { size as int } else { MAX_RETURN_DATA as int },
        )),
{
    if size == 0 {
        None
    } else {
        let n: usize = if size < MAX_RETURN_DATA as u64 { size as usize } else { MAX_RETURN_DATA };
        Some((program_id, vstd::slice::slice_to_vec(vstd::slice::slice_subrange(buf, 0, n))))
    }
}

} // verus!
