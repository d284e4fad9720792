use vstd::prelude::*;

use crate::bytes::{le_bytes, push_u64_le};
use crate::entrypoint::{spec_align_pad, MAX_PERMITTED_DATA_INCREASE};
use crate::runtime::cpi::{host_write, splice};
use crate::types::{spec_utxo_id, Pubkey, UtxoId, UtxoIdentity};

verus! {

/// Why a program's request on a UTXO failed.
#[derive(Debug, Clone, Copy, PartialEq, Eq, Structural)]
pub enum ProgramError {
    AccountBorrowFailed,
    InvalidRealloc,
}

/// A UTXO as a program sees it, as plain values.
pub struct UtxoInfoState {
    /// The data.
    pub data: Seq<u8>,
    /// The bytes after the data in the room reserved for it to grow.
    pub spare: Seq<u8>,
    /// The data length when the program was entered.
    pub original_data_len: nat,
    pub authority: Seq<u8>,
    pub txid: Seq<u8>,
    pub vout: u32,
}

/// A UTXO handed to a program: its data, the room the data may grow into,
/// its authority, and the transaction output it is.
#[derive(Debug)]
pub struct UtxoInfo {
    data: Vec<u8>,
    spare: Vec<u8>,
    original_data_len: u64,
    authority: Pubkey,
    txid: [u8; 32],
    vout: u32,
}

impl View for UtxoInfo {
    type V = UtxoInfoState;

    closed spec fn view(&self) -> UtxoInfoState {
        UtxoInfoState {
            data: self.data@,
            spare: self.spare@,
            original_data_len: self.original_data_len as nat,
            authority: self.authority.0@,
            txid: self.txid@,
            vout: self.vout,
        }
    }
}

impl UtxoIdentity for UtxoInfo {
    fn utxo_id(&self) -> (res: UtxoId)
        ensures
            res.bytes() == spec_utxo_id(self@.txid, self@.vout),
    {
        <Self as UtxoIdentity>::processor(&self.txid, self.vout)
    }
}

/// The room a UTXO's data may grow into when it is made outside the runtime.
pub open spec fn fresh_room() -> Seq<u8> {
    Seq::new(MAX_PERMITTED_DATA_INCREASE as nat, |k: int| 0u8)
}

impl UtxoInfo {
    /// A UTXO with the given data, authority and output; the data may grow by
    /// up to `MAX_PERMITTED_DATA_INCREASE` zero bytes.
    pub fn new(data: Vec<u8>, authority: Pubkey, txid: [u8; 32], vout: u32) -> (res: Self)
        ensures
            res@ == (UtxoInfoState {
                data: data@,
                spare: fresh_room(),
                original_data_len: data@.len(),
                authority: authority.0@,
                txid: txid@,
                vout,
            }),
    {
        let original_data_len = data.len() as u64;
        let mut spare: Vec<u8> = Vec::new();
        crate::bytes::push_repeated(&mut spare, 0, MAX_PERMITTED_DATA_INCREASE);
        assert(spare@ =~= fresh_room());
        Self { data, spare, original_data_len, authority, txid, vout }
    }

    /// A UTXO as the runtime laid it out in a program's input.
    pub fn from_parts(
        data: Vec<u8>,
        spare: Vec<u8>,
        original_data_len: u64,
        authority: Pubkey,
        txid: [u8; 32],
        vout: u32,
    ) -> (res: Self)
        ensures
            res@ == (UtxoInfoState {
                data: data@,
                spare: spare@,
                original_data_len: original_data_len as nat,
                authority: authority.0@,
                txid: txid@,
                vout,
            }),
    {
        Self { data, spare, original_data_len, authority, txid, vout }
    }

    /// A copy of this UTXO.
    pub fn duplicate(&self) -> (res: Self)
        ensures
            res@ == self@,
    {
        Self {
            data: vstd::slice::slice_to_vec(self.data.as_slice()),
            spare: vstd::slice::slice_to_vec(self.spare.as_slice()),
            original_data_len: self.original_data_len,
            authority: self.authority,
            txid: self.txid,
            vout: self.vout,
        }
    }

    pub fn authority(&self) -> (res: &Pubkey)
        ensures
            res.0@ == self@.authority,
    {
        &self.authority
    }

    pub fn txid(&self) -> (res: &[u8; 32])
        ensures
            res@ == self@.txid,
    {
        &self.txid
    }

    pub fn vout(&self) -> (res: u32)
        ensures
            res == self@.vout,
    {
        self.vout
    }

    pub fn data_len(&self) -> (res: usize)
        ensures
            res == self@.data.len(),
    {
        self.data.len()
    }

    /// The data. A `UtxoInfo` owns its data, so the borrow always succeeds.
    pub fn try_borrow_data(&self) -> (res: Result<&[u8], ProgramError>)
        ensures
            res matches Ok(d) && d@ == self@.data,
    {
        Ok(self.data.as_slice())
    }

    pub fn data_is_empty(&self) -> (res: bool)
        ensures
            res == (self@.data.len() == 0),
    {
        self.data.len() == 0
    }

    /// The data, to change in place. A `UtxoInfo` owns its data, so the
    /// borrow always succeeds.
    pub fn try_borrow_mut_data(&mut self) -> (res: Result<&mut [u8], ProgramError>)
        ensures
            res matches Ok(d) && d@ == old(self)@.data && final(self)@ == (UtxoInfoState {
                data: final(d)@,
                ..old(self)@
            }),
    {
        Ok(self.data.as_mut_slice())
    }

    /// The data length when the program was entered.
    pub fn original_data_len(&self) -> (res: usize)
        ensures
            res == self@.original_data_len as usize,
    {
        self.original_data_len as usize
    }

    /// Writes the UTXO back into the input it was read from, its entry at
    /// `entry`, where the runtime reads it back: the current data length,
    /// the data and the room after it, and the authority in its slot. This is
    /// how `realloc` and `assign` reach the runtime.
    pub fn store(&self, input: &mut Vec<u8>, entry: usize)
        requires
            self@.authority.len() == 32,
            entry + 56 + self@.data.len() + self@.spare.len() <= authority_slot(
                entry as int,
                self@.original_data_len as int,
            ),
            authority_slot(entry as int, self@.original_data_len as int) + 32 <= old(input)@.len(),
        ensures
            final(input)@ == stored_entry(old(input)@, entry as int, self@),
    {
        let n = input.len();
        assert(authority_slot(entry as int, self@.original_data_len as int) + 32 <= n);
        let mut len_field: Vec<u8> = Vec::new();
        push_u64_le(&mut len_field, self.data.len() as u64);
        assert(len_field@ =~= le_bytes(self@.data.len(), 8));
        proof {
            crate::bytes::lemma_le_bytes_len(self@.data.len(), 8);
        }
        host_write(input, entry + 48, len_field.as_slice());
        host_write(input, entry + 56, self.data.as_slice());
        host_write(input, entry + 56 + self.data.len(), self.spare.as_slice());
        let a = entry + 56 + self.original_data_len as usize + MAX_PERMITTED_DATA_INCREASE
            + crate::entrypoint::align_pad(self.original_data_len as usize);
        host_write(input, a, self.authority.0.as_slice());
    }

    /// How long the data can become in the room it has: its length and the
    /// room after it (at most `usize::MAX`).
    pub fn room(&self) -> (res: usize)
        ensures
            self@.data.len() + self@.spare.len() <= usize::MAX ==> res == self@.data.len()
                + self@.spare.len(),
            self@.data.len() + self@.spare.len() > usize::MAX ==> res == usize::MAX,
    {
        match self.data.len().checked_add(self.spare.len()) {
            Some(n) => n,
            None => usize::MAX,
        }
    }

    /// Changes the length of the data. It may grow by at most
    /// `MAX_PERMITTED_DATA_INCREASE` bytes past its original length, into the
    /// room after it; with `zero_init` the bytes it grows into are zeroed,
    /// else they keep what the room held.
    pub fn realloc(&mut self, new_len: usize, zero_init: bool) -> (res: Result<(), ProgramError>)
        requires
            realloc_fits(old(self)@, new_len),
        ensures
            res == spec_realloc_result(old(self)@, new_len),
            res is Err ==> final(self)@ == old(self)@,
            res is Ok ==> final(self)@ == spec_realloc(old(self)@, new_len, zero_init),
    {
        let old_len = self.data.len();
        if new_len == old_len {
            assert((self.data@ + self.spare@).subrange(0, new_len as int) =~= self.data@);
            assert((self.data@ + self.spare@).subrange(new_len as int, (self.data@ + self.spare@).len() as int) =~= self.spare@);
            return Ok(());
        }
        if new_len.saturating_sub(self.original_data_len()) > MAX_PERMITTED_DATA_INCREASE {
            return Err(ProgramError::InvalidRealloc);
        }
        let ghost whole = self.data@ + self.spare@;
        if new_len < old_len {
            // the tail of the data goes back to the room
            let mut tail: Vec<u8> = Vec::new();
            let mut i = new_len;
            while i < old_len
                invariant
                    new_len <= i <= old_len,
                    old_len == self.data@.len(),
                    tail@ == self.data@.subrange(new_len as int, i as int),
                decreases old_len - i,
            {
                tail.push(self.data[i]);
                i = i + 1;
                assert(tail@ =~= self.data@.subrange(new_len as int, i as int));
            }
            let mut room = tail;
            crate::bytes::push_bytes(&mut room, self.spare.as_slice());
            self.spare = room;
            self.data.truncate(new_len);
            assert(self.data@ =~= whole.subrange(0, new_len as int));
            assert(self.spare@ =~= whole.subrange(new_len as int, whole.len() as int));
        } else {
            // the data takes its new bytes from the front of the room
            let grow = new_len - old_len;
            let mut i: usize = 0;
            while i < grow
                invariant
                    i <= grow,
                    grow <= old(self).spare@.len(),
                    self.data@ == old(self).data@ + grown_bytes(old(self).spare@, i as int, zero_init),
                    self.spare@ == old(self).spare@,
                    self.original_data_len == old(self).original_data_len,
                    self.authority == old(self).authority,
                    self.txid == old(self).txid,
                    self.vout == old(self).vout,
                decreases grow - i,
            {
                let b = if zero_init { 0u8 } else { self.spare[i] };
                self.data.push(b);
                i = i + 1;
                assert(self.data@ =~= old(self).data@ + grown_bytes(old(self).spare@, i as int, zero_init));
            }
            let mut rest: Vec<u8> = Vec::new();
            let mut j = grow;
            while j < self.spare.len()
                invariant
                    grow <= j <= self.spare@.len(),
                    rest@ == self.spare@.subrange(grow as int, j as int),
                decreases self.spare@.len() - j,
            {
                rest.push(self.spare[j]);
                j = j + 1;
                assert(rest@ =~= self.spare@.subrange(grow as int, j as int));
            }
            self.spare = rest;
            assert(self.spare@ =~= old(self).spare@.subrange(grow as int, old(self).spare@.len() as int));
        }
        Ok(())
    }

    /// Hands the UTXO to a new authority.
    pub fn assign(&mut self, new_authority: &Pubkey)
        ensures
            final(self)@ == (UtxoInfoState { authority: new_authority.0@, ..old(self)@ }),
    {
        self.authority = *new_authority;
    }
}

/// Where the authority of the UTXO whose entry starts at `o` lies in the
/// input: after the data as it was laid out, the room and the padding.
pub open spec fn authority_slot(o: int, original_data_len: int) -> int {
    o + 56 + original_data_len + MAX_PERMITTED_DATA_INCREASE + spec_align_pad(original_data_len)
}

/// The input with the UTXO `u` written back into its entry at `o`.
pub open spec fn stored_entry(input: Seq<u8>, o: int, u: UtxoInfoState) -> Seq<u8> {
    let with_len = splice(input, o + 48, le_bytes(u.data.len(), 8));
    let with_data = splice(with_len, o + 56, u.data);
    let with_room = splice(with_data, o + 56 + u.data.len(), u.spare);
    splice(with_room, authority_slot(o, u.original_data_len as int), u.authority)
}

/// The first `n` bytes of the room, or `n` zero bytes.
pub open spec fn grown_bytes(spare: Seq<u8>, n: int, zero_init: bool) -> Seq<u8> {
    if zero_init {
        Seq::new(n as nat, |k: int| 0u8)
    } else {
        spare.subrange(0, n)
    }
}

/// What `realloc` answers.
pub open spec fn spec_realloc_result(u: UtxoInfoState, new_len: usize) -> Result<(), ProgramError> {
    if new_len == u.data.len() {
        Ok(())
    } else if new_len - (u.original_data_len as usize) > MAX_PERMITTED_DATA_INCREASE {
        Err(ProgramError::InvalidRealloc)
    } else {
        Ok(())
    }
}

/// The new length is refused, or the data and the room after it hold it.
pub open spec fn realloc_fits(u: UtxoInfoState, new_len: usize) -> bool {
    spec_realloc_result(u, new_len) is Err || new_len <= u.data.len() + u.spare.len()
}

/// The UTXO after its data takes the length `new_len`: the data and the room
/// keep their bytes in order, and with `zero_init` the bytes the data grows
/// into are zero.
pub open spec fn spec_realloc(u: UtxoInfoState, new_len: usize, zero_init: bool) -> UtxoInfoState {
    let whole = u.data + u.spare;
    if new_len <= u.data.len() {
        UtxoInfoState {
            data: whole.subrange(0, new_len as int),
            spare: whole.subrange(new_len as int, whole.len() as int),
            ..u
        }
    } else {
        UtxoInfoState {
            data: u.data + grown_bytes(u.spare, new_len - u.data.len(), zero_init),
            spare: u.spare.subrange(new_len - u.data.len(), u.spare.len() as int),
            ..u
        }
    }
}

} // verus!
