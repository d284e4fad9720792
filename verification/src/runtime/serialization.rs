use byteorder::{ByteOrder, LittleEndian};
use vstd::prelude::*;

use crate::bytes::{le_bytes, push_bytes, push_repeated, push_u32_le, push_u64_le};
use crate::entrypoint::{align_pad, spec_align_pad, MAX_PERMITTED_DATA_INCREASE, NON_DUP_MARKER};
use crate::runtime::context::{
    BorrowedUtxo, InstructionContext, flagged, InstructionUtxo, TransactionContext, UtxoState,
};
use crate::runtime::errors::InstructionError;

verus! {

/// The virtual address at which the serialized input of a program starts.
pub const MM_INPUT_START: u64 = 0x400000000;

/// Where the runtime put one UTXO of an instruction in the program's input.
#[derive(Debug, Clone, Copy, PartialEq, Eq, Structural)]
pub struct SerializedUtxoMetadata {
    pub original_data_len: usize,
    pub vm_data_addr: u64,
    pub vm_authority_addr: u64,
}

/// `a + b`, or `u64::MAX` where the sum does not fit.
pub open spec fn sat_add(a: int, b: int) -> u64 {
    if a + b > u64::MAX {
        u64::MAX
    } else {
        (a + b) as u64
    }
}

/// `n` zero bytes.
pub open spec fn zeros(n: int) -> Seq<u8> {
    Seq::new(n as nat, |k: int| 0u8)
}

/// The bytes that stand for one UTXO that is not a duplicate: the marker, three
/// bytes of padding, the output index, the transaction id, the data length
/// (once as it was and once as it is), the data, the room the data may grow
/// into with padding to 8 bytes, and the authority.
pub open spec fn account_entry(u: UtxoState) -> Seq<u8> {
    seq![NON_DUP_MARKER, 0u8, 0u8, 0u8] + le_bytes(u.vout as nat, 4) + u.txid@ + le_bytes(
        u.data.len(),
        8,
    ) + le_bytes(u.data.len(), 8) + u.data + zeros(
        MAX_PERMITTED_DATA_INCREASE + spec_align_pad(u.data.len() as int),
    ) + u.authority
}

/// The bytes that stand for a UTXO that repeats the one at position `p`.
pub open spec fn duplicate_entry(p: usize) -> Seq<u8> {
    seq![p as u8, 0u8, 0u8, 0u8, 0u8, 0u8, 0u8, 0u8]
}

/// Whether entry `i` of `ius` repeats an earlier one.
pub open spec fn is_dup(ius: Seq<InstructionUtxo>, i: int) -> bool {
    ius[i].index_in_callee != i
}

/// The bytes of entry `i`.
pub open spec fn entry(utxos: Seq<UtxoState>, ius: Seq<InstructionUtxo>, i: int) -> Seq<u8> {
    if is_dup(ius, i) {
        duplicate_entry(ius[i].index_in_callee)
    } else {
        account_entry(utxos[ius[i].index_in_transaction as int])
    }
}

/// The bytes of the first `k` entries.
pub open spec fn entries(utxos: Seq<UtxoState>, ius: Seq<InstructionUtxo>, k: nat) -> Seq<u8>
    decreases k,
{
    if k == 0 {
        Seq::empty()
    } else {
        entries(utxos, ius, (k - 1) as nat) + entry(utxos, ius, k - 1)
    }
}

/// The metadata of the first `k` entries.
pub open spec fn metadata(utxos: Seq<UtxoState>, ius: Seq<InstructionUtxo>, k: nat) -> Seq<
    SerializedUtxoMetadata,
>
    decreases k,
{
    if k == 0 {
        Seq::empty()
    } else {
        let prev = metadata(utxos, ius, (k - 1) as nat);
        let i = k - 1;
        if is_dup(ius, i) {
            prev.push(prev[ius[i].index_in_callee as int])
        } else {
            let u = utxos[ius[i].index_in_transaction as int];
            let data_at: int = 8int + entries(utxos, ius, (k - 1) as nat).len() + 56int;
            prev.push(
                SerializedUtxoMetadata {
                    original_data_len: u.data.len() as usize,
                    vm_data_addr: sat_add(MM_INPUT_START as int, data_at),
                    vm_authority_addr: sat_add(
                        MM_INPUT_START as int,
                        data_at + u.data.len() + MAX_PERMITTED_DATA_INCREASE + spec_align_pad(
                            u.data.len() as int,
                        ),
                    ),
                },
            )
        }
    }
}

/// The input that the runtime hands to a program for an instruction: the
/// number of UTXOs, the entries, the length of the instruction data, the
/// data, and the program's key.
pub open spec fn serialized(
    utxos: Seq<UtxoState>,
    ius: Seq<InstructionUtxo>,
    data: Seq<u8>,
    program_id: Seq<u8>,
) -> Seq<u8> {
    le_bytes(ius.len(), 8) + entries(utxos, ius, ius.len()) + le_bytes(data.len(), 8) + data
        + program_id
}

/// The instruction UTXOs can be laid out: each entry that repeats another
/// points to an earlier entry, and the entries that do not name distinct UTXOs
/// of the transaction.
pub open spec fn serializable(utxos: Seq<UtxoState>, ius: Seq<InstructionUtxo>) -> bool {
    &&& forall|i: int| 0 <= i < ius.len() && is_dup(ius, i) ==> #[trigger] ius[i].index_in_callee < i
    &&& forall|i: int|
        0 <= i < ius.len() && !is_dup(ius, i) ==> #[trigger] ius[i].index_in_transaction
            < utxos.len()
    &&& forall|i: int, j: int|
        0 <= i < j < ius.len() && !is_dup(ius, i) && !is_dup(ius, j) ==> #[trigger] ius[i].index_in_transaction
            != #[trigger] ius[j].index_in_transaction
}

/// Entry `i` can be laid out after the entries before it: a repeat points to
/// an earlier entry; any other entry names a UTXO of the transaction that no
/// earlier entry that is not a repeat names.
pub open spec fn entry_serializable(utxos: Seq<UtxoState>, ius: Seq<InstructionUtxo>, i: int) -> bool {
    if is_dup(ius, i) {
        ius[i].index_in_callee < i
    } else {
        &&& ius[i].index_in_transaction < utxos.len()
        &&& forall|k: int|
            0 <= k < i && !is_dup(ius, k) ==> #[trigger] ius[k].index_in_transaction
                != ius[i].index_in_transaction
    }
}

proof fn lemma_serializable_by_entries(utxos: Seq<UtxoState>, ius: Seq<InstructionUtxo>)
    ensures
        serializable(utxos, ius) <==> forall|i: int| 0 <= i < ius.len() ==> #[trigger] entry_serializable(utxos, ius, i),
{
    if serializable(utxos, ius) {
        assert forall|i: int| 0 <= i < ius.len() implies #[trigger] entry_serializable(utxos, ius, i) by {
            if !is_dup(ius, i) {
                assert forall|k: int| 0 <= k < i && !is_dup(ius, k) implies #[trigger] ius[k].index_in_transaction
                    != ius[i].index_in_transaction by {
                    assert(ius[k].index_in_transaction != ius[i].index_in_transaction);
                }
            }
        }
    }
    if forall|i: int| 0 <= i < ius.len() ==> #[trigger] entry_serializable(utxos, ius, i) {
        assert forall|i: int| 0 <= i < ius.len() && is_dup(ius, i) implies #[trigger] ius[i].index_in_callee < i by {
            assert(entry_serializable(utxos, ius, i));
        }
        assert forall|i: int| 0 <= i < ius.len() && !is_dup(ius, i) implies #[trigger] ius[i].index_in_transaction
            < utxos.len() by {
            assert(entry_serializable(utxos, ius, i));
        }
        assert forall|i: int, j: int| 0 <= i < j < ius.len() && !is_dup(ius, i) && !is_dup(ius, j) implies #[trigger] ius[i].index_in_transaction
            != #[trigger] ius[j].index_in_transaction by {
            assert(entry_serializable(utxos, ius, j));
        }
    }
}

/// Whether the instruction's UTXOs can be laid out as a program's input (see
/// `serializable`) and none of them is lent out; where not, laying them out
/// would abort.
pub fn is_serializable(transaction_context: &TransactionContext, instruction_context: &InstructionContext) -> (res:
    bool)
    ensures
        res == (serializable(transaction_context.utxos(), instruction_context.instruction_utxos@) && none_lent(
            transaction_context.borrowed(),
            instruction_context.instruction_utxos@,
        )),
{
    let ius = &instruction_context.instruction_utxos;
    let ghost utxos = transaction_context.utxos();
    let n_utxos = transaction_context.utxos_len();
    let n = ius.len();
    let ghost lent = transaction_context.borrowed();
    let mut ok = true;
    let mut free = true;
    let mut i: usize = 0;
    while i < n
        invariant
            n == ius@.len(),
            n_utxos == utxos.len(),
            i <= n,
            lent == transaction_context.borrowed(),
            ok == forall|k: int| 0 <= k < i ==> #[trigger] entry_serializable(utxos, ius@, k),
            free == forall|k: int|
                0 <= k < i && !is_dup(ius@, k) ==> !flagged(lent, #[trigger] ius@[k].index_in_transaction as int),
        decreases n - i,
    {
        let iu = ius[i];
        if iu.index_in_callee == i && transaction_context.is_borrowed(iu.index_in_transaction) {
            free = false;
        }
        assert(free == forall|k: int|
            0 <= k < i + 1 && !is_dup(ius@, k) ==> !flagged(lent, #[trigger] ius@[k].index_in_transaction as int));
        let row = if iu.index_in_callee != i {
            iu.index_in_callee < i
        } else if iu.index_in_transaction >= n_utxos {
            false
        } else {
            let mut fresh = true;
            let mut k: usize = 0;
            while k < i
                invariant
                    n == ius@.len(),
                    i < n,
                    k <= i,
                    iu == ius@[i as int],
                    fresh == forall|m: int|
                        0 <= m < k && !is_dup(ius@, m) ==> #[trigger] ius@[m].index_in_transaction
                            != iu.index_in_transaction,
                decreases i - k,
            {
                let other = ius[k];
                if other.index_in_callee == k && other.index_in_transaction == iu.index_in_transaction {
                    fresh = false;
                }
                k = k + 1;
            }
            fresh
        };
        assert(row == entry_serializable(utxos, ius@, i as int));
        ok = ok && row;
        i = i + 1;
    }
    proof {
        lemma_serializable_by_entries(utxos, ius@);
    }
    ok && free
}

/// Writes the input of a program into a growing buffer and tells the virtual
/// address of what it writes.
pub struct Serializer {
    buffer: Vec<u8>,
    vaddr: u64,
    region_start: usize,
}

impl Serializer {
    /// The bytes written so far.
    pub closed spec fn written(&self) -> Seq<u8> {
        self.buffer@
    }

    pub closed spec fn start(&self) -> u64 {
        self.vaddr
    }

    pub closed spec fn region_start_spec(&self) -> usize {
        self.region_start
    }

    pub fn new(size: usize, start_addr: u64) -> (res: Serializer)
        ensures
            res.written().len() == 0,
            res.start() == start_addr,
            res.region_start_spec() == 0,
    {
        Serializer { buffer: Vec::with_capacity(size), region_start: 0, vaddr: start_addr }
    }

    /// The virtual address of the next byte written.
    pub open spec fn next_vaddr(&self) -> u64 {
        let a = sat_add(self.start() as int, self.written().len() as int);
        if a >= self.region_start_spec() {
            (a - self.region_start_spec()) as u64
        } else {
            0
        }
    }

    fn current_vaddr(&self) -> (res: u64)
        ensures
            res == self.next_vaddr(),
    {
        self.vaddr.saturating_add(self.buffer.len() as u64).saturating_sub(self.region_start as u64)
    }

    pub fn fill_write(&mut self, num: usize, value: u8)
        ensures
            final(self).written() == old(self).written() + Seq::new(num as nat, |k: int| value),
            final(self).start() == old(self).start(),
            final(self).region_start_spec() == old(self).region_start_spec(),
    {
        push_repeated(&mut self.buffer, value, num);
    }

    pub fn write_u8(&mut self, value: u8) -> (res: u64)
        ensures
            res == old(self).next_vaddr(),
            final(self).written() == old(self).written().push(value),
            final(self).start() == old(self).start(),
            final(self).region_start_spec() == old(self).region_start_spec(),
    {
        let vaddr = self.current_vaddr();
        self.buffer.push(value);
        vaddr
    }

    pub fn write_u32(&mut self, value: u32) -> (res: u64)
        ensures
            res == old(self).next_vaddr(),
            final(self).written() == old(self).written() + le_bytes(value as nat, 4),
            final(self).start() == old(self).start(),
            final(self).region_start_spec() == old(self).region_start_spec(),
    {
        let vaddr = self.current_vaddr();
        push_u32_le(&mut self.buffer, value);
        vaddr
    }

    pub fn write_u64(&mut self, value: u64) -> (res: u64)
        ensures
            res == old(self).next_vaddr(),
            final(self).written() == old(self).written() + le_bytes(value as nat, 8),
            final(self).start() == old(self).start(),
            final(self).region_start_spec() == old(self).region_start_spec(),
    {
        let vaddr = self.current_vaddr();
        push_u64_le(&mut self.buffer, value);
        vaddr
    }

    pub fn write_all(&mut self, value: &[u8]) -> (res: u64)
        ensures
            res == old(self).next_vaddr(),
            final(self).written() == old(self).written() + value@,
            final(self).start() == old(self).start(),
            final(self).region_start_spec() == old(self).region_start_spec(),
    {
        let vaddr = self.current_vaddr();
        push_bytes(&mut self.buffer, value);
        vaddr
    }

    /// Writes the data of a UTXO and the room it may grow into; returns the
    /// virtual address of the data.
    pub fn write_utxo(&mut self, utxo: &BorrowedUtxo) -> (res: Result<u64, InstructionError>)
        ensures
            res == Ok::<u64, InstructionError>(sat_add(
                old(self).start() as int,
                old(self).written().len() as int,
            )),
            final(self).written() == old(self).written() + utxo@.utxo.data + zeros(
                MAX_PERMITTED_DATA_INCREASE + spec_align_pad(utxo@.utxo.data.len() as int),
            ),
            final(self).start() == old(self).start(),
            final(self).region_start_spec() == old(self).region_start_spec(),
    {
        let vm_data_addr = self.vaddr.saturating_add(self.buffer.len() as u64);
        self.write_all(utxo.get_data());
        let align_offset = align_pad(utxo.get_data().len());
        self.fill_write(MAX_PERMITTED_DATA_INCREASE + align_offset, 0);
        assert(Seq::new((MAX_PERMITTED_DATA_INCREASE + align_offset) as nat, |k: int| 0u8) =~= zeros(
            MAX_PERMITTED_DATA_INCREASE + spec_align_pad(utxo@.utxo.data.len() as int),
        ));
        assert(self.buffer@ =~= old(self).written() + utxo@.utxo.data + zeros(
            MAX_PERMITTED_DATA_INCREASE + spec_align_pad(utxo@.utxo.data.len() as int),
        ));
        Ok(vm_data_addr)
    }

    pub fn finish(self) -> (res: Vec<u8>)
        ensures
            res@ == self.written(),
    {
        self.buffer
    }
}

} // verus!

verus! {

/// Lays out the UTXOs, the data and the program key of an instruction as the
/// input of the program, and tells where each UTXO's data and authority went.
pub fn serialize_parameters(
    transaction_context: &TransactionContext,
    instruction_context: &InstructionContext,
) -> (res: Result<(Vec<u8>, Vec<SerializedUtxoMetadata>), InstructionError>)
    requires
        instruction_context.instruction_utxos@.len() <= NON_DUP_MARKER ==> serializable(
            transaction_context.utxos(),
            instruction_context.instruction_utxos@,
        ),
        instruction_context.instruction_utxos@.len() <= NON_DUP_MARKER ==> none_lent(
            transaction_context.borrowed(),
            instruction_context.instruction_utxos@,
        ),
    ensures
        instruction_context.instruction_utxos@.len() > NON_DUP_MARKER ==> res == Err::<
            (Vec<u8>, Vec<SerializedUtxoMetadata>),
            InstructionError,
        >(InstructionError::MaxAccountsExceeded),
        instruction_context.instruction_utxos@.len() <= NON_DUP_MARKER ==> (res matches Ok((b, m))
            && b@ == serialized(
            transaction_context.utxos(),
            instruction_context.instruction_utxos@,
            instruction_context.instruction_data@,
            instruction_context.program_id.0@,
        ) && m@ == metadata(
            transaction_context.utxos(),
            instruction_context.instruction_utxos@,
            instruction_context.instruction_utxos@.len(),
        )),
{
    let num_ix_accounts = instruction_context.get_number_of_instruction_utxos();
    if num_ix_accounts > NON_DUP_MARKER as usize {
        return Err(InstructionError::MaxAccountsExceeded);
    }
    let ghost utxos = transaction_context.utxos();
    let ghost ius = instruction_context.instruction_utxos@;
    let program_id = *instruction_context.get_last_program_key();
    let instruction_data = instruction_context.get_instruction_data();
    let mut utxos_metadata: Vec<SerializedUtxoMetadata> = Vec::with_capacity(num_ix_accounts);
    let mut s = Serializer::new(0, MM_INPUT_START);
    s.write_u64(num_ix_accounts as u64);
    assert(s.written() =~= le_bytes(num_ix_accounts as nat, 8) + entries(utxos, ius, 0));
    let mut i: usize = 0;
    while i < num_ix_accounts
        invariant
            i <= num_ix_accounts,
            num_ix_accounts == ius.len(),
            num_ix_accounts <= NON_DUP_MARKER,
            utxos == transaction_context.utxos(),
            ius == instruction_context.instruction_utxos@,
            serializable(utxos, ius),
            none_lent(transaction_context.borrowed(), ius),
            s.start() == MM_INPUT_START,
            s.region_start_spec() == 0,
            s.written() == le_bytes(num_ix_accounts as nat, 8) + entries(utxos, ius, i as nat),
            utxos_metadata@ == metadata(utxos, ius, i as nat),
        decreases num_ix_accounts - i,
    {
        let ghost before = s.written();
        let ghost k = i as int;
        proof {
            crate::bytes::lemma_le_bytes_len(num_ix_accounts as nat, 8);
        }
        assert(metadata(utxos, ius, i as nat).len() == i) by {
            lemma_metadata_len(utxos, ius, i as nat);
        }
        match instruction_context.is_instruction_utxo_duplicate(i) {
            Ok(Some(position)) => {
                assert(is_dup(ius, k));
                let m = utxos_metadata[position];
                utxos_metadata.push(m);
                s.write_u8(position as u8);
                s.fill_write(7, 0);
                assert(s.written() =~= before + duplicate_entry(position));
                assert(utxos_metadata@ =~= metadata(utxos, ius, (i + 1) as nat));
            },
            Ok(None) => {
                assert(!is_dup(ius, k));
                assert(!flagged(transaction_context.borrowed(), ius[k].index_in_transaction as int));
                let borrowed = match instruction_context.read_instruction_utxo(
                    transaction_context,
                    i,
                ) {
                    Ok(b) => b,
                    Err(e) => {
                        return Err(e);
                    },
                };
                let ghost u = utxos[ius[k].index_in_transaction as int];
                let data_len = borrowed.get_data().len();
                proof {
                    crate::bytes::lemma_le_bytes_len(u.vout as nat, 4);
                    crate::bytes::lemma_le_bytes_len(data_len as nat, 8);
                }
                s.write_u8(NON_DUP_MARKER);
                s.fill_write(3, 0);
                s.write_u32(borrowed.get_vout());
                s.write_all(borrowed.get_txid());
                s.write_u64(data_len as u64);
                s.write_u64(data_len as u64);
                let ghost header = s.written();
                assert(header.len() == before.len() + 56);
                let vm_data_addr = match s.write_utxo(&borrowed) {
                    Ok(a) => a,
                    Err(e) => {
                        return Err(e);
                    },
                };
                let vm_authority_addr = s.write_all(borrowed.get_authority().as_slice());
                utxos_metadata.push(
                    SerializedUtxoMetadata {
                        original_data_len: data_len,
                        vm_data_addr,
                        vm_authority_addr,
                    },
                );
                assert(seq![NON_DUP_MARKER].add(Seq::new(3, |k: int| 0u8)) =~= seq![
                    NON_DUP_MARKER,
                    0u8,
                    0u8,
                    0u8,
                ]);
                assert(s.written() =~= before + account_entry(u));
                assert(utxos_metadata@ =~= metadata(utxos, ius, (i + 1) as nat));
            },
            Err(e) => {
                return Err(e);
            },
        }
        assert(entries(utxos, ius, (i + 1) as nat) == entries(utxos, ius, i as nat) + entry(
            utxos,
            ius,
            k,
        ));
        assert(s.written() =~= le_bytes(num_ix_accounts as nat, 8) + entries(
            utxos,
            ius,
            (i + 1) as nat,
        ));
        i = i + 1;
    }
    s.write_u64(instruction_data.len() as u64);
    s.write_all(instruction_data);
    s.write_all(program_id.as_slice());
    let mem = s.finish();
    assert(mem@ =~= serialized(
        utxos,
        ius,
        instruction_context.instruction_data@,
        instruction_context.program_id.0@,
    ));
    Ok((mem, utxos_metadata))
}

pub proof fn lemma_metadata_len(utxos: Seq<UtxoState>, ius: Seq<InstructionUtxo>, k: nat)
    ensures
        metadata(utxos, ius, k).len() == k,
    decreases k,
{
    if k > 0 {
        lemma_metadata_len(utxos, ius, (k - 1) as nat);
    }
}

} // verus!

verus! {

use crate::entrypoint::{field, parse_entries, parse_entry, parse_account_entry, parse_input};
use crate::utxo_info::UtxoInfoState;
use crate::bytes::{le_value, pow256, lemma_le_bytes_len, lemma_le_value_of_bytes};

/// A UTXO as the runtime can hold it: its data fits in memory and its
/// authority is a key.
pub open spec fn state_valid(u: UtxoState) -> bool {
    u.data.len() <= usize::MAX && u.authority.len() == 32
}

/// What a program reads for the first `k` UTXOs of an instruction: each UTXO
/// that does not repeat an earlier one as the transaction holds it, with the
/// full room to grow in zeroed, and each repeat as the UTXO of the entry it
/// repeats (which entry that is, `callee_origins` tells).
pub open spec fn program_views(utxos: Seq<UtxoState>, ius: Seq<InstructionUtxo>, k: nat) -> Seq<
    UtxoInfoState,
>
    decreases k,
{
    if k == 0 {
        Seq::empty()
    } else {
        let prev = program_views(utxos, ius, (k - 1) as nat);
        let i = k - 1;
        if is_dup(ius, i) {
            prev.push(prev[ius[i].index_in_callee as int])
        } else {
            prev.push(program_view(utxos[ius[i].index_in_transaction as int]))
        }
    }
}

/// What a program reads of a UTXO that the runtime laid out.
pub open spec fn program_view(u: UtxoState) -> UtxoInfoState {
    UtxoInfoState {
        data: u.data,
        spare: zeros(MAX_PERMITTED_DATA_INCREASE as int),
        original_data_len: u.data.len(),
        authority: u.authority,
        txid: u.txid@,
        vout: u.vout,
    }
}

proof fn lemma_account_entry_fields(u: UtxoState)
    requires
        state_valid(u),
    ensures
        ({
            let e = account_entry(u);
            let len = u.data.len() as int;
            let room_end = 56 + len + MAX_PERMITTED_DATA_INCREASE;
            let a = room_end + spec_align_pad(len);
            &&& e.len() == a + 32
            &&& e[0] == NON_DUP_MARKER
            &&& e.subrange(4, 8) == le_bytes(u.vout as nat, 4)
            &&& e.subrange(8, 40) == u.txid@
            &&& e.subrange(40, 48) == le_bytes(u.data.len(), 8)
            &&& e.subrange(48, 56) == le_bytes(u.data.len(), 8)
            &&& e.subrange(56, 56 + len) == u.data
            &&& e.subrange(56 + len, room_end) == zeros(MAX_PERMITTED_DATA_INCREASE as int)
            &&& e.subrange(a, a + 32) == u.authority
        }),
{
    lemma_le_bytes_len(u.vout as nat, 4);
    lemma_le_bytes_len(u.data.len(), 8);
    let e = account_entry(u);
    let len = u.data.len() as int;
    let room_end = 56 + len + MAX_PERMITTED_DATA_INCREASE;
    let pad = spec_align_pad(len);
    let z = zeros(MAX_PERMITTED_DATA_INCREASE + pad);
    let head = seq![NON_DUP_MARKER, 0u8, 0u8, 0u8] + le_bytes(u.vout as nat, 4) + u.txid@
        + le_bytes(u.data.len(), 8) + le_bytes(u.data.len(), 8);
    assert(head.len() == 56);
    assert(e =~= head + u.data + z + u.authority);
    assert(e.subrange(4, 8) =~= le_bytes(u.vout as nat, 4));
    assert(e.subrange(8, 40) =~= u.txid@);
    assert(e.subrange(40, 48) =~= le_bytes(u.data.len(), 8));
    assert(e.subrange(48, 56) =~= le_bytes(u.data.len(), 8));
    assert(e.subrange(56, 56 + len) =~= u.data);
    assert(e.subrange(56 + len, room_end) =~= zeros(MAX_PERMITTED_DATA_INCREASE as int));
    assert(e.subrange(room_end + pad, room_end + pad + 32) =~= u.authority);
}

#[verifier::rlimit(40)]
proof fn lemma_entry_len_aligned(utxos: Seq<UtxoState>, ius: Seq<InstructionUtxo>, k: nat)
    requires
        forall|i: int| 0 <= i < utxos.len() ==> #[trigger] state_valid(utxos[i]),
        serializable(utxos, ius),
        k <= ius.len(),
    ensures
        entries(utxos, ius, k).len() % 8 == 0,
    decreases k,
{
    if k > 0 {
        lemma_entry_len_aligned(utxos, ius, (k - 1) as nat);
        let i = k - 1;
        if !is_dup(ius, i) {
            let u = utxos[ius[i].index_in_transaction as int];
            assert(state_valid(u));
            lemma_account_entry_fields(u);
            let len = u.data.len() as int;
            assert((len + spec_align_pad(len)) % 8 == 0) by (nonlinear_arith)
                requires
                    len >= 0,
            ;
            let prev = entries(utxos, ius, (k - 1) as nat).len() as int;
            let el = account_entry(u).len() as int;
            assert(el == 56 + len + MAX_PERMITTED_DATA_INCREASE + spec_align_pad(len) + 32);
            assert((prev + el) % 8 == 0) by (nonlinear_arith)
                requires
                    prev % 8 == 0,
                    (len + spec_align_pad(len)) % 8 == 0,
                    el == 56 + len + 10240 + spec_align_pad(len) + 32,
                    prev >= 0,
                    len >= 0,
            ;
        } else {
            assert(duplicate_entry(ius[i].index_in_callee).len() == 8);
        }
    }
}

proof fn lemma_entries_prefix(utxos: Seq<UtxoState>, ius: Seq<InstructionUtxo>, k: nat, m: nat)
    requires
        k <= m,
    ensures
        entries(utxos, ius, k).len() <= entries(utxos, ius, m).len(),
        entries(utxos, ius, m).subrange(0, entries(utxos, ius, k).len() as int) == entries(utxos, ius, k),
    decreases m - k,
{
    if k < m {
        lemma_entries_prefix(utxos, ius, k, (m - 1) as nat);
        let a = entries(utxos, ius, k);
        let b = entries(utxos, ius, (m - 1) as nat);
        assert(entries(utxos, ius, m).subrange(0, a.len() as int) =~= b.subrange(0, a.len() as int));
    } else {
        assert(entries(utxos, ius, m).subrange(0, entries(utxos, ius, m).len() as int) =~= entries(utxos, ius, m));
    }
}

proof fn lemma_pad_shift(x: int, len: int)
    requires
        x % 8 == 0,
        x >= 0,
        len >= 0,
    ensures
        spec_align_pad(x + len) == spec_align_pad(len),
{
    assert((x + len) % 8 == len % 8) by (nonlinear_arith)
        requires
            x % 8 == 0,
            x >= 0,
            len >= 0,
    ;
}

/// The values of a little-endian field of 8 bytes that holds a length.
proof fn lemma_len_field(v: nat)
    requires
        v <= usize::MAX,
    ensures
        le_value(le_bytes(v, 8)) == v,
{
    reveal_with_fuel(pow256, 9);
    assert(pow256(8) == 0x1_0000_0000_0000_0000);
    lemma_le_value_of_bytes(v, 8);
}

proof fn lemma_parse_account_at(s: Seq<u8>, o: int, u: UtxoState)
    requires
        o >= 0,
        o % 8 == 0,
        o + account_entry(u).len() <= s.len(),
        s.subrange(o, o + account_entry(u).len()) == account_entry(u),
        state_valid(u),
    ensures
        parse_account_entry(s, o) == Some((program_view(u), o + account_entry(u).len())),
{
    let e = account_entry(u);
    let len: int = u.data.len() as int;
    lemma_account_entry_fields(u);
    assert(s.subrange(o + 48, o + 56) =~= e.subrange(48, 56));
    lemma_len_field(u.data.len());
    assert(field(s, o + 48, 8) == len);
    let d: int = o + 56;
    let room_end: int = d + len + MAX_PERMITTED_DATA_INCREASE;
    lemma_pad_shift(o + 56 + MAX_PERMITTED_DATA_INCREASE, len);
    let a: int = room_end + spec_align_pad(room_end);
    assert(s.subrange(d, d + len) =~= e.subrange(56, 56 + len));
    assert(s.subrange(d + len, room_end) =~= e.subrange(56 + len, 56 + len + MAX_PERMITTED_DATA_INCREASE));
    assert(s.subrange(a, a + 32) =~= e.subrange(a - o, a - o + 32));
    assert(s.subrange(o + 8, o + 40) =~= e.subrange(8, 40));
    assert(s.subrange(o + 40, o + 48) =~= e.subrange(40, 48));
    assert(s.subrange(o + 4, o + 8) =~= e.subrange(4, 8));
    reveal_with_fuel(pow256, 5);
    lemma_le_value_of_bytes(u.vout as nat, 4);
}

proof fn lemma_entry_in_input(
    utxos: Seq<UtxoState>,
    ius: Seq<InstructionUtxo>,
    data: Seq<u8>,
    program_id: Seq<u8>,
    k: nat,
)
    requires
        k < ius.len(),
        forall|i: int| 0 <= i < utxos.len() ==> #[trigger] state_valid(utxos[i]),
        serializable(utxos, ius),
    ensures
        ({
            let s = serialized(utxos, ius, data, program_id);
            let o: int = 8 + entries(utxos, ius, k).len() as int;
            let e = entry(utxos, ius, k as int);
            &&& o % 8 == 0
            &&& o + e.len() <= s.len()
            &&& s.subrange(o, o + e.len()) == e
            &&& entries(utxos, ius, k + 1).len() == entries(utxos, ius, k).len() + e.len()
        }),
{
    let s = serialized(utxos, ius, data, program_id);
    let n = ius.len();
    let ek = entries(utxos, ius, k);
    let e = entry(utxos, ius, k as int);
    let o: int = 8 + ek.len() as int;
    lemma_le_bytes_len(n as nat, 8);
    lemma_entries_prefix(utxos, ius, k + 1, n as nat);
    assert(entries(utxos, ius, k + 1) == ek + e);
    lemma_entry_len_aligned(utxos, ius, k);
    let en = entries(utxos, ius, n as nat);
    assert(en.subrange(0, (ek + e).len() as int) == ek + e);
    assert forall|j: int| 0 <= j < e.len() implies s[o + j] == e[j] by {
        assert(s[o + j] == en[ek.len() + j]);
        assert(en[ek.len() + j] == (ek + e)[ek.len() + j]);
    }
    assert(s.subrange(o, o + e.len()) =~= e);
}

proof fn lemma_parse_step(
    utxos: Seq<UtxoState>,
    ius: Seq<InstructionUtxo>,
    data: Seq<u8>,
    program_id: Seq<u8>,
    k: nat,
)
    requires
        serializable(utxos, ius),
        ius.len() <= NON_DUP_MARKER,
        k < ius.len(),
        forall|i: int| 0 <= i < utxos.len() ==> #[trigger] state_valid(utxos[i]),
    ensures
        ({
            let s = serialized(utxos, ius, data, program_id);
            let o: int = 8 + entries(utxos, ius, k).len() as int;
            parse_entry(s, o, program_views(utxos, ius, k)) == Some(
                (program_views(utxos, ius, k + 1).last(), 8 + entries(utxos, ius, k + 1).len() as int),
            )
        }),
{
    let s = serialized(utxos, ius, data, program_id);
    let o: int = 8 + entries(utxos, ius, k).len() as int;
    let e = entry(utxos, ius, k as int);
    lemma_entry_in_input(utxos, ius, data, program_id, k);
    lemma_program_views_len(utxos, ius, k);
    assert(s[o] == e[0]);
    if is_dup(ius, k as int) {
        let p = ius[k as int].index_in_callee;
        assert(p < k);
    } else {
        let u = utxos[ius[k as int].index_in_transaction as int];
        lemma_account_entry_fields(u);
        lemma_parse_account_at(s, o, u);
    }
}

pub proof fn lemma_program_views_len(utxos: Seq<UtxoState>, ius: Seq<InstructionUtxo>, k: nat)
    ensures
        program_views(utxos, ius, k).len() == k,
    decreases k,
{
    if k > 0 {
        lemma_program_views_len(utxos, ius, (k - 1) as nat);
    }
}

proof fn lemma_parse_prefix(
    utxos: Seq<UtxoState>,
    ius: Seq<InstructionUtxo>,
    data: Seq<u8>,
    program_id: Seq<u8>,
    k: nat,
)
    requires
        serializable(utxos, ius),
        ius.len() <= NON_DUP_MARKER,
        k <= ius.len(),
        forall|i: int| 0 <= i < utxos.len() ==> #[trigger] state_valid(utxos[i]),
    ensures
        parse_entries(serialized(utxos, ius, data, program_id), 8, k) == Some(
            (program_views(utxos, ius, k), 8 + entries(utxos, ius, k).len() as int),
        ),
    decreases k,
{
    if k > 0 {
        lemma_parse_prefix(utxos, ius, data, program_id, (k - 1) as nat);
        lemma_parse_step(utxos, ius, data, program_id, (k - 1) as nat);
        lemma_program_views_len(utxos, ius, (k - 1) as nat);
        assert(program_views(utxos, ius, (k - 1) as nat).push(program_views(utxos, ius, k).last())
            =~= program_views(utxos, ius, k));
    }
}

/// What `serialize_parameters` lays out for an instruction, a program reads
/// back as it was: the program's key, the instruction data, one UTXO view per
/// instruction UTXO (each the transaction's UTXO, with the room to grow
/// zeroed), and for each entry the entry that holds its UTXO, a repeat naming
/// the entry it repeats. `TransactionContext::utxos_valid` makes the
/// premise on the UTXOs known.
pub proof fn lemma_program_reads_what_serialize_parameters_wrote(
    transaction_context: TransactionContext,
    instruction_context: InstructionContext,
    bytes: Seq<u8>,
)
    requires
        serializable(transaction_context.utxos(), instruction_context.instruction_utxos@),
        instruction_context.instruction_utxos@.len() <= NON_DUP_MARKER,
        forall|i: int|
            0 <= i < transaction_context.utxos().len() ==> #[trigger] state_valid(transaction_context.utxos()[i]),
        instruction_context.instruction_data@.len() <= usize::MAX,
        bytes == serialized(
            transaction_context.utxos(),
            instruction_context.instruction_utxos@,
            instruction_context.instruction_data@,
            instruction_context.program_id.0@,
        ),
    ensures
        parse_input(bytes) == Some(
            (
                instruction_context.program_id.0@,
                program_views(
                    transaction_context.utxos(),
                    instruction_context.instruction_utxos@,
                    instruction_context.instruction_utxos@.len(),
                ),
                instruction_context.instruction_data@,
            ),
        ),
        crate::entrypoint::entry_origins(bytes, instruction_context.instruction_utxos@.len()) == callee_origins(
            instruction_context.instruction_utxos@,
            instruction_context.instruction_utxos@.len(),
        ),
{
    assert(instruction_context.program_id.0@.len() == 32);
    lemma_program_reads_what_runtime_wrote(
        transaction_context.utxos(),
        instruction_context.instruction_utxos@,
        instruction_context.instruction_data@,
        instruction_context.program_id.0@,
    );
}

/// For each of the first `k` instruction UTXOs, the entry that holds the
/// UTXO it names: itself, or for a repeat the one that the entry it repeats
/// names.
pub open spec fn callee_origins(ius: Seq<InstructionUtxo>, k: nat) -> Seq<usize>
    decreases k,
{
    if k == 0 {
        Seq::empty()
    } else {
        let prev = callee_origins(ius, (k - 1) as nat);
        let i = k - 1;
        if is_dup(ius, i) {
            prev.push(prev[ius[i].index_in_callee as int])
        } else {
            prev.push(i as usize)
        }
    }
}

proof fn lemma_callee_origins_len(ius: Seq<InstructionUtxo>, k: nat)
    ensures
        callee_origins(ius, k).len() == k,
    decreases k,
{
    if k > 0 {
        lemma_callee_origins_len(ius, (k - 1) as nat);
    }
}

proof fn lemma_origins_match(
    utxos: Seq<UtxoState>,
    ius: Seq<InstructionUtxo>,
    data: Seq<u8>,
    program_id: Seq<u8>,
    k: nat,
)
    requires
        serializable(utxos, ius),
        ius.len() <= NON_DUP_MARKER,
        k <= ius.len(),
        forall|i: int| 0 <= i < utxos.len() ==> #[trigger] state_valid(utxos[i]),
    ensures
        crate::entrypoint::entry_origins(serialized(utxos, ius, data, program_id), k) == callee_origins(ius, k),
    decreases k,
{
    if k > 0 {
        let i = (k - 1) as nat;
        let s = serialized(utxos, ius, data, program_id);
        lemma_origins_match(utxos, ius, data, program_id, i);
        lemma_parse_prefix(utxos, ius, data, program_id, i);
        lemma_callee_origins_len(ius, i);
        lemma_entry_in_input(utxos, ius, data, program_id, i);
        let o: int = 8 + entries(utxos, ius, i).len() as int;
        let e = entry(utxos, ius, i as int);
        assert(s[o] == e[0]);
        if is_dup(ius, i as int) {
            let p = ius[i as int].index_in_callee;
            assert(p < i);
            assert(e[0] == p as u8);
        } else {
            let u = utxos[ius[i as int].index_in_transaction as int];
            lemma_account_entry_fields(u);
        }
    }
}

/// A program reads back exactly what the runtime laid out for it: the key of
/// the program, one UTXO per instruction UTXO, the instruction data, and for
/// each entry the entry that holds its UTXO: a repeat names the same entry
/// as the instruction UTXO it repeats.
pub proof fn lemma_program_reads_what_runtime_wrote(
    utxos: Seq<UtxoState>,
    ius: Seq<InstructionUtxo>,
    data: Seq<u8>,
    program_id: Seq<u8>,
)
    requires
        serializable(utxos, ius),
        ius.len() <= NON_DUP_MARKER,
        program_id.len() == 32,
        data.len() <= usize::MAX,
        forall|i: int| 0 <= i < utxos.len() ==> #[trigger] state_valid(utxos[i]),
    ensures
        parse_input(serialized(utxos, ius, data, program_id)) == Some(
            (program_id, program_views(utxos, ius, ius.len()), data),
        ),
        crate::entrypoint::entry_origins(serialized(utxos, ius, data, program_id), ius.len()) == callee_origins(
            ius,
            ius.len(),
        ),
{
    lemma_origins_match(utxos, ius, data, program_id, ius.len());
    let s = serialized(utxos, ius, data, program_id);
    let n = ius.len();
    let en = entries(utxos, ius, n as nat);
    lemma_le_bytes_len(n as nat, 8);
    lemma_le_bytes_len(data.len(), 8);
    lemma_len_field(n as nat);
    lemma_len_field(data.len());
    assert(s.subrange(0, 8) =~= le_bytes(n as nat, 8));
    lemma_parse_prefix(utxos, ius, data, program_id, n as nat);
    let o: int = 8 + en.len() as int;
    assert(s.subrange(o, o + 8) =~= le_bytes(data.len(), 8));
    assert(s.subrange(o + 8, o + 8 + data.len()) =~= data);
    assert(s.subrange(o + 8 + data.len(), o + 8 + data.len() + 32) =~= program_id);
}

} // verus!

verus! {

use crate::entrypoint::MAX_PERMITTED_DATA_LENGTH;
use crate::runtime::context::{
    BorrowState, owned_by_program, spec_can_data_be_resized, spec_set_data_result,
};

/// Reads the little-endian `u64` in the first 8 bytes of `buf`, with
/// `byteorder`'s `LittleEndian::read_u64`. Its source takes the first 8
/// bytes with `u64::from_le_bytes` and panics where there are fewer.
#[verifier::external_body]
fn read_u64_le(buf: &[u8]) -> (res: u64)
    requires
        buf@.len() >= 8,
    ensures
        res as nat == le_value(buf@.subrange(0, 8)),
{
    LittleEndian::read_u64(buf)
}

/// How reading back one UTXO ends.
pub enum EntryOutcome {
    /// The runtime would abort (an arithmetic overflow or a cut read).
    Panic,
    /// Reading stops with an error; the UTXO holds what it holds by then.
    Stop(UtxoState, InstructionError),
    /// The UTXO as read back, and where reading goes on.
    Continue(UtxoState, int),
}

/// How reading back all UTXOs ends.
pub enum ReadBackOutcome {
    Panic,
    Done(Seq<UtxoState>, Result<(), InstructionError>),
}

/// Reads back, from the program's memory `buffer`, the UTXO `b` whose entry
/// has its new data length at `p`; `pre_len` is its length before the program
/// ran. The data is taken where the program may change it, and the authority
/// where the program may hand the UTXO over; reading goes on after the
/// authority.
pub open spec fn read_back_account(b: BorrowState, buffer: Seq<u8>, p: int, pre_len: usize) -> EntryOutcome {
    if p > buffer.len() {
        EntryOutcome::Stop(b.utxo, InstructionError::InvalidArgument)
    } else if p + 8 > buffer.len() {
        EntryOutcome::Panic
    } else {
        let post_len = (field(buffer, p, 8) as u64) as usize;
        let q = p + 8;
        if (if post_len >= pre_len { post_len - pre_len } else { 0 }) > MAX_PERMITTED_DATA_INCREASE
            || post_len > MAX_PERMITTED_DATA_LENGTH {
            EntryOutcome::Stop(b.utxo, InstructionError::InvalidRealloc)
        } else if q + post_len > usize::MAX {
            EntryOutcome::Panic
        } else if q + post_len > buffer.len() {
            EntryOutcome::Stop(b.utxo, InstructionError::InvalidArgument)
        } else {
            let data = buffer.subrange(q, q + post_len);
            let written: Result<BorrowState, (UtxoState, InstructionError)> = match spec_can_data_be_resized(b, post_len) {
                Ok(_) => match spec_set_data_result(b, post_len) {
                    Ok(_) => Ok(BorrowState { utxo: UtxoState { data, ..b.utxo }, ..b }),
                    Err(e) => Err((b.utxo, e)),
                },
                Err(e) => if b.utxo.data != data {
                    Err((b.utxo, e))
                } else {
                    Ok(b)
                },
            };
            match written {
                Err((u, e)) => EntryOutcome::Stop(u, e),
                Ok(b2) => {
                    let a = q + pre_len + MAX_PERMITTED_DATA_INCREASE + spec_align_pad(pre_len as int);
                    if a + 32 > usize::MAX {
                        EntryOutcome::Panic
                    } else if a + 32 > buffer.len() {
                        EntryOutcome::Stop(b2.utxo, InstructionError::InvalidArgument)
                    } else {
                        let authority = buffer.subrange(a, a + 32);
                        if b2.utxo.authority == authority {
                            EntryOutcome::Continue(b2.utxo, a + 32)
                        } else if !owned_by_program(b2) {
                            EntryOutcome::Stop(b2.utxo, InstructionError::ModifiedProgramId)
                        } else {
                            EntryOutcome::Continue(
                                UtxoState { authority, ..b2.utxo },
                                a + 32,
                            )
                        }
                    }
                },
            }
        }
    }
}

} // verus!

verus! {

/// Reads back all UTXOs from entry `i` on, the entry starting at `start`.
pub open spec fn read_back_from(
    utxos: Seq<UtxoState>,
    borrowed: Seq<bool>,
    ius: Seq<InstructionUtxo>,
    program_key: Seq<u8>,
    buffer: Seq<u8>,
    md: Seq<SerializedUtxoMetadata>,
    i: nat,
    start: int,
) -> ReadBackOutcome
    decreases ius.len() - i,
{
    if i >= ius.len() || i >= md.len() {
        ReadBackOutcome::Done(utxos, Ok(()))
    } else if is_dup(ius, i as int) {
        if start + 8 > usize::MAX {
            ReadBackOutcome::Panic
        } else {
            read_back_from(utxos, borrowed, ius, program_key, buffer, md, i + 1, start + 8)
        }
    } else {
        let t = ius[i as int].index_in_transaction;
        if t >= utxos.len() {
            ReadBackOutcome::Done(utxos, Err(InstructionError::MissingAccount))
        } else if flagged(borrowed, t as int) {
            ReadBackOutcome::Done(utxos, Err(InstructionError::AccountBorrowFailed))
        } else if start + 48 > usize::MAX {
            ReadBackOutcome::Panic
        } else {
            let b = BorrowState {
                index_in_transaction: t,
                index_in_instruction: i as usize,
                utxo: utxos[t as int],
                program_key,
            };
            match read_back_account(b, buffer, start + 48, md[i as int].original_data_len) {
                EntryOutcome::Panic => ReadBackOutcome::Panic,
                EntryOutcome::Stop(u, e) => ReadBackOutcome::Done(utxos.update(t as int, u), Err(e)),
                EntryOutcome::Continue(u, a) => read_back_from(
                    utxos.update(t as int, u),
                    borrowed,
                    ius,
                    program_key,
                    buffer,
                    md,
                    i + 1,
                    a,
                ),
            }
        }
    }
}

fn read_back_one(borrowed: &mut BorrowedUtxo, buffer: &[u8], p: usize, pre_len: usize) -> (res:
    Result<usize, InstructionError>)
    requires
        !(read_back_account(old(borrowed)@, buffer@, p as int, pre_len) is Panic),
    ensures
        final(borrowed)@.index_in_transaction == old(borrowed)@.index_in_transaction,
        final(borrowed)@.index_in_instruction == old(borrowed)@.index_in_instruction,
        final(borrowed)@.program_key == old(borrowed)@.program_key,
        match read_back_account(old(borrowed)@, buffer@, p as int, pre_len) {
            EntryOutcome::Stop(u, e) => res == Err::<usize, InstructionError>(e) && final(borrowed)@.utxo == u,
            EntryOutcome::Continue(u, a) => res == Ok::<usize, InstructionError>(a as usize) && a
                == res->Ok_0 && final(borrowed)@.utxo == u,
            EntryOutcome::Panic => false,
        },
{
    let n = buffer.len();
    if p > n {
        return Err(InstructionError::InvalidArgument);
    }
    let rest = vstd::slice::slice_subrange(buffer, p, n);
    let post_len = read_u64_le(rest);
    assert(rest@.subrange(0, 8) =~= buffer@.subrange(p as int, p + 8));
    let post_len = post_len as usize;
    let start = p + 8;
    if post_len.saturating_sub(pre_len) > MAX_PERMITTED_DATA_INCREASE || post_len as u64
        > MAX_PERMITTED_DATA_LENGTH {
        return Err(InstructionError::InvalidRealloc);
    }
    let alignment_offset = align_pad(pre_len);
    if start + post_len > n {
        return Err(InstructionError::InvalidArgument);
    }
    let data = vstd::slice::slice_subrange(buffer, start, start + post_len);
    match borrowed.can_data_be_resized(post_len) {
        Ok(()) => {
            borrowed.set_data_from_slice(data)?;
        },
        Err(err) => {
            if !crate::bytes::bytes_eq(borrowed.get_data(), data) {
                return Err(err);
            }
        },
    }
    let start = start + pre_len + MAX_PERMITTED_DATA_INCREASE + alignment_offset;
    if start + 32 > n {
        return Err(InstructionError::InvalidArgument);
    }
    let authority = vstd::slice::slice_subrange(buffer, start, start + 32);
    if !crate::bytes::bytes_eq(borrowed.get_authority().as_slice(), authority) {
        // Change the owner at the end so that we are allowed to change the data before
        borrowed.set_authority(authority)?;
    }
    Ok(start + 32)
}

/// Reads back, after a program ran, the data and the authority of each UTXO
/// of the instruction from the program's memory, and keeps the changes that
/// the rules allow: only the authority over a UTXO may change its data or
/// its length, the length grows by at most `MAX_PERMITTED_DATA_INCREASE` and
/// stays within `MAX_PERMITTED_DATA_LENGTH`, and only the authority may hand
/// the UTXO over. The first refusal ends the reading; what was read back
/// before it stays.
pub fn deserialize_parameters(
    transaction_context: &mut TransactionContext,
    instruction_context: &InstructionContext,
    buffer: &[u8],
    utxo_metadata: &[SerializedUtxoMetadata],
) -> (res: Result<(), InstructionError>)
    requires
        !(read_back_from(
            old(transaction_context).utxos(),
            old(transaction_context).borrowed(),
            instruction_context.instruction_utxos@,
            instruction_context.program_id.0@,
            buffer@,
            utxo_metadata@,
            0,
            8,
        ) is Panic),
    ensures
        read_back_from(
            old(transaction_context).utxos(),
            old(transaction_context).borrowed(),
            instruction_context.instruction_utxos@,
            instruction_context.program_id.0@,
            buffer@,
            utxo_metadata@,
            0,
            8,
        ) == ReadBackOutcome::Done(final(transaction_context).utxos(), res),
        ({
            let utxos = old(transaction_context).utxos();
            let ius = instruction_context.instruction_utxos@;
            let key = instruction_context.program_id.0@;
            (serializable(utxos, ius) && (forall|k: int| 0 <= k < utxos.len() ==> #[trigger] state_valid(utxos[k]))
                && lengths_allowed(utxos, ius) && none_lent(old(transaction_context).borrowed(), ius)
                && buffer@ == serialized(
                utxos,
                ius,
                instruction_context.instruction_data@,
                key,
            ) && utxo_metadata@ == metadata(utxos, ius, ius.len())) ==> final(transaction_context).utxos() == utxos
                && res == if owned_from(utxos, ius, key, 0) {
                Ok::<(), InstructionError>(())
            } else {
                Err(InstructionError::ExternalAccountDataModified)
            }
        }),
        final(transaction_context).stack() == old(transaction_context).stack(),
        final(transaction_context).trace() == old(transaction_context).trace(),
        final(transaction_context).ids() == old(transaction_context).ids(),
        final(transaction_context).borrowed() == old(transaction_context).borrowed(),
        final(transaction_context).stack_capacity() == old(transaction_context).stack_capacity(),
        final(transaction_context).trace_capacity() == old(transaction_context).trace_capacity(),
{
    let ghost ius = instruction_context.instruction_utxos@;
    let ghost key = instruction_context.program_id.0@;
    let ghost lent = old(transaction_context).borrowed();
    let ghost whole = read_back_from(
        old(transaction_context).utxos(),
        lent,
        ius,
        key,
        buffer@,
        utxo_metadata@,
        0,
        8,
    );
    let buffer_len = buffer.len();
    proof {
        let utxos = old(transaction_context).utxos();
        assert(buffer@.len() == buffer_len);
        if serializable(utxos, ius) && (forall|k: int| 0 <= k < utxos.len() ==> #[trigger] state_valid(utxos[k]))
            && lengths_allowed(utxos, ius) && none_lent(lent, ius) && buffer@ == serialized(
            utxos,
            ius,
            instruction_context.instruction_data@,
            key,
        ) {
            lemma_untouched_input_reads_back_unchanged(utxos, lent, ius, instruction_context.instruction_data@, key);
        }
    }
    let n = instruction_context.get_number_of_instruction_utxos();
    let mut start: usize = 8;
    let mut i: usize = 0;
    let mut result: Result<(), InstructionError> = Ok(());
    let mut stopped = false;
    while !stopped && i < n && i < utxo_metadata.len()
        invariant
            n == ius.len(),
            ius == instruction_context.instruction_utxos@,
            key == instruction_context.program_id.0@,
            !stopped ==> read_back_from(transaction_context.utxos(), lent, ius, key, buffer@, utxo_metadata@, i as nat, start as int) == whole,
            stopped ==> whole == ReadBackOutcome::Done(transaction_context.utxos(), result),
            !stopped ==> result == Ok::<(), InstructionError>(()),
            !(whole is Panic),
            transaction_context.stack() == old(transaction_context).stack(),
            transaction_context.trace() == old(transaction_context).trace(),
            transaction_context.ids() == old(transaction_context).ids(),
            transaction_context.borrowed() == lent,
            transaction_context.stack_capacity() == old(transaction_context).stack_capacity(),
            transaction_context.trace_capacity() == old(transaction_context).trace_capacity(),
        decreases n - i, if stopped { 0nat } else { 1nat },
    {
        let pre_len = utxo_metadata[i].original_data_len;
        match instruction_context.is_instruction_utxo_duplicate(i) {
            Err(e) => {
                result = Err(e);
                stopped = true;
            },
            Ok(Some(_)) => {
                start = start + 8;
                i = i + 1;
            },
            Ok(None) => {
                let ghost before = transaction_context.utxos();
                let ghost t = ius[i as int].index_in_transaction;
                match instruction_context.read_instruction_utxo(transaction_context, i) {
                    Err(e) => {
                        result = Err(e);
                        stopped = true;
                    },
                    Ok(b) => {
                        let mut borrowed = b;
                        start = start + 48;
                        let r = read_back_one(&mut borrowed, buffer, start, pre_len);
                        transaction_context.return_utxo(borrowed);
                        match r {
                            Ok(a) => {
                                start = a;
                                i = i + 1;
                            },
                            Err(e) => {
                                result = Err(e);
                                stopped = true;
                            },
                        }
                    },
                }
            },
        }
    }
    proof {
        if !stopped {
            assert(read_back_from(transaction_context.utxos(), lent, ius, key, buffer@, utxo_metadata@, i as nat, start as int) == ReadBackOutcome::Done(transaction_context.utxos(), Ok::<(), InstructionError>(())));
            assert(result == Ok::<(), InstructionError>(()));
        }
        assert(whole == ReadBackOutcome::Done(transaction_context.utxos(), result));
    }
    result
}

} // verus!

verus! {

/// Every UTXO that an instruction names, and does not repeat, has the
/// program as its authority from entry `i` on.
pub open spec fn owned_from(utxos: Seq<UtxoState>, ius: Seq<InstructionUtxo>, program_id: Seq<u8>, i: int) -> bool {
    forall|j: int|
        i <= j < ius.len() && !is_dup(ius, j) ==> #[trigger] utxos[ius[j].index_in_transaction as int].authority
            == program_id
}

/// No UTXO that an instruction names, and does not repeat, is lent out.
pub open spec fn none_lent(borrowed: Seq<bool>, ius: Seq<InstructionUtxo>) -> bool {
    forall|j: int| 0 <= j < ius.len() && !is_dup(ius, j) ==> !flagged(borrowed, #[trigger] ius[j].index_in_transaction as int)
}

/// Every UTXO that an instruction names, and does not repeat, has data that
/// the read-back accepts as a length.
pub open spec fn lengths_allowed(utxos: Seq<UtxoState>, ius: Seq<InstructionUtxo>) -> bool {
    forall|j: int|
        0 <= j < ius.len() && !is_dup(ius, j) ==> #[trigger] utxos[ius[j].index_in_transaction as int].data.len()
            <= MAX_PERMITTED_DATA_LENGTH
}

/// An entry of an untouched input that does not repeat another reads back
/// as the UTXO it came from: reading continues after its authority when the
/// program is the authority, and stops otherwise.
#[verifier::rlimit(60)]
proof fn lemma_entry_reads_back(
    utxos: Seq<UtxoState>,
    ius: Seq<InstructionUtxo>,
    data: Seq<u8>,
    program_id: Seq<u8>,
    i: nat,
)
    requires
        serializable(utxos, ius),
        i < ius.len(),
        !is_dup(ius, i as int),
        forall|k: int| 0 <= k < utxos.len() ==> #[trigger] state_valid(utxos[k]),
        utxos[ius[i as int].index_in_transaction as int].data.len() <= MAX_PERMITTED_DATA_LENGTH,
        serialized(utxos, ius, data, program_id).len() <= usize::MAX,
    ensures
        ({
            let s = serialized(utxos, ius, data, program_id);
            let md = metadata(utxos, ius, ius.len());
            let t = ius[i as int].index_in_transaction;
            let u = utxos[t as int];
            let o = 8 + entries(utxos, ius, i).len() as int;
            let b = BorrowState { index_in_transaction: t, index_in_instruction: i as usize, utxo: u, program_key: program_id };
            &&& t < utxos.len()
            &&& md.len() == ius.len()
            &&& o + 48 <= s.len()
            &&& read_back_account(b, s, o + 48, md[i as int].original_data_len) == if u.authority == program_id {
                EntryOutcome::Continue(u, 8 + entries(utxos, ius, i + 1).len() as int)
            } else {
                EntryOutcome::Stop(u, InstructionError::ExternalAccountDataModified)
            }
        }),
{
    let s = serialized(utxos, ius, data, program_id);
    let n = ius.len();
    let md = metadata(utxos, ius, n);
    let t = ius[i as int].index_in_transaction;
    let u = utxos[t as int];
    assert(state_valid(u));
    lemma_entry_in_input(utxos, ius, data, program_id, i);
    let o: int = 8 + entries(utxos, ius, i).len() as int;
    let e = account_entry(u);
    assert(entry(utxos, ius, i as int) == e);
    lemma_account_entry_fields(u);
    let len = u.data.len() as int;
    assert(s.subrange(o + 48, o + 56) =~= e.subrange(48, 56));
    lemma_len_field(u.data.len());
    lemma_metadata_len(utxos, ius, n);
    lemma_metadata_len(utxos, ius, i);
    lemma_metadata_prefix(utxos, ius, i + 1, n);
    assert(md[i as int] == metadata(utxos, ius, i + 1)[i as int]);
    assert(md[i as int].original_data_len == len);
    let a = o + 56 + len + MAX_PERMITTED_DATA_INCREASE + spec_align_pad(len);
    assert(s.subrange(o + 56, o + 56 + len) =~= e.subrange(56, 56 + len));
    assert(s.subrange(a, a + 32) =~= e.subrange(a - o, a - o + 32));
    let b = BorrowState {
        index_in_transaction: t,
        index_in_instruction: i as usize,
        utxo: u,
        program_key: program_id,
    };
    assert(UtxoState { data: u.data, ..u } == u);
    if u.authority == program_id {
        assert(read_back_account(b, s, o + 48, len as usize) == EntryOutcome::Continue(u, a + 32));
    } else {
        assert(read_back_account(b, s, o + 48, len as usize) == EntryOutcome::Stop(
            u,
            InstructionError::ExternalAccountDataModified,
        ));
    }
}

#[verifier::spinoff_prover]
#[verifier::rlimit(60)]
proof fn lemma_read_back_from_entry(
    utxos: Seq<UtxoState>,
    borrowed: Seq<bool>,
    ius: Seq<InstructionUtxo>,
    data: Seq<u8>,
    program_id: Seq<u8>,
    i: nat,
)
    requires
        serializable(utxos, ius),
        i <= ius.len(),
        forall|k: int| 0 <= k < utxos.len() ==> #[trigger] state_valid(utxos[k]),
        lengths_allowed(utxos, ius),
        none_lent(borrowed, ius),
        serialized(utxos, ius, data, program_id).len() <= usize::MAX,
    ensures
        read_back_from(
            utxos,
            borrowed,
            ius,
            program_id,
            serialized(utxos, ius, data, program_id),
            metadata(utxos, ius, ius.len()),
            i,
            8 + entries(utxos, ius, i).len() as int,
        ) == ReadBackOutcome::Done(
            utxos,
            if owned_from(utxos, ius, program_id, i as int) {
                Ok::<(), InstructionError>(())
            } else {
                Err(InstructionError::ExternalAccountDataModified)
            },
        ),
    decreases ius.len() - i,
{
    let s = serialized(utxos, ius, data, program_id);
    let n = ius.len();
    let md = metadata(utxos, ius, n);
    lemma_metadata_len(utxos, ius, n);
    if i < n {
        lemma_entry_in_input(utxos, ius, data, program_id, i);
        lemma_read_back_from_entry(utxos, borrowed, ius, data, program_id, i + 1);
        if is_dup(ius, i as int) {
            assert(duplicate_entry(ius[i as int].index_in_callee).len() == 8);
            assert(owned_from(utxos, ius, program_id, i as int) == owned_from(utxos, ius, program_id, (i + 1) as int));
        } else {
            let t = ius[i as int].index_in_transaction;
            lemma_entry_reads_back(utxos, ius, data, program_id, i);
            assert(utxos.update(t as int, utxos[t as int]) =~= utxos);
            if utxos[t as int].authority == program_id {
                assert(owned_from(utxos, ius, program_id, i as int) == owned_from(utxos, ius, program_id, (i + 1) as int));
            } else {
                assert(!owned_from(utxos, ius, program_id, i as int));
            }
        }
    }
}

/// Reading back an input that the program left as the runtime laid it out
/// changes no UTXO. It succeeds exactly when the program is the authority
/// over every UTXO it was given, since the runtime rewrites the data of each
/// UTXO it reads back; else it stops at the first other one with
/// `ExternalAccountDataModified`.
pub proof fn lemma_untouched_input_reads_back_unchanged(
    utxos: Seq<UtxoState>,
    borrowed: Seq<bool>,
    ius: Seq<InstructionUtxo>,
    data: Seq<u8>,
    program_id: Seq<u8>,
)
    requires
        serializable(utxos, ius),
        forall|k: int| 0 <= k < utxos.len() ==> #[trigger] state_valid(utxos[k]),
        lengths_allowed(utxos, ius),
        none_lent(borrowed, ius),
        serialized(utxos, ius, data, program_id).len() <= usize::MAX,
    ensures
        read_back_from(
            utxos,
            borrowed,
            ius,
            program_id,
            serialized(utxos, ius, data, program_id),
            metadata(utxos, ius, ius.len()),
            0,
            8,
        ) == ReadBackOutcome::Done(
            utxos,
            if owned_from(utxos, ius, program_id, 0) {
                Ok::<(), InstructionError>(())
            } else {
                Err(InstructionError::ExternalAccountDataModified)
            },
        ),
{
    assert(entries(utxos, ius, 0).len() == 0);
    lemma_read_back_from_entry(utxos, borrowed, ius, data, program_id, 0);
}

proof fn lemma_metadata_prefix(utxos: Seq<UtxoState>, ius: Seq<InstructionUtxo>, k: nat, m: nat)
    requires
        k <= m,
    ensures
        metadata(utxos, ius, m).subrange(0, k as int) == metadata(utxos, ius, k),
    decreases m - k,
{
    lemma_metadata_len(utxos, ius, m);
    lemma_metadata_len(utxos, ius, k);
    if k < m {
        lemma_metadata_prefix(utxos, ius, k, (m - 1) as nat);
        lemma_metadata_len(utxos, ius, (m - 1) as nat);
        assert(metadata(utxos, ius, m).subrange(0, k as int) =~= metadata(utxos, ius, (m - 1) as nat).subrange(0, k as int));
    } else {
        assert(metadata(utxos, ius, m).subrange(0, k as int) =~= metadata(utxos, ius, m));
    }
}

} // verus!

verus! {

/// What a program leaves in a UTXO it owns reaches the runtime: once the
/// program stores the UTXO into its entry (`UtxoInfo::store`, after `realloc`
/// or `assign`), reading the entry back gives the stored data and authority,
/// and reading goes on after the authority slot.
pub proof fn lemma_stored_utxo_reads_back(b: BorrowState, input: Seq<u8>, o: int, u: UtxoInfoState)
    requires
        owned_by_program(b),
        0 <= o,
        u.authority.len() == 32,
        u.original_data_len <= usize::MAX,
        u.data.len() <= MAX_PERMITTED_DATA_LENGTH,
        u.data.len() <= u.original_data_len + MAX_PERMITTED_DATA_INCREASE,
        o + 56 + u.data.len() + u.spare.len() <= crate::utxo_info::authority_slot(o, u.original_data_len as int),
        crate::utxo_info::authority_slot(o, u.original_data_len as int) + 32 <= input.len() <= usize::MAX,
    ensures
        read_back_account(
            b,
            crate::utxo_info::stored_entry(input, o, u),
            o + 48,
            u.original_data_len as usize,
        ) == EntryOutcome::Continue(
            UtxoState { data: u.data, authority: u.authority, ..b.utxo },
            crate::utxo_info::authority_slot(o, u.original_data_len as int) + 32,
        ),
{
    let a = crate::utxo_info::authority_slot(o, u.original_data_len as int);
    let len = u.data.len();
    lemma_le_bytes_len(len, 8);
    let s1 = crate::runtime::cpi::splice(input, o + 48, le_bytes(len, 8));
    let s2 = crate::runtime::cpi::splice(s1, o + 56, u.data);
    let s3 = crate::runtime::cpi::splice(s2, o + 56 + len, u.spare);
    let s4 = crate::runtime::cpi::splice(s3, a, u.authority);
    assert(s4 == crate::utxo_info::stored_entry(input, o, u));
    assert(s1.len() == input.len());
    assert(s2.len() == input.len());
    assert(s3.len() == input.len());
    assert(s4.len() == input.len());
    assert(s4.subrange(o + 48, o + 56) =~= le_bytes(len, 8)) by {
        assert(s1.subrange(o + 48, o + 56) =~= le_bytes(len, 8));
        assert forall|x: int| o + 48 <= x < o + 56 implies s4[x] == s1[x] by {
            assert(s2[x] == s1[x]);
            assert(s3[x] == s2[x]);
        }
    }
    lemma_len_field(len);
    assert(field(s4, o + 48, 8) == len);
    assert(s4.subrange(o + 56, o + 56 + len) =~= u.data) by {
        assert forall|x: int| o + 56 <= x < o + 56 + len implies s4[x] == u.data[x - (o + 56)] by {
            assert(s3[x] == s2[x]);
            assert(s2[x] == u.data[x - (o + 56)]);
        }
    }
    assert(s4.subrange(a, a + 32) =~= u.authority);
    let b2 = BorrowState { utxo: UtxoState { data: u.data, ..b.utxo }, ..b };
    assert(owned_by_program(b2));
    if b2.utxo.authority == u.authority {
        assert(UtxoState { authority: u.authority, ..b2.utxo } == b2.utxo);
    }
}

/// The places that reading back the entries from `i` on (the entry at
/// `start`) looks at, in a buffer of `len` bytes of which the program chose
/// every byte: each length field lies inside the buffer, and no place passes
/// `usize::MAX`. Where an entry names no UTXO of the transaction, or its
/// length field would start past the end, reading stops there.
pub open spec fn read_back_layout_fits(
    ius: Seq<InstructionUtxo>,
    md: Seq<SerializedUtxoMetadata>,
    n_utxos: int,
    len: int,
    i: nat,
    start: int,
) -> bool
    decreases ius.len() - i,
{
    if i >= ius.len() || i >= md.len() {
        true
    } else if is_dup(ius, i as int) {
        start + 8 <= usize::MAX && read_back_layout_fits(ius, md, n_utxos, len, i + 1, start + 8)
    } else if ius[i as int].index_in_transaction >= n_utxos {
        true
    } else if start + 48 > usize::MAX {
        false
    } else if start + 48 > len {
        true
    } else {
        let p = start + 48;
        let pre = md[i as int].original_data_len;
        let q = p + 8;
        let a = q + pre + MAX_PERMITTED_DATA_INCREASE + spec_align_pad(pre as int);
        &&& p + 8 <= len
        &&& q + MAX_PERMITTED_DATA_LENGTH <= usize::MAX
        &&& a + 32 <= usize::MAX
        &&& read_back_layout_fits(ius, md, n_utxos, len, i + 1, a + 32)
    }
}

proof fn lemma_read_back_account_safe(b: BorrowState, buffer: Seq<u8>, p: int, pre_len: usize)
    requires
        0 <= p,
        p <= buffer.len() ==> p + 8 <= buffer.len(),
        p + 8 + MAX_PERMITTED_DATA_LENGTH <= usize::MAX,
        p + 8 + pre_len + MAX_PERMITTED_DATA_INCREASE + spec_align_pad(pre_len as int) + 32 <= usize::MAX,
    ensures
        !(read_back_account(b, buffer, p, pre_len) is Panic),
        read_back_account(b, buffer, p, pre_len) matches EntryOutcome::Continue(_, a) ==> a == p + 8 + pre_len
            + MAX_PERMITTED_DATA_INCREASE + spec_align_pad(pre_len as int) + 32,
{
}

/// Reading back never aborts where the layout fits, whatever the buffer
/// holds.
proof fn lemma_read_back_safe(
    utxos: Seq<UtxoState>,
    borrowed: Seq<bool>,
    ius: Seq<InstructionUtxo>,
    program_key: Seq<u8>,
    buffer: Seq<u8>,
    md: Seq<SerializedUtxoMetadata>,
    i: nat,
    start: int,
)
    requires
        0 <= start,
        read_back_layout_fits(ius, md, utxos.len() as int, buffer.len() as int, i, start),
    ensures
        !(read_back_from(utxos, borrowed, ius, program_key, buffer, md, i, start) is Panic),
    decreases ius.len() - i,
{
    if i < ius.len() && i < md.len() {
        if is_dup(ius, i as int) {
            lemma_read_back_safe(utxos, borrowed, ius, program_key, buffer, md, i + 1, start + 8);
        } else {
            let t = ius[i as int].index_in_transaction;
            if t < utxos.len() && start + 48 <= buffer.len() {
                let b = BorrowState {
                    index_in_transaction: t,
                    index_in_instruction: i as usize,
                    utxo: utxos[t as int],
                    program_key,
                };
                let pre = md[i as int].original_data_len;
                lemma_read_back_account_safe(b, buffer, start + 48, pre);
                if let EntryOutcome::Continue(u, a) = read_back_account(b, buffer, start + 48, pre) {
                    lemma_read_back_safe(utxos.update(t as int, u), borrowed, ius, program_key, buffer, md, i + 1, a);
                }
            }
        }
    }
}

/// The read-back walk over an input laid out for `utxos0` starts each entry
/// no later than where it was laid out, so each place it reads lies inside
/// the laid-out entries.
#[verifier::rlimit(40)]
proof fn lemma_laid_out_layout_fits(
    utxos0: Seq<UtxoState>,
    ius: Seq<InstructionUtxo>,
    len: int,
    i: nat,
    start: int,
)
    requires
        forall|k: int| 0 <= k < utxos0.len() ==> #[trigger] state_valid(utxos0[k]),
        serializable(utxos0, ius),
        i <= ius.len(),
        0 <= start <= 8 + entries(utxos0, ius, i).len(),
        8 + entries(utxos0, ius, ius.len()).len() <= len,
        len + MAX_PERMITTED_DATA_LENGTH <= usize::MAX,
    ensures
        read_back_layout_fits(ius, metadata(utxos0, ius, ius.len()), utxos0.len() as int, len, i, start),
    decreases ius.len() - i,
{
    let n = ius.len();
    let md = metadata(utxos0, ius, n);
    lemma_metadata_len(utxos0, ius, n);
    if i < n {
        lemma_entries_prefix(utxos0, ius, i + 1, n);
        let ti = 8 + entries(utxos0, ius, i).len();
        let tn = 8 + entries(utxos0, ius, i + 1).len();
        assert(entries(utxos0, ius, i + 1) == entries(utxos0, ius, i) + entry(utxos0, ius, i as int));
        if is_dup(ius, i as int) {
            assert(duplicate_entry(ius[i as int].index_in_callee).len() == 8);
            lemma_laid_out_layout_fits(utxos0, ius, len, i + 1, start + 8);
        } else {
            let u = utxos0[ius[i as int].index_in_transaction as int];
            assert(state_valid(u));
            lemma_account_entry_fields(u);
            lemma_metadata_prefix(utxos0, ius, i + 1, n);
            lemma_metadata_len(utxos0, ius, i);
            assert(md[i as int] == metadata(utxos0, ius, i + 1)[i as int]);
            assert(md[i as int].original_data_len == u.data.len());
            let pre = md[i as int].original_data_len;
            let a = start + 48 + 8 + pre + MAX_PERMITTED_DATA_INCREASE + spec_align_pad(pre as int);
            assert(a + 32 <= tn);
            lemma_laid_out_layout_fits(utxos0, ius, len, i + 1, a + 32);
        }
    }
}

/// Whatever a program writes into the input that the runtime laid out for
/// it, reading that input back does not abort: each length field that it
/// reads lies inside the input. (Reading may still stop with an error on
/// what the program wrote.)
pub proof fn lemma_laid_out_input_reads_back_safely(
    utxos0: Seq<UtxoState>,
    ius: Seq<InstructionUtxo>,
    data: Seq<u8>,
    program_id: Seq<u8>,
    utxos: Seq<UtxoState>,
    borrowed: Seq<bool>,
    buffer: Seq<u8>,
)
    requires
        forall|k: int| 0 <= k < utxos0.len() ==> #[trigger] state_valid(utxos0[k]),
        serializable(utxos0, ius),
        utxos.len() == utxos0.len(),
        buffer.len() == serialized(utxos0, ius, data, program_id).len(),
        buffer.len() + MAX_PERMITTED_DATA_LENGTH <= usize::MAX,
    ensures
        !(read_back_from(utxos, borrowed, ius, program_id, buffer, metadata(utxos0, ius, ius.len()), 0, 8) is Panic),
{
    lemma_le_bytes_len(ius.len(), 8);
    lemma_le_bytes_len(data.len(), 8);
    lemma_laid_out_layout_fits(utxos0, ius, buffer.len() as int, 0, 8);
    lemma_read_back_safe(utxos, borrowed, ius, program_id, buffer, metadata(utxos0, ius, ius.len()), 0, 8);
}

/// Whether reading back `buffer` for the current instruction stays clear of
/// the places where it would abort, whatever the program wrote there: each
/// length field lies inside the buffer and no place passes `usize::MAX`.
pub fn read_back_fits(
    transaction_context: &TransactionContext,
    instruction_context: &InstructionContext,
    buffer: &[u8],
    utxo_metadata: &[SerializedUtxoMetadata],
) -> (res: bool)
    ensures
        res == read_back_layout_fits(
            instruction_context.instruction_utxos@,
            utxo_metadata@,
            transaction_context.utxos().len() as int,
            buffer@.len() as int,
            0,
            8,
        ),
        res ==> !(read_back_from(
            transaction_context.utxos(),
            transaction_context.borrowed(),
            instruction_context.instruction_utxos@,
            instruction_context.program_id.0@,
            buffer@,
            utxo_metadata@,
            0,
            8,
        ) is Panic),
{
    let ius = &instruction_context.instruction_utxos;
    let ghost utxos = transaction_context.utxos();
    let n_utxos = transaction_context.utxos_len();
    let n = ius.len();
    let m = utxo_metadata.len();
    let len = buffer.len();
    let ghost fits = read_back_layout_fits(ius@, utxo_metadata@, n_utxos as int, len as int, 0, 8);
    let mut i: usize = 0;
    let mut start: usize = 8;
    let mut result = true;
    loop
        invariant_except_break
            n == ius@.len(),
            m == utxo_metadata@.len(),
            len == buffer@.len(),
            n_utxos == utxos.len(),
            i <= n,
            fits == read_back_layout_fits(ius@, utxo_metadata@, n_utxos as int, len as int, 0, 8),
            read_back_layout_fits(ius@, utxo_metadata@, n_utxos as int, len as int, i as nat, start as int)
                == fits,
            result,
        ensures
            result == fits,
        decreases n - i,
    {
        if i >= n || i >= m {
            break;
        }
        let iu = ius[i];
        if iu.index_in_callee != i {
            match start.checked_add(8) {
                Some(s) => {
                    start = s;
                    i = i + 1;
                },
                None => {
                    result = false;
                    break;
                },
            }
        } else if iu.index_in_transaction >= n_utxos {
            break;
        } else {
            let p = match start.checked_add(48) {
                Some(p) => p,
                None => {
                    result = false;
                    break;
                },
            };
            if p > len {
                break;
            }
            if len - p < 8 {
                result = false;
                break;
            }
            let q = p + 8;
            let pre = utxo_metadata[i].original_data_len;
            if q.checked_add(MAX_PERMITTED_DATA_LENGTH as usize).is_none() {
                result = false;
                break;
            }
            let a = match q.checked_add(pre) {
                Some(x) => match x.checked_add(MAX_PERMITTED_DATA_INCREASE) {
                    Some(y) => match y.checked_add(align_pad(pre)) {
                        Some(z) => z,
                        None => {
                            result = false;
                            break;
                        },
                    },
                    None => {
                        result = false;
                        break;
                    },
                },
                None => {
                    result = false;
                    break;
                },
            };
            match a.checked_add(32) {
                Some(next) => {
                    start = next;
                },
                None => {
                    result = false;
                    break;
                },
            }
            i = i + 1;
        }
    }
    proof {
        if result {
            lemma_read_back_safe(utxos, transaction_context.borrowed(), ius@, instruction_context.program_id.0@, buffer@, utxo_metadata@, 0, 8);
        }
    }
    result
}

} // verus!
