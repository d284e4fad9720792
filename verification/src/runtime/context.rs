use vstd::prelude::*;

use crate::entrypoint::MAX_PERMITTED_DATA_LENGTH;
use crate::runtime::errors::InstructionError;
use crate::types::{spec_utxo_id, Pubkey, UtxoId, UtxoIdentity};

verus! {

pub type IndexOfUtxo = usize;

/// Where an instruction's UTXO stands in the transaction, in the calling
/// instruction, and in the current one.
#[derive(Clone, Copy, Debug, Eq, PartialEq, Structural)]
pub struct InstructionUtxo {
    /// Points to the utxo and its key in the `TransactionContext`
    pub index_in_transaction: IndexOfUtxo,
    /// Points to the first occurrence in the parent `InstructionContext`
    pub index_in_caller: IndexOfUtxo,
    /// Points to the first occurrence in the current `InstructionContext`
    pub index_in_callee: IndexOfUtxo,
}

/// What a UTXO holds, as plain values.
pub struct UtxoState {
    pub data: Seq<u8>,
    pub authority: Seq<u8>,
    pub txid: [u8; 32],
    pub vout: u32,
}

/// The bytes of the identity of a UTXO.
pub open spec fn state_id(u: UtxoState) -> Seq<u8> {
    spec_utxo_id(u.txid@, u.vout)
}

/// A UTXO as the runtime holds it during a transaction.
#[derive(Debug)]
pub struct UtxoSharedData {
    /// data held in this utxo
    data: Vec<u8>,
    /// authority over this utxo
    authority: Pubkey,
    /// txid of this utxo
    txid: [u8; 32],
    /// vout in btc txn
    vout: u32,
}

impl View for UtxoSharedData {
    type V = UtxoState;

    closed spec fn view(&self) -> UtxoState {
        UtxoState { data: self.data@, authority: self.authority.0@, txid: self.txid, vout: self.vout }
    }
}

impl UtxoIdentity for UtxoSharedData {
    fn utxo_id(&self) -> (res: UtxoId)
        ensures
            res.bytes() == state_id(self@),
    {
        <Self as UtxoIdentity>::processor(&self.txid, self.vout)
    }
}

impl UtxoSharedData {
    pub fn create(data: Vec<u8>, authority: Pubkey, txid: [u8; 32], vout: u32) -> (res: Self)
        ensures
            res@ == (UtxoState { data: data@, authority: authority.0@, txid, vout }),
    {
        Self { data, authority, txid, vout }
    }

    pub fn get_vout(&self) -> (res: u32)
        ensures
            res == self@.vout,
    {
        self.vout
    }

    pub fn get_data(&self) -> (res: &[u8])
        ensures
            res@ == self@.data,
    {
        self.data.as_slice()
    }

    pub fn get_txid(&self) -> (res: &[u8; 32])
        ensures
            *res == self@.txid,
    {
        &self.txid
    }

    pub fn get_authority(&self) -> (res: &Pubkey)
        ensures
            res.0@ == self@.authority,
    {
        &self.authority
    }

    /// A copy of this UTXO.
    pub fn duplicate(&self) -> (res: Self)
        ensures
            res@ == self@,
    {
        UtxoSharedData {
            data: vstd::slice::slice_to_vec(self.data.as_slice()),
            authority: self.authority,
            txid: self.txid,
            vout: self.vout,
        }
    }

    fn set_data(&mut self, data: Vec<u8>)
        ensures
            final(self)@ == (UtxoState { data: data@, ..old(self)@ }),
    {
        self.data = data;
    }

    fn copy_into_authority_from_slice(&mut self, source: &[u8])
        requires
            source@.len() == 32,
        ensures
            final(self)@ == (UtxoState { authority: source@, ..old(self)@ }),
    {
        let mut i: usize = 0;
        while i < 32
            invariant
                i <= 32,
                source@.len() == 32,
                self.data@ == old(self).data@,
                self.txid == old(self).txid,
                self.vout == old(self).vout,
                forall|j: int| 0 <= j < i ==> self.authority.0@[j] == source@[j],
            decreases 32 - i,
        {
            self.authority.0[i] = source[i];
            i = i + 1;
        }
        assert(self.authority.0@ =~= source@);
    }
}

/// The first index of `utxos` whose UTXO has the identity `id`, if any.
pub open spec fn is_first_with_id(utxos: Seq<UtxoState>, id: Seq<u8>, res: Option<usize>) -> bool {
    match res {
        Some(i) => i < utxos.len() && state_id(utxos[i as int]) == id && forall|j: int|
            0 <= j < i ==> state_id(#[trigger] utxos[j]) != id,
        None => forall|j: int| 0 <= j < utxos.len() ==> state_id(#[trigger] utxos[j]) != id,
    }
}

/// The UTXOs of a transaction.
#[derive(Debug)]
pub struct TransactionUtxos {
    utxos: Vec<UtxoSharedData>,
}

impl View for TransactionUtxos {
    type V = Seq<UtxoState>;

    closed spec fn view(&self) -> Seq<UtxoState> {
        self.utxos@.map_values(|u: UtxoSharedData| u@)
    }
}

impl TransactionUtxos {
    pub fn from(utxos: Vec<UtxoSharedData>) -> (res: Self)
        ensures
            res@ == utxos@.map_values(|u: UtxoSharedData| u@),
    {
        Self { utxos }
    }

    pub fn len(&self) -> (res: usize)
        ensures
            res == self@.len(),
    {
        self.utxos.len()
    }

    pub fn get(&self, index: IndexOfUtxo) -> (res: Option<&UtxoSharedData>)
        ensures
            index < self@.len() ==> (res matches Some(u) && u@ == self@[index as int]),
            index >= self@.len() ==> res is None,
    {
        if index < self.utxos.len() {
            Some(&self.utxos[index])
        } else {
            None
        }
    }

    pub fn find_index_of_transaction_utxo_by_utxo_id(&self, utxo_id: &UtxoId) -> (res: Option<
        IndexOfUtxo,
    >)
        ensures
            is_first_with_id(self@, utxo_id.bytes(), res),
    {
        let mut i: usize = 0;
        while i < self.utxos.len()
            invariant
                i <= self@.len(),
                forall|j: int| 0 <= j < i ==> state_id(#[trigger] self@[j]) != utxo_id.bytes(),
            decreases self@.len() - i,
        {
            let id = self.utxos[i].utxo_id();
            if id.same_as(utxo_id) {
                return Some(i);
            }
            i = i + 1;
        }
        None
    }

    fn replace(&mut self, index: IndexOfUtxo, utxo: UtxoSharedData)
        requires
            index < old(self)@.len(),
        ensures
            final(self)@ == old(self)@.update(index as int, utxo@),
    {
        self.utxos.set(index, utxo);
        assert(self@ =~= old(self)@.update(index as int, utxo@));
    }
}

} // verus!

verus! {

/// What the runtime knows of one instruction: how deep it runs, its data, its
/// UTXOs and the program that runs it.
#[derive(Debug)]
pub struct InstructionContext {
    pub nesting_level: usize,
    pub instruction_data: Vec<u8>,
    pub instruction_utxos: Vec<InstructionUtxo>,
    pub program_id: Pubkey,
}

/// An instruction context as it is before anything configures it.
pub open spec fn is_fresh(ic: InstructionContext) -> bool {
    &&& ic.nesting_level == 0
    &&& ic.instruction_data@.len() == 0
    &&& ic.instruction_utxos@.len() == 0
    &&& ic.program_id.0@ == Seq::new(32, |i: int| 0u8)
}

/// Two instruction contexts that hold the same values.
pub open spec fn same_context(a: InstructionContext, b: InstructionContext) -> bool {
    &&& a.nesting_level == b.nesting_level
    &&& a.instruction_data@ == b.instruction_data@
    &&& a.instruction_utxos@ == b.instruction_utxos@
    &&& a.program_id == b.program_id
}

impl Default for InstructionContext {
    fn default() -> (res: InstructionContext)
        ensures
            is_fresh(res),
    {
        InstructionContext {
            nesting_level: 0,
            instruction_data: Vec::new(),
            instruction_utxos: Vec::new(),
            program_id: Pubkey::default(),
        }
    }
}

/// Whether entry `j` of `ius` names, in `utxos`, a UTXO with identity `id`.
pub open spec fn names_utxo(ius: Seq<InstructionUtxo>, utxos: Seq<UtxoState>, id: Seq<u8>, j: int) -> bool {
    ius[j].index_in_transaction < utxos.len() && state_id(utxos[ius[j].index_in_transaction as int]) == id
}

/// The first position in `ius` of an instruction UTXO that names, in `utxos`, a
/// UTXO with identity `id`.
pub open spec fn is_first_instruction_utxo_with_id(
    ius: Seq<InstructionUtxo>,
    utxos: Seq<UtxoState>,
    id: Seq<u8>,
    res: Option<usize>,
) -> bool {
    match res {
        Some(i) => i < ius.len() && names_utxo(ius, utxos, id, i as int) && forall|j: int|
            0 <= j < i ==> !#[trigger] names_utxo(ius, utxos, id, j),
        None => forall|j: int| 0 <= j < ius.len() ==> !#[trigger] names_utxo(ius, utxos, id, j),
    }
}

impl InstructionContext {
    /// A copy of this context.
    pub fn duplicate(&self) -> (res: Self)
        ensures
            same_context(res, *self),
    {
        InstructionContext {
            nesting_level: self.nesting_level,
            instruction_data: vstd::slice::slice_to_vec(self.instruction_data.as_slice()),
            instruction_utxos: vstd::slice::slice_to_vec(self.instruction_utxos.as_slice()),
            program_id: self.program_id,
        }
    }

    pub fn get_instruction_data(&self) -> (res: &[u8])
        ensures
            res@ == self.instruction_data@,
    {
        self.instruction_data.as_slice()
    }

    /// Sets the data, the UTXOs and the program of the instruction.
    pub fn configure(
        &mut self,
        instruction_data: &[u8],
        instruction_utxos: &[InstructionUtxo],
        program_id: &[u8],
    )
        requires
            program_id@.len() == 32,
        ensures
            final(self).nesting_level == old(self).nesting_level,
            final(self).instruction_data@ == instruction_data@,
            final(self).instruction_utxos@ == instruction_utxos@,
            final(self).program_id.0@ == program_id@,
    {
        self.instruction_data = vstd::slice::slice_to_vec(instruction_data);
        self.instruction_utxos = vstd::slice::slice_to_vec(instruction_utxos);
        self.set_program_id(program_id);
    }

    fn set_program_id(&mut self, program_id: &[u8])
        requires
            program_id@.len() == 32,
        ensures
            final(self).nesting_level == old(self).nesting_level,
            final(self).instruction_data@ == old(self).instruction_data@,
            final(self).instruction_utxos@ == old(self).instruction_utxos@,
            final(self).program_id.0@ == program_id@,
    {
        let mut i: usize = 0;
        while i < 32
            invariant
                i <= 32,
                program_id@.len() == 32,
                self.nesting_level == old(self).nesting_level,
                self.instruction_data@ == old(self).instruction_data@,
                self.instruction_utxos@ == old(self).instruction_utxos@,
                forall|j: int| 0 <= j < i ==> self.program_id.0@[j] == program_id@[j],
            decreases 32 - i,
        {
            self.program_id.0[i] = program_id[i];
            i = i + 1;
        }
        assert(self.program_id.0@ =~= program_id@);
    }

    pub fn get_number_of_instruction_utxos(&self) -> (res: usize)
        ensures
            res == self.instruction_utxos@.len(),
    {
        self.instruction_utxos.len()
    }

    pub fn get_last_program_key(&self) -> (res: &Pubkey)
        ensures
            *res == self.program_id,
    {
        &self.program_id
    }

    /// Returns `Some(index_in_callee)` if this is a duplicate
    /// and `None` if it is the first utxo with this key
    pub fn is_instruction_utxo_duplicate(&self, instruction_account_index: IndexOfUtxo) -> (res:
        Result<Option<IndexOfUtxo>, InstructionError>)
        ensures
            instruction_account_index >= self.instruction_utxos@.len() ==> res == Err::<
                Option<IndexOfUtxo>,
                InstructionError,
            >(InstructionError::NotEnoughAccountKeys),
            instruction_account_index < self.instruction_utxos@.len() ==> {
                let callee = self.instruction_utxos@[instruction_account_index as int].index_in_callee;
                res == Ok::<Option<IndexOfUtxo>, InstructionError>(
                    if callee == instruction_account_index {
                        None
                    } else {
                        Some(callee)
                    },
                )
            },
    {
        if instruction_account_index >= self.instruction_utxos.len() {
            return Err(InstructionError::NotEnoughAccountKeys);
        }
        let index_in_callee = self.instruction_utxos[instruction_account_index].index_in_callee;
        Ok(
            if index_in_callee == instruction_account_index {
                None
            } else {
                Some(index_in_callee)
            },
        )
    }

    /// Translates the given instruction wide instruction_account_index into a transaction wide index
    pub fn get_index_of_instruction_utxo_in_transaction(
        &self,
        instruction_account_index: IndexOfUtxo,
    ) -> (res: Result<IndexOfUtxo, InstructionError>)
        ensures
            instruction_account_index >= self.instruction_utxos@.len() ==> res == Err::<
                IndexOfUtxo,
                InstructionError,
            >(InstructionError::NotEnoughAccountKeys),
            instruction_account_index < self.instruction_utxos@.len() ==> res == Ok::<
                IndexOfUtxo,
                InstructionError,
            >(self.instruction_utxos@[instruction_account_index as int].index_in_transaction),
    {
        if instruction_account_index >= self.instruction_utxos.len() {
            return Err(InstructionError::NotEnoughAccountKeys);
        }
        Ok(self.instruction_utxos[instruction_account_index].index_in_transaction)
    }

    /// Borrows the UTXO at `instruction_account_index` of this instruction: it
    /// is lent out until it is handed back with
    /// `TransactionContext::return_utxo`, and cannot be borrowed again before.
    pub fn try_borrow_instruction_utxo(
        &self,
        transaction_context: &mut TransactionContext,
        instruction_account_index: IndexOfUtxo,
    ) -> (res: Result<BorrowedUtxo, InstructionError>)
        ensures
            final(transaction_context).utxos() == old(transaction_context).utxos(),
            final(transaction_context).stack() == old(transaction_context).stack(),
            final(transaction_context).trace() == old(transaction_context).trace(),
            final(transaction_context).ids() == old(transaction_context).ids(),
            final(transaction_context).stack_capacity() == old(transaction_context).stack_capacity(),
            final(transaction_context).trace_capacity() == old(transaction_context).trace_capacity(),
            borrow_matches(res, borrow_outcome(*self, *old(transaction_context), instruction_account_index)),
            res is Err ==> final(transaction_context).borrowed() == old(transaction_context).borrowed(),
            res matches Ok(b) ==> final(transaction_context).borrowed() == set_flag(
                old(transaction_context).borrowed(),
                b@.index_in_transaction as int,
                true,
            ),
    {
        let b = self.read_instruction_utxo(transaction_context, instruction_account_index)?;
        transaction_context.lend(b.index_in_transaction);
        Ok(b)
    }

    /// What borrowing the UTXO at `instruction_account_index` gives, without
    /// lending it out; the runtime reads this way where it hands the UTXO back
    /// before anything else borrows.
    pub(crate) fn read_instruction_utxo(
        &self,
        transaction_context: &TransactionContext,
        instruction_account_index: IndexOfUtxo,
    ) -> (res: Result<BorrowedUtxo, InstructionError>)
        ensures
            borrow_matches(res, borrow_outcome(*self, *transaction_context, instruction_account_index)),
    {
        let index_in_transaction = self.get_index_of_instruction_utxo_in_transaction(
            instruction_account_index,
        )?;
        self.try_borrow_utxo(transaction_context, index_in_transaction, instruction_account_index)
    }

    fn try_borrow_utxo(
        &self,
        transaction_context: &TransactionContext,
        index_in_transaction: IndexOfUtxo,
        index_in_instruction: IndexOfUtxo,
    ) -> (res: Result<BorrowedUtxo, InstructionError>)
        ensures
            index_in_transaction >= transaction_context.utxos().len() ==> res == Err::<
                BorrowedUtxo,
                InstructionError,
            >(InstructionError::MissingAccount),
            index_in_transaction < transaction_context.utxos().len() && flagged(
                transaction_context.borrowed(),
                index_in_transaction as int,
            ) ==> res == Err::<BorrowedUtxo, InstructionError>(InstructionError::AccountBorrowFailed),
            index_in_transaction < transaction_context.utxos().len() && !flagged(
                transaction_context.borrowed(),
                index_in_transaction as int,
            ) ==> (res matches Ok(b) && b@ == (
            BorrowState {
                index_in_transaction,
                index_in_instruction,
                utxo: transaction_context.utxos()[index_in_transaction as int],
                program_key: self.program_id.0@,
            })),
    {
        match transaction_context.get_utxo(index_in_transaction) {
            None => Err(InstructionError::MissingAccount),
            Some(utxo) => {
                if transaction_context.is_borrowed(index_in_transaction) {
                    return Err(InstructionError::AccountBorrowFailed);
                }
                Ok(
                    BorrowedUtxo {
                        index_in_transaction,
                        index_in_instruction,
                        utxo: utxo.duplicate(),
                        program_key: self.program_id,
                    },
                )
            },
        }
    }

    /// Searches for an instruction utxo by its utxo_id
    pub fn find_index_of_instruction_account(
        &self,
        transaction_context: &TransactionContext,
        utxo_id: &UtxoId,
    ) -> (res: Option<IndexOfUtxo>)
        ensures
            is_first_instruction_utxo_with_id(
                self.instruction_utxos@,
                transaction_context.utxos(),
                utxo_id.bytes(),
                res,
            ),
    {
        let mut i: usize = 0;
        while i < self.instruction_utxos.len()
            invariant
                i <= self.instruction_utxos@.len(),
                forall|j: int|
                    0 <= j < i ==> !#[trigger] names_utxo(
                        self.instruction_utxos@,
                        transaction_context.utxos(),
                        utxo_id.bytes(),
                        j,
                    ),
            decreases self.instruction_utxos@.len() - i,
        {
            match transaction_context.get_utxo(self.instruction_utxos[i].index_in_transaction) {
                Some(u) => {
                    let id = u.utxo_id();
                    if id.same_as(utxo_id) {
                        return Some(i);
                    }
                },
                None => {},
            }
            i = i + 1;
        }
        None
    }
}

/// A UTXO borrowed by an instruction, together with the key of the program
/// that runs the instruction.
pub struct BorrowState {
    pub index_in_transaction: IndexOfUtxo,
    pub index_in_instruction: IndexOfUtxo,
    pub utxo: UtxoState,
    pub program_key: Seq<u8>,
}

/// A UTXO borrowed from the `TransactionContext` by an `InstructionContext`.
/// Changes made through it reach the transaction when it is handed back with
/// `TransactionContext::return_utxo`.
pub struct BorrowedUtxo {
    index_in_transaction: IndexOfUtxo,
    index_in_instruction: IndexOfUtxo,
    utxo: UtxoSharedData,
    program_key: Pubkey,
}

impl View for BorrowedUtxo {
    type V = BorrowState;

    closed spec fn view(&self) -> BorrowState {
        BorrowState {
            index_in_transaction: self.index_in_transaction,
            index_in_instruction: self.index_in_instruction,
            utxo: self.utxo@,
            program_key: self.program_key.0@,
        }
    }
}

/// Whether the program that borrowed a UTXO is its authority.
pub open spec fn owned_by_program(b: BorrowState) -> bool {
    b.program_key == b.utxo.authority
}

impl BorrowedUtxo {
    /// Returns the index of this account (transaction wide)
    pub fn get_index_in_transaction(&self) -> (res: IndexOfUtxo)
        ensures
            res == self@.index_in_transaction,
    {
        self.index_in_transaction
    }

    pub fn data_len(&self) -> (res: usize)
        ensures
            res == self@.utxo.data.len(),
    {
        self.utxo.get_data().len()
    }

    pub fn get_vout(&self) -> (res: u32)
        ensures
            res == self@.utxo.vout,
    {
        self.utxo.get_vout()
    }

    pub fn get_data(&self) -> (res: &[u8])
        ensures
            res@ == self@.utxo.data,
    {
        self.utxo.get_data()
    }

    pub fn get_txid(&self) -> (res: &[u8])
        ensures
            res@ == self@.utxo.txid@,
    {
        self.utxo.get_txid().as_slice()
    }

    pub fn get_authority(&self) -> (res: &Pubkey)
        ensures
            res.0@ == self@.utxo.authority,
    {
        self.utxo.get_authority()
    }

    /// Whether the running program is the authority over this UTXO.
    pub fn is_owned_by_current_utxo(&self) -> (res: bool)
        ensures
            res == owned_by_program(self@),
    {
        self.program_key.equals(self.utxo.get_authority())
    }

    /// Hands the UTXO to a new authority. Only its authority may do so.
    pub fn set_authority(&mut self, pubkey: &[u8]) -> (res: Result<(), InstructionError>)
        requires
            pubkey@.len() == 32,
        ensures
            !owned_by_program(old(self)@) ==> res == Err::<(), InstructionError>(
                InstructionError::ModifiedProgramId,
            ) && final(self)@ == old(self)@,
            owned_by_program(old(self)@) ==> res is Ok && final(self)@ == (BorrowState {
                utxo: UtxoState { authority: pubkey@, ..old(self)@.utxo },
                ..old(self)@
            }),
    {
        // Only the owner can assign a new owner
        if !self.is_owned_by_current_utxo() {
            return Err(InstructionError::ModifiedProgramId);
        }
        if crate::bytes::bytes_eq(self.get_authority().as_slice(), pubkey) {
            return Ok(());
        }
        self.utxo.copy_into_authority_from_slice(pubkey);
        Ok(())
    }

    /// Whether the data may take the length `new_length`.
    pub fn can_data_be_resized(&self, new_length: usize) -> (res: Result<(), InstructionError>)
        ensures
            res == spec_can_data_be_resized(self@, new_length),
    {
        let old_length = self.get_data().len();
        // Only the owner can change the length of the data
        if new_length != old_length && !self.is_owned_by_current_utxo() {
            return Err(InstructionError::AccountDataSizeChanged);
        }
        // The new length can not exceed the maximum permitted length
        if new_length as u64 > MAX_PERMITTED_DATA_LENGTH {
            return Err(InstructionError::InvalidRealloc);
        }
        Ok(())
    }

    /// Whether the data may change at all.
    pub fn can_data_be_changed(&self) -> (res: Result<(), InstructionError>)
        ensures
            res == spec_can_data_be_changed(self@),
    {
        if !self.is_owned_by_current_utxo() {
            return Err(InstructionError::ExternalAccountDataModified);
        }
        Ok(())
    }

    /// Replaces the data. Only the authority may do so, and the length stays
    /// within the permitted maximum.
    pub fn set_data_from_slice(&mut self, data: &[u8]) -> (res: Result<(), InstructionError>)
        ensures
            res == spec_set_data_result(old(self)@, data@.len() as usize),
            res is Ok ==> final(self)@ == (BorrowState {
                utxo: UtxoState { data: data@, ..old(self)@.utxo },
                ..old(self)@
            }),
            res is Err ==> final(self)@ == old(self)@,
    {
        self.can_data_be_resized(data.len())?;
        self.can_data_be_changed()?;
        self.utxo.set_data(vstd::slice::slice_to_vec(data));
        Ok(())
    }
}

pub open spec fn spec_can_data_be_resized(b: BorrowState, new_length: usize) -> Result<(), InstructionError> {
    if new_length != b.utxo.data.len() && !owned_by_program(b) {
        Err(InstructionError::AccountDataSizeChanged)
    } else if new_length > MAX_PERMITTED_DATA_LENGTH {
        Err(InstructionError::InvalidRealloc)
    } else {
        Ok(())
    }
}

pub open spec fn spec_can_data_be_changed(b: BorrowState) -> Result<(), InstructionError> {
    if !owned_by_program(b) {
        Err(InstructionError::ExternalAccountDataModified)
    } else {
        Ok(())
    }
}

/// Only the authority over a UTXO may change the length of its data: asking
/// for any other length (smaller or larger) on a UTXO whose authority is not
/// the running program is refused with `AccountDataSizeChanged`; the
/// authority may ask for any length up to `MAX_PERMITTED_DATA_LENGTH`, and
/// keeping the length is refused only past that limit.
pub proof fn lemma_only_the_authority_resizes(b: BorrowState, new_length: usize)
    ensures
        b.program_key != b.utxo.authority && new_length != b.utxo.data.len() ==> spec_can_data_be_resized(
            b,
            new_length,
        ) == Err::<(), InstructionError>(InstructionError::AccountDataSizeChanged),
        (b.program_key == b.utxo.authority || new_length == b.utxo.data.len()) && new_length
            <= MAX_PERMITTED_DATA_LENGTH ==> spec_can_data_be_resized(b, new_length) == Ok::<
            (),
            InstructionError,
        >(()),
        spec_can_data_be_resized(b, new_length) is Ok ==> new_length == b.utxo.data.len()
            || b.program_key == b.utxo.authority,
{
}

/// Only the authority over a UTXO may set its data, even to data of the
/// same length.
pub proof fn lemma_only_the_authority_sets_data(b: BorrowState, len: usize)
    ensures
        spec_set_data_result(b, len) is Ok <==> (b.program_key == b.utxo.authority && len
            <= MAX_PERMITTED_DATA_LENGTH),
{
}

/// What `set_data_from_slice` answers for new data of length `len`.
pub open spec fn spec_set_data_result(b: BorrowState, len: usize) -> Result<(), InstructionError> {
    match spec_can_data_be_resized(b, len) {
        Err(e) => Err(e),
        Ok(_) => spec_can_data_be_changed(b),
    }
}

} // verus!

verus! {

/// The state of a transaction: its UTXOs, the trace of the instructions it
/// has started, and the stack of the ones that run.
#[derive(Debug)]
pub struct TransactionContext {
    instruction_stack_capacity: usize,
    instruction_trace_capacity: usize,
    instruction_stack: Vec<usize>,
    instruction_trace: Vec<InstructionContext>,
    utxo_ids: Vec<UtxoId>,
    utxos: TransactionUtxos,
    borrowed: Vec<bool>,
}

/// What borrowing the UTXO at `i` of the instruction `ic` from `tc` gives: an
/// index past the instruction's UTXOs, a UTXO missing from the transaction,
/// and a UTXO already lent out are refused, in this order.
pub open spec fn borrow_outcome(ic: InstructionContext, tc: TransactionContext, i: IndexOfUtxo) -> Result<
    BorrowState,
    InstructionError,
> {
    if i >= ic.instruction_utxos@.len() {
        Err(InstructionError::NotEnoughAccountKeys)
    } else {
        let t = ic.instruction_utxos@[i as int].index_in_transaction;
        if t >= tc.utxos().len() {
            Err(InstructionError::MissingAccount)
        } else if flagged(tc.borrowed(), t as int) {
            Err(InstructionError::AccountBorrowFailed)
        } else {
            Ok(
                BorrowState {
                    index_in_transaction: t,
                    index_in_instruction: i,
                    utxo: tc.utxos()[t as int],
                    program_key: ic.program_id.0@,
                },
            )
        }
    }
}

/// `res` is the borrow that `outcome` describes.
pub open spec fn borrow_matches(res: Result<BorrowedUtxo, InstructionError>, outcome: Result<BorrowState, InstructionError>) -> bool {
    match outcome {
        Ok(s) => res matches Ok(b) && b@ == s,
        Err(e) => res matches Err(e2) && e2 == e,
    }
}

/// Whether the UTXO at `t` is lent out.
pub open spec fn flagged(borrowed: Seq<bool>, t: int) -> bool {
    0 <= t < borrowed.len() && borrowed[t]
}

/// The flags with the one of `t`, if there is one, set to `v`.
pub open spec fn set_flag(borrowed: Seq<bool>, t: int, v: bool) -> Seq<bool> {
    if 0 <= t < borrowed.len() {
        borrowed.update(t, v)
    } else {
        borrowed
    }
}

pub type TransactionUtxo = (UtxoId, UtxoSharedData);

/// The nesting level of `ic` set to `level`.
pub open spec fn with_nesting_level(ic: InstructionContext, level: usize) -> InstructionContext {
    InstructionContext { nesting_level: level, ..ic }
}

/// What `push` does: it marks the next instruction with the current depth;
/// where the trace is full it stops there; else it opens a fresh entry in the
/// trace, and where the stack is full it stops there; else the instruction
/// goes on top of the stack.
pub open spec fn push_post(
    old: TransactionContext,
    new: TransactionContext,
    res: Result<(), InstructionError>,
) -> bool {
    let level = old.stack().len() as usize;
    let index_in_trace = (old.trace().len() - 1) as usize;
    let marked = old.trace().update(
        index_in_trace as int,
        with_nesting_level(old.trace()[index_in_trace as int], level),
    );
    &&& new.wf()
    &&& new.utxos() == old.utxos()
    &&& new.ids() == old.ids()
    &&& new.borrowed() == old.borrowed()
    &&& new.stack_capacity() == old.stack_capacity()
    &&& new.trace_capacity() == old.trace_capacity()
    &&& if index_in_trace >= old.trace_capacity() {
        &&& res == Err::<(), InstructionError>(InstructionError::MaxInstructionTraceLengthExceeded)
        &&& new.trace() == marked
        &&& new.stack() == old.stack()
    } else {
        &&& new.trace().len() == marked.len() + 1
        &&& new.trace().subrange(0, marked.len() as int) == marked
        &&& is_fresh(new.trace().last())
        &&& if level >= old.stack_capacity() {
            &&& res == Err::<(), InstructionError>(InstructionError::CallDepth)
            &&& new.stack() == old.stack()
        } else {
            &&& res == Ok::<(), InstructionError>(())
            &&& new.stack() == old.stack().push(index_in_trace)
        }
    }
}

/// What `pop` does: the instruction on top of the stack ends; with an empty
/// stack it fails.
pub open spec fn pop_post(
    old: TransactionContext,
    new: TransactionContext,
    res: Result<(), InstructionError>,
) -> bool {
    &&& new.wf()
    &&& new.trace() == old.trace()
    &&& new.utxos() == old.utxos()
    &&& new.ids() == old.ids()
    &&& new.borrowed() == old.borrowed()
    &&& new.stack_capacity() == old.stack_capacity()
    &&& new.trace_capacity() == old.trace_capacity()
    &&& old.stack().len() == 0 ==> res == Err::<(), InstructionError>(InstructionError::CallDepth)
        && new.stack() == old.stack()
    &&& old.stack().len() > 0 ==> res == Ok::<(), InstructionError>(()) && new.stack()
        == old.stack().drop_last()
}

/// An instruction that starts ends without trouble: after a `push` that
/// succeeds, `pop` succeeds and gives back the stack as it was, with the same
/// instruction current as before, while the trace keeps one more entry.
pub proof fn lemma_push_then_pop(
    t0: TransactionContext,
    t1: TransactionContext,
    t2: TransactionContext,
    r2: Result<(), InstructionError>,
)
    requires
        t0.wf(),
        push_post(t0, t1, Ok(())),
        pop_post(t1, t2, r2),
    ensures
        r2 is Ok,
        t2.stack() == t0.stack(),
        t2.trace().len() == t0.trace().len() + 1,
        t2.utxos() == t0.utxos(),
        t0.stack().len() > 0 ==> t2.trace()[t2.stack().last() as int] == t0.trace()[t0.stack().last() as int],
{
    assert(t2.stack() =~= t0.stack());
    if t0.stack().len() > 0 {
        let s = t0.stack().last() as int;
        assert(s < t0.trace().len() - 1);
        let index_in_trace = (t0.trace().len() - 1) as usize;
        let marked = t0.trace().update(
            index_in_trace as int,
            with_nesting_level(t0.trace()[index_in_trace as int], t0.stack().len() as usize),
        );
        assert(index_in_trace < t0.trace_capacity());
        assert(t1.trace().subrange(0, marked.len() as int) == marked);
        assert(t1.trace().subrange(0, marked.len() as int)[s] == t1.trace()[s]);
        assert(s != index_in_trace as int);
        assert(marked[s] == t0.trace()[s]);
        assert(t2.trace() == t1.trace());
        assert(t2.stack().last() == t0.stack().last());
    }
}

impl TransactionContext {
    pub closed spec fn stack(&self) -> Seq<usize> {
        self.instruction_stack@
    }

    pub closed spec fn trace(&self) -> Seq<InstructionContext> {
        self.instruction_trace@
    }

    pub closed spec fn utxos(&self) -> Seq<UtxoState> {
        self.utxos@
    }

    /// Which UTXOs are lent out through `try_borrow_instruction_utxo`.
    pub closed spec fn borrowed(&self) -> Seq<bool> {
        self.borrowed@
    }

    pub closed spec fn ids(&self) -> Seq<UtxoId> {
        self.utxo_ids@
    }

    pub closed spec fn stack_capacity(&self) -> usize {
        self.instruction_stack_capacity
    }

    pub closed spec fn trace_capacity(&self) -> usize {
        self.instruction_trace_capacity
    }

    /// The trace is never empty (its last entry is the next instruction to
    /// configure) and the stack names entries of the trace before that one.
    pub open spec fn wf(&self) -> bool {
        &&& 1 <= self.trace().len() <= usize::MAX
        &&& forall|i: int| 0 <= i < self.stack().len() ==> #[trigger] self.stack()[i] < self.trace().len() - 1
    }

    pub fn new(
        utxos: Vec<TransactionUtxo>,
        instruction_stack_capacity: usize,
        instruction_trace_capacity: usize,
    ) -> (res: Self)
        ensures
            res.wf(),
            res.stack().len() == 0,
            res.trace().len() == 1,
            is_fresh(res.trace()[0]),
            res.ids() == utxos@.map_values(|p: TransactionUtxo| p.0),
            res.utxos() == utxos@.map_values(|p: TransactionUtxo| p.1@),
            res.stack_capacity() == instruction_stack_capacity,
            res.trace_capacity() == instruction_trace_capacity,
            res.borrowed().len() == utxos@.len(),
            forall|t: int| !#[trigger] flagged(res.borrowed(), t),
            forall|i: int| 0 <= i < res.utxos().len() ==> #[trigger] crate::runtime::serialization::state_valid(
                res.utxos()[i],
            ),
    {
        let mut utxo_ids: Vec<UtxoId> = Vec::new();
        let mut shared: Vec<UtxoSharedData> = Vec::new();
        let mut rest = utxos;
        let ghost all = rest@;
        let ghost n = rest@.len();
        // take the pairs from the back, then restore the order
        while rest.len() > 0
            invariant
                rest@ == all.subrange(0, rest@.len() as int),
                rest@.len() <= n,
                all.len() == n,
                utxo_ids@.len() == n - rest@.len(),
                shared@.len() == n - rest@.len(),
                forall|k: int|
                    0 <= k < utxo_ids@.len() ==> #[trigger] utxo_ids@[k] == all[n - 1 - k].0,
                forall|k: int|
                    0 <= k < shared@.len() ==> #[trigger] shared@[k]@ == all[n - 1 - k].1@,
            decreases rest@.len(),
        {
            let (id, u) = rest.pop().unwrap();
            utxo_ids.push(id);
            shared.push(u);
        }
        let mut ids_in_order: Vec<UtxoId> = Vec::new();
        let mut shared_in_order: Vec<UtxoSharedData> = Vec::new();
        while shared.len() > 0
            invariant
                utxo_ids@.len() == shared@.len(),
                shared@.len() + shared_in_order@.len() == n,
                ids_in_order@.len() == shared_in_order@.len(),
                forall|k: int|
                    0 <= k < utxo_ids@.len() ==> #[trigger] utxo_ids@[k] == all[n - 1 - k].0,
                forall|k: int|
                    0 <= k < shared@.len() ==> #[trigger] shared@[k]@ == all[n - 1 - k].1@,
                forall|k: int|
                    0 <= k < ids_in_order@.len() ==> #[trigger] ids_in_order@[k] == all[k].0,
                forall|k: int|
                    0 <= k < shared_in_order@.len() ==> #[trigger] shared_in_order@[k]@
                        == all[k].1@,
            decreases shared@.len(),
        {
            let u = shared.pop().unwrap();
            let id = utxo_ids.pop().unwrap();
            shared_in_order.push(u);
            ids_in_order.push(id);
        }
        let mut instruction_trace: Vec<InstructionContext> = Vec::new();
        instruction_trace.push(InstructionContext::default());
        let mut borrowed: Vec<bool> = Vec::new();
        let mut k: usize = 0;
        while k < shared_in_order.len()
            invariant
                k <= shared_in_order@.len(),
                borrowed@.len() == k,
                forall|j: int| 0 <= j < k ==> !#[trigger] borrowed@[j],
            decreases shared_in_order@.len() - k,
        {
            borrowed.push(false);
            k = k + 1;
        }
        let res = Self {
            borrowed,
            utxo_ids: ids_in_order,
            utxos: TransactionUtxos::from(shared_in_order),
            instruction_stack_capacity,
            instruction_trace_capacity,
            instruction_stack: Vec::new(),
            instruction_trace,
        };
        assert(res.utxo_ids@ =~= utxos@.map_values(|p: TransactionUtxo| p.0));
        assert(res.utxos@ =~= utxos@.map_values(|p: TransactionUtxo| p.1@));
        res.utxos_valid();
        res
    }

    /// Starts the instruction configured in the last entry of the trace.
    pub fn push(&mut self) -> (res: Result<(), InstructionError>)
        requires
            old(self).wf(),
        ensures
            push_post(*old(self), *final(self), res),
    {
        let nesting_level = self.get_instruction_context_stack_height();
        let mut next = self.instruction_trace.pop().unwrap();
        next.nesting_level = nesting_level;
        self.instruction_trace.push(next);
        let ghost marked = self.instruction_trace@;
        assert(marked =~= old(self).trace().update(
            old(self).trace().len() - 1,
            with_nesting_level(old(self).trace()[old(self).trace().len() - 1], nesting_level),
        ));
        let index_in_trace = self.get_instruction_trace_length();
        if index_in_trace >= self.instruction_trace_capacity {
            return Err(InstructionError::MaxInstructionTraceLengthExceeded);
        }
        self.instruction_trace.push(InstructionContext::default());
        let trace_len = self.instruction_trace.len();
        assert(self.trace().len() == trace_len);
        assert(self.instruction_trace@.subrange(0, marked.len() as int) =~= marked);
        if nesting_level >= self.instruction_stack_capacity {
            return Err(InstructionError::CallDepth);
        }
        self.instruction_stack.push(index_in_trace);
        Ok(())
    }

    /// Ends the instruction on top of the stack.
    pub fn pop(&mut self) -> (res: Result<(), InstructionError>)
        requires
            old(self).wf(),
        ensures
            pop_post(*old(self), *final(self), res),
    {
        if self.instruction_stack.len() == 0 {
            return Err(InstructionError::CallDepth);
        }
        let popped = self.instruction_stack.pop();
        assert forall|i: int| 0 <= i < self.stack().len() implies #[trigger] self.stack()[i]
            < self.trace().len() - 1 by {
            assert(self.stack()[i] == old(self).stack()[i]);
        }
        match popped {
            Some(_) => Ok(()),
            None => Err(InstructionError::MissingAccount),
        }
    }

    pub fn get_instruction_context_stack_height(&self) -> (res: usize)
        ensures
            res == self.stack().len(),
    {
        self.instruction_stack.len()
    }

    pub fn get_instruction_context_at_nesting_level(&self, nesting_level: usize) -> (res:
        &InstructionContext)
        requires
            self.wf(),
            nesting_level < self.stack().len(),
        ensures
            *res == self.trace()[self.stack()[nesting_level as int] as int],
    {
        let index_in_trace = self.instruction_stack[nesting_level];
        &self.instruction_trace[index_in_trace]
    }

    pub fn get_instruction_trace_length(&self) -> (res: usize)
        ensures
            res == if self.trace().len() == 0 { 0 } else { self.trace().len() - 1 },
    {
        self.instruction_trace.len().saturating_sub(1)
    }

    pub fn get_instruction_context_at_index_in_trace(&self, index_in_trace: usize) -> (res: Result<
        &InstructionContext,
        String,
    >)
        ensures
            index_in_trace < self.trace().len() ==> (res matches Ok(r) && *r
                == self.trace()[index_in_trace as int]),
            index_in_trace >= self.trace().len() ==> res is Err,
    {
        if index_in_trace < self.instruction_trace.len() {
            Ok(&self.instruction_trace[index_in_trace])
        } else {
            Err(String::from_str(
                "context doesn't exists, can't access instruction context at this level",
            ))
        }
    }

    /// The identity of the UTXO at `index_in_transaction`.
    pub fn get_id_of_utxo_at_index(&self, index_in_transaction: IndexOfUtxo) -> (res: Result<
        &UtxoId,
        InstructionError,
    >)
        ensures
            index_in_transaction < self.ids().len() ==> (res matches Ok(r) && *r
                == self.ids()[index_in_transaction as int]),
            index_in_transaction >= self.ids().len() ==> res == Err::<&UtxoId, InstructionError>(
                InstructionError::NotEnoughAccountKeys,
            ),
    {
        if index_in_transaction < self.utxo_ids.len() {
            Ok(&self.utxo_ids[index_in_transaction])
        } else {
            Err(InstructionError::NotEnoughAccountKeys)
        }
    }

    /// The instruction that the next `push` starts.
    pub fn get_next_instruction_context(&self) -> (res: &InstructionContext)
        requires
            self.wf(),
        ensures
            *res == self.trace().last(),
    {
        let last = self.instruction_trace.len() - 1;
        &self.instruction_trace[last]
    }

    /// Sets the data, the UTXOs and the program of the instruction that the
    /// next `push` starts.
    pub fn configure_next_instruction_context(
        &mut self,
        instruction_data: &[u8],
        instruction_utxos: &[InstructionUtxo],
        program_id: &[u8],
    )
        requires
            old(self).wf(),
            program_id@.len() == 32,
        ensures
            final(self).wf(),
            final(self).stack() == old(self).stack(),
            final(self).utxos() == old(self).utxos(),
            final(self).ids() == old(self).ids(),
            final(self).borrowed() == old(self).borrowed(),
            final(self).stack_capacity() == old(self).stack_capacity(),
            final(self).trace_capacity() == old(self).trace_capacity(),
            final(self).trace().len() == old(self).trace().len(),
            final(self).trace().drop_last() == old(self).trace().drop_last(),
            final(self).trace().last().nesting_level == old(self).trace().last().nesting_level,
            final(self).trace().last().instruction_data@ == instruction_data@,
            final(self).trace().last().instruction_utxos@ == instruction_utxos@,
            final(self).trace().last().program_id.0@ == program_id@,
    {
        let mut next = self.instruction_trace.pop().unwrap();
        next.configure(instruction_data, instruction_utxos, program_id);
        self.instruction_trace.push(next);
        assert(self.instruction_trace@.drop_last() =~= old(self).trace().drop_last());
        assert(self.instruction_trace@.len() == old(self).trace().len());
        assert(self.stack() == old(self).stack());
        assert(forall|i: int| 0 <= i < self.stack().len() ==> #[trigger] self.stack()[i] < self.trace().len() - 1) by {
            assert forall|i: int| 0 <= i < self.stack().len() implies #[trigger] self.stack()[i] < self.trace().len() - 1 by {
                assert(old(self).stack()[i] < old(self).trace().len() - 1);
            }
        }
    }

    /// The instruction on top of the stack.
    pub fn get_current_instruction_context(&self) -> (res: &InstructionContext)
        requires
            self.wf(),
            self.stack().len() > 0,
        ensures
            *res == self.trace()[self.stack().last() as int],
    {
        let level = self.instruction_stack.len() - 1;
        self.get_instruction_context_at_nesting_level(level)
    }

    /// The first UTXO of the transaction whose identity is `utxo_id`.
    pub fn find_index_of_utxo(&self, utxo_id: &UtxoId) -> (res: Option<IndexOfUtxo>)
        ensures
            is_first_with_id(self.utxos(), utxo_id.bytes(), res),
    {
        self.utxos.find_index_of_transaction_utxo_by_utxo_id(utxo_id)
    }

    /// Makes known what holds of every UTXO that a transaction holds: its
    /// data fits in memory and its authority is a 32-byte key.
    pub fn utxos_valid(&self)
        ensures
            forall|i: int| 0 <= i < self.utxos().len() ==> #[trigger] crate::runtime::serialization::state_valid(
                self.utxos()[i],
            ),
    {
        let n = self.utxos.len();
        let mut i: usize = 0;
        while i < n
            invariant
                n == self.utxos().len(),
                i <= n,
                forall|j: int| 0 <= j < i ==> #[trigger] crate::runtime::serialization::state_valid(
                    self.utxos()[j],
                ),
            decreases n - i,
        {
            let u = self.utxos.get(i).unwrap();
            let len = u.get_data().len();
            let key = u.get_authority();
            assert(key.0@.len() == 32);
            assert(len == self.utxos()[i as int].data.len());
            i = i + 1;
        }
    }

    pub fn utxos_len(&self) -> (res: usize)
        ensures
            res == self.utxos().len(),
    {
        self.utxos.len()
    }

    pub fn get_utxo(&self, index: IndexOfUtxo) -> (res: Option<&UtxoSharedData>)
        ensures
            index < self.utxos().len() ==> (res matches Some(u) && u@ == self.utxos()[index as int]),
            index >= self.utxos().len() ==> res is None,
    {
        self.utxos.get(index)
    }

    /// Hands a borrowed UTXO back, with whatever changes were made to it; it
    /// is no longer lent out.
    pub fn return_utxo(&mut self, borrowed: BorrowedUtxo)
        requires
            borrowed@.index_in_transaction < old(self).utxos().len(),
        ensures
            final(self).utxos() == old(self).utxos().update(
                borrowed@.index_in_transaction as int,
                borrowed@.utxo,
            ),
            final(self).borrowed() == set_flag(old(self).borrowed(), borrowed@.index_in_transaction as int, false),
            final(self).stack() == old(self).stack(),
            final(self).trace() == old(self).trace(),
            final(self).ids() == old(self).ids(),
            final(self).stack_capacity() == old(self).stack_capacity(),
            final(self).trace_capacity() == old(self).trace_capacity(),
    {
        let BorrowedUtxo { index_in_transaction, utxo, .. } = borrowed;
        self.utxos.replace(index_in_transaction, utxo);
        if index_in_transaction < self.borrowed.len() {
            self.borrowed.set(index_in_transaction, false);
        }
    }

    /// Whether the UTXO at `index` is lent out.
    pub fn is_borrowed(&self, index: IndexOfUtxo) -> (res: bool)
        ensures
            res == flagged(self.borrowed(), index as int),
    {
        index < self.borrowed.len() && self.borrowed[index]
    }

    fn lend(&mut self, index: IndexOfUtxo)
        ensures
            final(self).borrowed() == set_flag(old(self).borrowed(), index as int, true),
            final(self).utxos() == old(self).utxos(),
            final(self).stack() == old(self).stack(),
            final(self).trace() == old(self).trace(),
            final(self).ids() == old(self).ids(),
            final(self).stack_capacity() == old(self).stack_capacity(),
            final(self).trace_capacity() == old(self).trace_capacity(),
    {
        if index < self.borrowed.len() {
            self.borrowed.set(index, true);
        }
    }
}

} // verus!
