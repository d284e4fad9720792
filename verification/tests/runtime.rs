use rbpf_runtime::entrypoint;
use rbpf_runtime::runtime::context::{
    InstructionContext, InstructionUtxo, TransactionContext, UtxoSharedData,
};
use rbpf_runtime::runtime::errors::InstructionError;
use rbpf_runtime::runtime::invoke::{AllocErr, BpfAllocator, InvokeContext, SyscallContext};
use rbpf_runtime::runtime::serialization::{
    deserialize_parameters, is_serializable, read_back_fits, serialize_parameters,
};
use rbpf_runtime::types::{Pubkey, StableInstruction, UtxoIdentity};
use rbpf_runtime::utxo_info::{ProgramError, UtxoInfo};

const PROGRAM: [u8; 32] = [3u8; 32];

fn shared(data: &[u8], authority: [u8; 32], txid: u8, vout: u32) -> UtxoSharedData {
    UtxoSharedData::create(data.to_vec(), Pubkey::from_array(authority), [txid; 32], vout)
}

fn context_with(utxos: Vec<UtxoSharedData>) -> TransactionContext {
    let entries = utxos
        .into_iter()
        .map(|u| (<UtxoSharedData as UtxoIdentity>::processor(u.get_txid(), u.get_vout()), u))
        .collect();
    TransactionContext::new(entries, 4, 8)
}

fn started(utxos: Vec<UtxoSharedData>, ius: &[InstructionUtxo], data: &[u8]) -> TransactionContext {
    let mut ctx = context_with(utxos);
    ctx.configure_next_instruction_context(data, ius, &PROGRAM);
    ctx.push().unwrap();
    ctx
}

fn iu(t: usize, caller: usize, callee: usize) -> InstructionUtxo {
    InstructionUtxo { index_in_transaction: t, index_in_caller: caller, index_in_callee: callee }
}

#[test]
fn push_then_pop_restores_the_stack() {
    let mut ctx = context_with(vec![shared(&[1], PROGRAM, 1, 0)]);
    assert_eq!(ctx.get_instruction_context_stack_height(), 0);
    ctx.configure_next_instruction_context(&[9], &[iu(0, 0, 0)], &PROGRAM);
    ctx.push().unwrap();
    assert_eq!(ctx.get_instruction_context_stack_height(), 1);
    assert_eq!(ctx.get_current_instruction_context().get_instruction_data(), &[9]);
    ctx.pop().unwrap();
    assert_eq!(ctx.get_instruction_context_stack_height(), 0);
    assert_eq!(ctx.pop(), Err(InstructionError::CallDepth));
}

#[test]
fn the_program_reads_what_the_runtime_wrote() {
    let ius = [iu(0, 0, 0), iu(1, 1, 1), iu(0, 0, 0)];
    let ctx = started(
        vec![shared(&[1, 2, 3], PROGRAM, 1, 7), shared(&[], [4u8; 32], 2, 8)],
        &ius,
        &[5, 6],
    );
    let ic = ctx.get_current_instruction_context();
    let (bytes, metas) = serialize_parameters(&ctx, ic).unwrap();
    assert_eq!(metas.len(), 3);
    assert_eq!(metas[2], metas[0]);
    assert_eq!(metas[0].original_data_len, 3);
    let (pid, utxos, data, origins, offsets) = entrypoint::deserialize(&bytes).unwrap();
    assert_eq!(origins, vec![0, 1, 0]);
    assert_eq!(offsets[0], 8);
    assert_eq!(pid, Pubkey::from_array(PROGRAM));
    assert_eq!(data, vec![5, 6]);
    assert_eq!(utxos.len(), 3);
    assert_eq!(utxos[0].try_borrow_data().unwrap(), &[1, 2, 3]);
    assert_eq!(utxos[1].data_len(), 0);
    assert_eq!(utxos[1].authority(), &Pubkey::from_array([4u8; 32]));
    assert_eq!(utxos[2].vout(), 7);
}

#[test]
fn untouched_input_reads_back_only_for_the_owner() {
    let ius = [iu(0, 0, 0)];
    let mut ctx = started(vec![shared(&[1, 2, 3], PROGRAM, 1, 7)], &ius, &[]);
    let ic = ctx.get_current_instruction_context().duplicate();
    let (bytes, metas) = serialize_parameters(&ctx, &ic).unwrap();
    assert_eq!(deserialize_parameters(&mut ctx, &ic, &bytes, &metas), Ok(()));

    let mut other = started(vec![shared(&[1, 2, 3], [8u8; 32], 1, 7)], &ius, &[]);
    let ic = other.get_current_instruction_context().duplicate();
    let (bytes, metas) = serialize_parameters(&other, &ic).unwrap();
    assert_eq!(
        deserialize_parameters(&mut other, &ic, &bytes, &metas),
        Err(InstructionError::ExternalAccountDataModified)
    );
}

#[test]
fn untouched_input_with_two_utxos_reads_back() {
    let ius = [iu(0, 0, 0), iu(1, 1, 1), iu(0, 0, 0)];
    let mut ctx = started(
        vec![shared(&[], PROGRAM, 1, 7), shared(&[], PROGRAM, 2, 8)],
        &ius,
        &[9],
    );
    let ic = ctx.get_current_instruction_context().duplicate();
    let (bytes, metas) = serialize_parameters(&ctx, &ic).unwrap();
    assert_eq!(deserialize_parameters(&mut ctx, &ic, &bytes, &metas), Ok(()));
    assert_eq!(ctx.get_utxo(0).unwrap().get_data(), &[] as &[u8]);
    assert_eq!(ctx.get_utxo(1).unwrap().get_authority(), &Pubkey::from_array(PROGRAM));
}

#[test]
fn later_utxo_is_read_back_from_its_own_entry() {
    let ius = [iu(0, 0, 0), iu(1, 1, 1)];
    let mut ctx = started(
        vec![shared(&[1, 2, 3], PROGRAM, 1, 7), shared(&[4, 5], PROGRAM, 2, 8)],
        &ius,
        &[],
    );
    let ic = ctx.get_current_instruction_context().duplicate();
    let (mut bytes, metas) = serialize_parameters(&ctx, &ic).unwrap();
    let data_at = (metas[1].vm_data_addr - 0x4_0000_0000) as usize;
    bytes[data_at + 1] = 77;
    let auth_at = (metas[1].vm_authority_addr - 0x4_0000_0000) as usize;
    bytes[auth_at..auth_at + 32].copy_from_slice(&[6u8; 32]);
    assert_eq!(deserialize_parameters(&mut ctx, &ic, &bytes, &metas), Ok(()));
    assert_eq!(ctx.get_utxo(0).unwrap().get_data(), &[1, 2, 3]);
    assert_eq!(ctx.get_utxo(1).unwrap().get_data(), &[4, 77]);
    assert_eq!(ctx.get_utxo(1).unwrap().get_authority(), &Pubkey::from_array([6u8; 32]));
}

#[test]
fn changed_data_is_read_back() {
    let ius = [iu(0, 0, 0)];
    let mut ctx = started(vec![shared(&[1, 2, 3], PROGRAM, 1, 7)], &ius, &[]);
    let ic = ctx.get_current_instruction_context().duplicate();
    let (mut bytes, metas) = serialize_parameters(&ctx, &ic).unwrap();
    let at = (metas[0].vm_data_addr - 0x4_0000_0000) as usize;
    bytes[at] = 42;
    assert_eq!(deserialize_parameters(&mut ctx, &ic, &bytes, &metas), Ok(()));
    assert_eq!(ctx.get_utxo(0).unwrap().get_data(), &[42, 2, 3]);
}

#[test]
fn borrowed_utxo_permissions() {
    let mut ctx = started(
        vec![shared(&[1, 2], PROGRAM, 1, 0), shared(&[1, 2], [6u8; 32], 2, 0)],
        &[iu(0, 0, 0), iu(1, 1, 1)],
        &[],
    );
    let ic = ctx.get_current_instruction_context().duplicate();
    let mut own = ic.try_borrow_instruction_utxo(&mut ctx, 0).unwrap();
    let mut foreign = ic.try_borrow_instruction_utxo(&mut ctx, 1).unwrap();
    assert!(own.is_owned_by_current_utxo());
    assert_eq!(own.set_data_from_slice(&[7, 7, 7]), Ok(()));
    assert_eq!(own.get_data(), &[7, 7, 7]);
    assert_eq!(foreign.can_data_be_resized(3), Err(InstructionError::AccountDataSizeChanged));
    assert_eq!(foreign.can_data_be_changed(), Err(InstructionError::ExternalAccountDataModified));
    assert_eq!(foreign.set_authority(&PROGRAM), Err(InstructionError::ModifiedProgramId));
    assert_eq!(own.set_authority(&[6u8; 32]), Ok(()));
    assert!(!own.is_owned_by_current_utxo());
    assert_eq!(
        ic.try_borrow_instruction_utxo(&mut ctx, 2).err(),
        Some(InstructionError::NotEnoughAccountKeys)
    );
}

#[test]
fn a_utxo_is_lent_out_once_until_it_comes_back() {
    let mut ctx = started(vec![shared(&[1, 2], PROGRAM, 1, 0)], &[iu(0, 0, 0), iu(0, 0, 0)], &[]);
    let ic = ctx.get_current_instruction_context().duplicate();
    assert!(!ctx.is_borrowed(0));
    let mut first = ic.try_borrow_instruction_utxo(&mut ctx, 0).unwrap();
    assert!(ctx.is_borrowed(0));
    assert_eq!(
        ic.try_borrow_instruction_utxo(&mut ctx, 1).err(),
        Some(InstructionError::AccountBorrowFailed)
    );
    first.set_data_from_slice(&[3]).unwrap();
    ctx.return_utxo(first);
    assert!(!ctx.is_borrowed(0));
    let again = ic.try_borrow_instruction_utxo(&mut ctx, 1).unwrap();
    assert_eq!(again.get_data(), &[3]);
    // Laying out an input is refused while one of its UTXOs is lent out.
    assert!(!is_serializable(&ctx, &ic));
    ctx.return_utxo(again);
    assert!(is_serializable(&ctx, &ic));
}

#[test]
fn allocator_hands_out_aligned_disjoint_blocks() {
    let mut heap = BpfAllocator::new(64);
    let a = heap.allocate(10, 8).unwrap();
    let b = heap.allocate(8, 8).unwrap();
    assert_eq!(a, 0x3_0000_0000);
    assert_eq!(b, 0x3_0000_0000 + 16);
    assert_eq!(heap.allocate(64, 1), Err(AllocErr));
}

#[test]
fn invoke_context_runs_an_instruction_frame() {
    let ctx = context_with(vec![shared(&[1], PROGRAM, 1, 0)]);
    let mut invoke = InvokeContext::new(ctx, 100);
    invoke.consume(30);
    assert_eq!(invoke.get_remaining(), 70);
    invoke.consume(100);
    assert_eq!(invoke.get_remaining(), 0);
    assert_eq!(invoke.process_instruction_begin(&[1], &[iu(0, 0, 0)], &PROGRAM), Ok(()));
    assert!(invoke.get_syscall_context().is_err());
    let syscall = SyscallContext {
        allocator: BpfAllocator::new(32),
        accounts_metadata: Vec::new(),
        trace_log: Vec::new(),
    };
    assert_eq!(invoke.set_syscall_context(syscall), Ok(()));
    assert_eq!(invoke.alloc_free(8, 0), Ok(0x3_0000_0000));
    assert_eq!(invoke.alloc_free(8, 5), Ok(0));
    assert_eq!(invoke.alloc_free(100, 0), Ok(0));
    invoke.get_syscall_context_mut().unwrap().trace_log.push([7; 12]);
    assert_eq!(invoke.get_syscall_context().unwrap().trace_log, vec![[7u64; 12]]);
    let instruction = StableInstruction {
        utxos: vec![<UtxoSharedData as UtxoIdentity>::processor(&[1; 32], 0)],
        data: vec![],
        program_id: Pubkey::from_array(PROGRAM),
    };
    assert_eq!(invoke.prepare_instruction(&instruction), Ok(vec![iu(0, 0, 0)]));
    let missing = StableInstruction {
        utxos: vec![<UtxoSharedData as UtxoIdentity>::processor(&[2; 32], 0)],
        data: vec![],
        program_id: Pubkey::from_array(PROGRAM),
    };
    assert_eq!(invoke.prepare_instruction(&missing), Err(InstructionError::MissingAccount));
    assert_eq!(invoke.process_instruction_end(Ok(())), Ok(()));
    assert_eq!(
        invoke.process_instruction_end(Err(InstructionError::InvalidArgument)),
        Err(InstructionError::InvalidArgument)
    );
}

#[test]
fn program_side_utxo_reallocates_within_its_room() {
    let mut u = UtxoInfo::new(vec![1, 2, 3], Pubkey::from_array(PROGRAM), [1; 32], 0);
    assert_eq!(u.data_len(), 3);
    assert!(!u.data_is_empty());
    assert_eq!(u.realloc(5, true), Ok(()));
    assert_eq!(u.try_borrow_data().unwrap(), &[1, 2, 3, 0, 0]);
    assert_eq!(u.realloc(1, false), Ok(()));
    assert_eq!(u.try_borrow_data().unwrap(), &[1]);
    assert_eq!(u.realloc(3 + 10240 + 1, false), Err(ProgramError::InvalidRealloc));
    u.try_borrow_mut_data().unwrap()[0] = 9;
    assert_eq!(u.try_borrow_data().unwrap(), &[9]);
    u.assign(&Pubkey::from_array([5; 32]));
    assert_eq!(u.authority(), &Pubkey::from_array([5; 32]));
    assert_eq!(u.original_data_len(), 3);
}

#[test]
fn instruction_context_queries() {
    let ctx = started(
        vec![shared(&[], PROGRAM, 1, 0), shared(&[], PROGRAM, 2, 0)],
        &[iu(1, 1, 0), iu(0, 0, 1), iu(1, 1, 0)],
        &[4],
    );
    let ic: &InstructionContext = ctx.get_current_instruction_context();
    assert_eq!(ic.get_number_of_instruction_utxos(), 3);
    assert_eq!(ic.is_instruction_utxo_duplicate(2), Ok(Some(0)));
    assert_eq!(ic.is_instruction_utxo_duplicate(1), Ok(None));
    assert_eq!(ic.get_index_of_instruction_utxo_in_transaction(1), Ok(0));
    assert_eq!(
        ic.get_index_of_instruction_utxo_in_transaction(3),
        Err(InstructionError::NotEnoughAccountKeys)
    );
    let id = <UtxoSharedData as UtxoIdentity>::processor(&[1; 32], 0);
    assert_eq!(ic.find_index_of_instruction_account(&ctx, &id), Some(1));
    assert_eq!(ctx.find_index_of_utxo(&id), Some(0));
}

#[test]
fn layout_is_checked_before_serializing_and_reading_back() {
    let ius = [iu(0, 0, 0), iu(1, 1, 1), iu(0, 0, 0)];
    let ctx = started(
        vec![shared(&[1, 2, 3], PROGRAM, 1, 7), shared(&[], [4u8; 32], 2, 8)],
        &ius,
        &[5, 6],
    );
    let ic = ctx.get_current_instruction_context().duplicate();
    assert!(is_serializable(&ctx, &ic));
    let (bytes, metas) = serialize_parameters(&ctx, &ic).unwrap();
    assert!(read_back_fits(&ctx, &ic, &bytes, &metas));
    // The first length field is cut short.
    assert!(!read_back_fits(&ctx, &ic, &bytes[..60], &metas));
    // The first length field would start past the end: reading stops there.
    assert!(read_back_fits(&ctx, &ic, &bytes[..50], &metas));
    let mut short = started(
        vec![shared(&[1, 2, 3], PROGRAM, 1, 7), shared(&[], [4u8; 32], 2, 8)],
        &ius,
        &[5, 6],
    );
    assert_eq!(
        deserialize_parameters(&mut short, &ic, &bytes[..50], &metas),
        Err(InstructionError::InvalidArgument)
    );

    // Whatever the program writes, reading back does not abort.
    let mut garbled = bytes.clone();
    garbled[56..64].copy_from_slice(&u64::MAX.to_le_bytes());
    assert!(read_back_fits(&ctx, &ic, &garbled, &metas));
    let mut target = started(
        vec![shared(&[1, 2, 3], PROGRAM, 1, 7), shared(&[], [4u8; 32], 2, 8)],
        &ius,
        &[5, 6],
    );
    assert_eq!(
        deserialize_parameters(&mut target, &ic, &garbled, &metas),
        Err(InstructionError::InvalidRealloc)
    );

    let two = || vec![shared(&[1], PROGRAM, 1, 0), shared(&[2], PROGRAM, 2, 0)];
    let forward = started(two(), &[iu(0, 0, 1), iu(1, 1, 1)], &[]);
    assert!(!is_serializable(&forward, forward.get_current_instruction_context()));
    let unknown = started(two(), &[iu(5, 0, 0)], &[]);
    assert!(!is_serializable(&unknown, unknown.get_current_instruction_context()));
    let twice = started(two(), &[iu(0, 0, 0), iu(0, 1, 1)], &[]);
    assert!(!is_serializable(&twice, twice.get_current_instruction_context()));
}

#[test]
fn program_side_utxo_has_room_to_grow() {
    let u = UtxoInfo::new(vec![1, 2, 3], Pubkey::from_array(PROGRAM), [1; 32], 0);
    assert_eq!(u.room(), 3 + entrypoint::MAX_PERMITTED_DATA_INCREASE);
}

#[test]
fn program_changes_stored_into_the_input_reach_the_runtime() {
    let ius = [iu(0, 0, 0)];
    let mut ctx = started(vec![shared(&[1, 2, 3], PROGRAM, 1, 7)], &ius, &[]);
    let ic = ctx.get_current_instruction_context().duplicate();
    let (mut bytes, metas) = serialize_parameters(&ctx, &ic).unwrap();
    let (_, mut utxos, _, _, offsets) = entrypoint::deserialize(&bytes).unwrap();
    assert_eq!(utxos[0].realloc(5, true), Ok(()));
    utxos[0].try_borrow_mut_data().unwrap()[4] = 9;
    utxos[0].assign(&Pubkey::from_array([6; 32]));
    utxos[0].store(&mut bytes, offsets[0]);
    assert_eq!(&bytes[56..64], &5u64.to_le_bytes());
    assert_eq!(deserialize_parameters(&mut ctx, &ic, &bytes, &metas), Ok(()));
    assert_eq!(ctx.get_utxo(0).unwrap().get_data(), &[1, 2, 3, 0, 9]);
    assert_eq!(ctx.get_utxo(0).unwrap().get_authority(), &Pubkey::from_array([6; 32]));
}

#[test]
fn too_many_utxos_are_refused_whatever_is_lent() {
    let mut ius = vec![iu(0, 0, 0)];
    for _ in 0..256 {
        ius.push(iu(0, 0, 0));
    }
    let mut ctx = started(vec![shared(&[1], PROGRAM, 1, 0)], &ius, &[]);
    let ic = ctx.get_current_instruction_context().duplicate();
    let _lent = ic.try_borrow_instruction_utxo(&mut ctx, 0).unwrap();
    assert_eq!(serialize_parameters(&ctx, &ic).err(), Some(InstructionError::MaxAccountsExceeded));
}
