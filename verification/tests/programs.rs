use rbpf_runtime::bridge::{
    handler, instruction_kind, BridgeError, BridgeInstruction, BridgePegInParams, BridgePegOutParams,
    BridgeState, InitBridgeParams, Vault,
};
use rbpf_runtime::runtime::context::{InstructionUtxo, TransactionContext, UtxoSharedData};
use rbpf_runtime::runtime::cpi::{
    translate, translate_account_infos, SyscallInvokeSignedRust, translate_and_update_accounts, update_caller_account,
    update_caller_accounts, CallerAccount, UtxoInfoAddresses, VmValue,
};
use rbpf_runtime::runtime::errors::{InstructionError, SyscallError};
use rbpf_runtime::runtime::memory::{AccessType, GuestMemory, MemoryError, MemoryRegion};
use rbpf_runtime::runtime::message::{program_key, LogCollector, MessageProcessor};
use rbpf_runtime::runtime::serialization::SerializedUtxoMetadata;
use rbpf_runtime::types::{Instruction, Pubkey, UtxoIdentity, UtxoMeta};
use rbpf_runtime::vm_input;

const PROGRAM: [u8; 32] = [3u8; 32];

enum LocalValue<'a, T> {
    Translated(&'a mut T),
}

impl<'a, T> LocalValue<'a, T> {
    fn get(&self) -> Result<&T, String> {
        match self {
            LocalValue::Translated(addr) => Ok(*addr),
        }
    }

    fn get_mut(&mut self) -> Result<&mut T, String> {
        match self {
            LocalValue::Translated(addr) => Ok(*addr),
        }
    }
}

#[test]
fn test() {
    let mut b = 64_u64;
    let mut value = LocalValue::Translated(&mut b);
    assert_eq!(*value.get().unwrap(), 64);
    *value.get_mut().unwrap() = 65;
    assert_eq!(b, 65);
}

/// A caller's guest memory: its authority, the reference to its data, the
/// length field before the data, the data with room to grow, and the
/// identity fields of the UTXO.
fn caller_memory(data: &[u8]) -> (GuestMemory, UtxoInfoAddresses) {
    let mut host = vec![0u8; 256];
    host[0..32].copy_from_slice(&PROGRAM);
    host[0x20..0x28].copy_from_slice(&0x1040u64.to_le_bytes());
    host[0x28..0x30].copy_from_slice(&(data.len() as u64).to_le_bytes());
    host[0x38..0x40].copy_from_slice(&(data.len() as u64).to_le_bytes());
    host[0x40..0x40 + data.len()].copy_from_slice(data);
    host[0x60..0x80].copy_from_slice(&[1u8; 32]);
    host[0x80..0x84].copy_from_slice(&0u32.to_le_bytes());
    let regions = vec![MemoryRegion { vm_addr: 0x1000, len: 256, host_offset: 0, writable: true }];
    let addresses = UtxoInfoAddresses { authority: 0x1000, data: 0x1020, txid: 0x1060, vout: 0x1080 };
    (GuestMemory { regions, host }, addresses)
}

fn running_context(data: &[u8]) -> TransactionContext {
    let utxo = UtxoSharedData::create(data.to_vec(), Pubkey::from_array(PROGRAM), [1; 32], 0);
    let id = <UtxoSharedData as UtxoIdentity>::processor(&[1; 32], 0);
    let mut ctx = TransactionContext::new(vec![(id, utxo)], 4, 8);
    let ius = [InstructionUtxo { index_in_transaction: 0, index_in_caller: 0, index_in_callee: 0 }];
    ctx.configure_next_instruction_context(&[], &ius, &PROGRAM);
    ctx.push().unwrap();
    ctx
}

#[test]
fn translate_resolves_guest_ranges() {
    let (mem, _) = caller_memory(&[1, 2, 3]);
    assert_eq!(translate(&mem, AccessType::Load, 0x1040, 3), Ok(0x40));
    assert_eq!(
        translate(&mem, AccessType::Load, 0x10f0, 32),
        Err(MemoryError::AccessViolation(AccessType::Load, 0x10f0, 32))
    );
}

#[test]
fn caller_view_is_read_from_guest_memory() {
    let (mem, addresses) = caller_memory(&[1, 2, 3]);
    let account = CallerAccount::from_utxo_info(&mem, &addresses, 3).unwrap();
    assert_eq!(
        account,
        CallerAccount {
            authority: 0,
            original_data_len: 3,
            serialized_data: 0x40,
            serialized_data_len: 3,
            vm_data_addr: 0x1040,
            ref_to_len_in_vm: VmValue::Translated(0x28),
        }
    );
    assert!(account.fits_in(mem.host.len()));
    assert!(!account.fits_in(0x42));
    assert!(!CallerAccount { ref_to_len_in_vm: VmValue::Translated(u64::MAX), ..account }.fits_in(mem.host.len()));
    let keys = translate_account_infos(&mem, &[addresses]).unwrap();
    assert_eq!(keys, vec![<UtxoSharedData as UtxoIdentity>::processor(&[1; 32], 0)]);
    let misaligned = UtxoInfoAddresses { data: 0x1021, ..addresses };
    assert_eq!(
        CallerAccount::from_utxo_info(&mem, &misaligned, 3),
        Err(SyscallError::UnalignedPointer)
    );
}

#[test]
fn cross_program_call_synchronises_both_ways() {
    let (mut mem, addresses) = caller_memory(&[9, 9, 9]);
    let mut ctx = running_context(&[1, 2, 3]);
    let ic = ctx.get_current_instruction_context().duplicate();
    let keys = translate_account_infos(&mem, &[addresses]).unwrap();
    let metas = [SerializedUtxoMetadata { original_data_len: 3, vm_data_addr: 0, vm_authority_addr: 0 }];
    let ius = [InstructionUtxo { index_in_transaction: 0, index_in_caller: 0, index_in_callee: 0 }];
    let mut accounts =
        translate_and_update_accounts(&mut ctx, &ic, &mem, &ius, &keys, &[addresses], &metas).unwrap();
    assert_eq!(accounts.len(), 1);
    assert_eq!(ctx.get_utxo(0).unwrap().get_data(), &[9, 9, 9]);

    let mut callee = ic.try_borrow_instruction_utxo(&mut ctx, 0).unwrap();
    callee.set_data_from_slice(&[4, 5, 6, 7, 8]).unwrap();
    ctx.return_utxo(callee);

    assert_eq!(update_caller_accounts(&ctx, &ic, &mut mem, &mut accounts), Ok(()));
    assert_eq!(&mem.host[0x40..0x45], &[4, 5, 6, 7, 8]);
    assert_eq!(&mem.host[0x28..0x30], &5u64.to_le_bytes());
    assert_eq!(&mem.host[0x38..0x40], &5u64.to_le_bytes());
    assert_eq!(accounts[0].1.serialized_data_len, 5);
}

#[test]
fn caller_may_not_grow_past_the_permitted_increase() {
    let (mut mem, addresses) = caller_memory(&[1, 2, 3]);
    let mut account = CallerAccount::from_utxo_info(&mem, &addresses, 3).unwrap();
    let mut ctx = running_context(&[1, 2, 3]);
    let ic = ctx.get_current_instruction_context().duplicate();
    let mut callee = ic.try_borrow_instruction_utxo(&mut ctx, 0).unwrap();
    callee.set_data_from_slice(&vec![0u8; 3 + 10240 + 1]).unwrap();
    ctx.return_utxo(callee);
    let callee = ic.try_borrow_instruction_utxo(&mut ctx, 0).unwrap();
    assert_eq!(
        update_caller_account(&mut mem, &mut account, &callee),
        Err(SyscallError::Instruction(InstructionError::InvalidRealloc))
    );
}

#[test]
fn caller_shrink_zeroes_the_released_bytes() {
    let (mut mem, addresses) = caller_memory(&[1, 2, 3, 4]);
    let mut account = CallerAccount::from_utxo_info(&mem, &addresses, 4).unwrap();
    let mut ctx = running_context(&[1, 2, 3, 4]);
    let ic = ctx.get_current_instruction_context().duplicate();
    let mut callee = ic.try_borrow_instruction_utxo(&mut ctx, 0).unwrap();
    callee.set_data_from_slice(&[7]).unwrap();
    ctx.return_utxo(callee);
    let callee = ic.try_borrow_instruction_utxo(&mut ctx, 0).unwrap();
    assert_eq!(update_caller_account(&mut mem, &mut account, &callee), Ok(()));
    assert_eq!(&mem.host[0x40..0x44], &[7, 0, 0, 0]);
    assert_eq!(account.serialized_data_len, 1);
}

#[test]
fn message_instruction_utxos_point_repeats_to_the_first() {
    let instruction = Instruction {
        program_id: Pubkey::from_array(PROGRAM),
        utxos: vec![3, 5, 3, 7, 5],
        data: vec![],
    };
    let ius = MessageProcessor::instruction_utxos(&instruction).unwrap();
    let callees: Vec<usize> = ius.iter().map(|u| u.index_in_callee).collect();
    assert_eq!(callees, vec![0, 1, 0, 3, 1]);
    assert_eq!(ius[3].index_in_transaction, 7);
    assert_eq!(ius[3].index_in_caller, 7);
}

#[test]
fn program_key_is_the_double_digest() {
    let id = [0u8; 32];
    let expected = sha256::digest(sha256::digest(&id[..]));
    assert_eq!(program_key(&id), expected);
    assert_ne!(program_key(&id), sha256::digest(&id[..]));
    assert_eq!(program_key(&id).len(), 64);
}

#[test]
fn log_collector_starts_empty_with_a_limit() {
    let log = LogCollector::default();
    assert!(log.messages.is_empty());
    assert_eq!(log.bytes_limit, Some(10000));
    assert_eq!(log.bytes_written, 0);
}

#[test]
fn vm_input_payload_and_tables() {
    assert_eq!(vm_input::input_payload(&[3, 0, 0, 0, 7, 8, 9, 10]), Some(vec![7, 8, 9]));
    assert_eq!(vm_input::input_payload(&[9, 0, 0, 0, 7]), None);
    let instruction = vm_input::Instruction {
        program_id: vm_input::Pubkey::from_array(PROGRAM),
        utxos: vec![UtxoMeta { txid: String::from("aa"), vout: 1 }],
        data: vec![5],
    };
    let authorities = vec![(String::from("aa:1"), vec![1u8; 32])];
    let data = vec![(String::from("bb:1"), vec![0]), (String::from("aa:1"), vec![2, 3])];
    assert!(vm_input::has_unique_keys(&authorities) && vm_input::has_unique_keys(&data));
    let twice = vec![(String::from("aa:1"), vec![0]), (String::from("aa:1"), vec![1])];
    assert!(!vm_input::has_unique_keys(&twice));
    let (pid, utxos, ins) = vm_input::deserialize(instruction, &authorities, &data);
    assert_eq!(pid, vm_input::Pubkey(PROGRAM.to_vec()));
    assert_eq!(ins, vec![5]);
    assert_eq!(utxos.len(), 1);
    assert_eq!(utxos[0].id(), "aa:1");
    assert_eq!(utxos[0].authority.0, vec![1u8; 32]);
    assert_eq!(utxos[0].data, vec![2, 3]);
}

#[test]
fn bridge_dispatch_byte() {
    assert_eq!(instruction_kind(&[0, 9]), Ok(0));
    assert_eq!(instruction_kind(&[2]), Ok(2));
    assert_eq!(instruction_kind(&[3]), Err(BridgeError::InvalidInstruction));
}

#[test]
fn bridge_init_and_pegin() {
    let program_id = Pubkey::from_array(PROGRAM);
    let init = InitBridgeParams { fee_txid: String::from("fee"), fee_vout: 1 };
    let (state, tx) = match handler(&program_id, BridgeState { vaults: vec![] }, BridgeInstruction::InitBridge(init)) {
        Ok((Some(state), tx)) => (state, tx),
        _ => panic!("init must succeed"),
    };
    assert!(state.vaults.is_empty());
    assert_eq!(tx.version, 2);
    assert_eq!(tx.input.len(), 1);
    assert_eq!(tx.input[0].txid, "fee");
    assert_eq!(tx.input[0].script_sig, PROGRAM.to_vec());
    assert!(tx.output.is_empty());

    let pegin = BridgePegInParams {
        token: String::from("btc"),
        amount: 50,
        receiver_address: String::from("addr"),
        txid: String::from("deposit"),
        vout: 2,
        fee_txid: String::from("fee2"),
        fee_vout: 0,
    };
    let (state, tx) = match handler(&program_id, state, BridgeInstruction::PegIn(pegin)) {
        Ok((Some(state), tx)) => (state, tx),
        _ => panic!("pegin must succeed"),
    };
    assert_eq!(
        state.vaults,
        vec![Vault {
            token: String::from("btc"),
            amount: 50,
            receiver_address: String::from("addr"),
            sent_at: 0,
            txid: String::from("deposit"),
            vout: 2,
        }]
    );
    assert_eq!(tx.input[0].txid, "fee2");
}

#[test]
fn bridge_pegout_pays_the_receiver_script() {
    let program_id = Pubkey::from_array(PROGRAM);
    let params = BridgePegOutParams {
        txid: String::from("vault"),
        vout: 0,
        value: 1000,
        receiver_address: String::from("1BvBMSEYstWetqTFn5Au4m4GFg7xJaNVN2"),
        fee_txid: String::from("fee"),
        fee_vout: 3,
    };
    let tx = match handler(&program_id, BridgeState { vaults: vec![] }, BridgeInstruction::PegOut(params)) {
        Ok((None, tx)) => tx,
        _ => panic!("pegout must succeed"),
    };
    assert_eq!(tx.input.len(), 2);
    assert_eq!(tx.input[1].vout, 3);
    assert_eq!(tx.output[0].amount, 1000);
    let script = &tx.output[0].script_pubkey;
    assert_eq!(script.len(), 25);
    assert_eq!(&script[..3], &[0x76, 0xa9, 0x14]);
    assert_eq!(&script[23..], &[0x88, 0xac]);
}

#[test]
fn bridge_pegout_refuses_other_networks() {
    let program_id = Pubkey::from_array(PROGRAM);
    for address in ["mipcBbFg9gMiCh81Kj8tqqdgoZub1ZJRfn", "not an address"] {
        let params = BridgePegOutParams {
            txid: String::from("vault"),
            vout: 0,
            value: 1,
            receiver_address: String::from(address),
            fee_txid: String::from("fee"),
            fee_vout: 0,
        };
        assert!(matches!(
            handler(&program_id, BridgeState { vaults: vec![] }, BridgeInstruction::PegOut(params)),
            Err(BridgeError::InvalidAddress)
        ));
    }
}

#[test]
fn return_data_program_answers_hello() {
    let (data, result) =
        rbpf_runtime::bridge::process_instruction(&Pubkey::from_array(PROGRAM), &[], &[]);
    assert_eq!(data, b"Hello".to_vec());
    assert!(result.is_ok());
}

#[test]
fn vm_value_reads_and_writes_in_place() {
    let (mut mem, _) = caller_memory(&[1, 2, 3]);
    let value = VmValue::Translated(0x28);
    assert_eq!(value.get(&mem), Ok(3));
    assert_eq!(value.get_mut(&mut mem, 0x0102), Ok(()));
    assert_eq!(&mem.host[0x28..0x30], &0x0102u64.to_le_bytes());
    assert_eq!(value.get(&mem), Ok(0x0102));
}

#[test]
fn instruction_is_read_from_its_repr_c_layout() {
    let mut host = vec![0u8; 256];
    host[0..8].copy_from_slice(&0x1060u64.to_le_bytes());
    host[8..16].copy_from_slice(&1u64.to_le_bytes());
    host[16..24].copy_from_slice(&1u64.to_le_bytes());
    host[24..32].copy_from_slice(&0x10a0u64.to_le_bytes());
    host[32..40].copy_from_slice(&2u64.to_le_bytes());
    host[40..48].copy_from_slice(&2u64.to_le_bytes());
    host[48..80].copy_from_slice(&PROGRAM);
    host[0x60..0x80].copy_from_slice(&[1u8; 32]);
    host[0x80..0x84].copy_from_slice(&9u32.to_le_bytes());
    host[0xa0..0xa2].copy_from_slice(&[5, 6]);
    let mem = GuestMemory {
        regions: vec![MemoryRegion { vm_addr: 0x1000, len: 256, host_offset: 0, writable: false }],
        host,
    };
    let ix = SyscallInvokeSignedRust::translate_instruction(&mem, 0x1000).unwrap();
    assert_eq!(ix.program_id, Pubkey::from_array(PROGRAM));
    assert_eq!(ix.data, vec![5, 6]);
    assert_eq!(ix.utxos, vec![<UtxoSharedData as UtxoIdentity>::processor(&[1; 32], 9)]);
    assert_eq!(
        SyscallInvokeSignedRust::translate_instruction(&mem, 0x1004).err(),
        Some(SyscallError::UnalignedPointer)
    );
}

#[test]
fn framed_input_reads_back() {
    let framed = vm_input::frame_input(&[9, 8, 7]);
    assert_eq!(framed, vec![3, 0, 0, 0, 9, 8, 7]);
    assert_eq!(vm_input::input_payload(&framed), Some(vec![9, 8, 7]));
    assert_eq!(vm_input::input_payload(&vm_input::frame_input(&[])), Some(vec![]));
}

#[test]
fn translate_accounts_reads_keys_then_updates() {
    let (mem, addresses) = caller_memory(&[9, 9, 9]);
    let mut ctx = running_context(&[1, 2, 3]);
    let ic = ctx.get_current_instruction_context().duplicate();
    let metas = [SerializedUtxoMetadata { original_data_len: 3, vm_data_addr: 0, vm_authority_addr: 0 }];
    let ius = [InstructionUtxo { index_in_transaction: 0, index_in_caller: 0, index_in_callee: 0 }];
    let accounts =
        SyscallInvokeSignedRust::translate_accounts(&ius, &[addresses], &mem, &mut ctx, &ic, &metas).unwrap();
    assert_eq!(accounts.len(), 1);
    assert_eq!(accounts[0].0, 0);
    assert_eq!(ctx.get_utxo(0).unwrap().get_data(), &[9, 9, 9]);
    let unknown = UtxoInfoAddresses { txid: 0x1000, ..addresses };
    assert_eq!(
        SyscallInvokeSignedRust::translate_accounts(&ius, &[unknown], &mem, &mut ctx, &ic, &metas).err(),
        Some(SyscallError::InvalidLength)
    );
}
