use rbpf_runtime::program::{invoke_result, return_data_from, MAX_RETURN_DATA};
use rbpf_runtime::heap::{BumpAllocator, ProgramError, CALCULATION_ERROR, DEFAULT_ERROR};
use rbpf_runtime::host;
use rbpf_runtime::relative_call::{entrypoint, function_stack_ref, function_sum};
use rbpf_runtime::types::{Pubkey, UtxoId, UtxoIdentity, UtxoMeta};

struct TestStruct {
    pub txid: [u8; 32],
    pub vout: u32,
}

impl UtxoIdentity for TestStruct {
    fn utxo_id(&self) -> UtxoId {
        <TestStruct as UtxoIdentity>::processor(&self.txid, self.vout)
    }
}

#[test]
fn test_utxo_identity_trait() {
    let tester = TestStruct { txid: [1; 32], vout: 15 };
    let mut result = [0u8; 36];
    result[..tester.txid.len()].copy_from_slice(&tester.txid);
    result[tester.txid.len()..].copy_from_slice(&tester.vout.to_le_bytes());
    assert_eq!(tester.utxo_id(), result.into())
}

#[test]
fn utxo_id_puts_vout_little_endian_after_txid() {
    let id = <TestStruct as UtxoIdentity>::processor(&[7u8; 32], 0x0102_0304);
    assert_eq!(&id.0[..32], &[7u8; 32]);
    assert_eq!(&id.0[32..], &[4, 3, 2, 1]);
}

#[test]
fn utxo_meta_id_is_txid_colon_vout() {
    let meta = UtxoMeta { txid: String::from("abcd"), vout: 407 };
    assert_eq!(meta.id(), "abcd:407");
    let zero = UtxoMeta { txid: String::new(), vout: 0 };
    assert_eq!(zero.id(), ":0");
}

#[test]
fn pubkey_round_trips_through_array() {
    let key = Pubkey::from_array([9u8; 32]);
    assert_eq!(key.to_bytes(), [9u8; 32]);
    assert!(key.equals(&Pubkey::from_array([9u8; 32])));
    assert!(!key.equals(&Pubkey::from_array([8u8; 32])));
}

#[test]
fn bump_allocator_takes_blocks_from_the_top() {
    let heap = BumpAllocator { start: 0x1000, len: 0x100 };
    let mut pos: usize = 0;
    let a = heap.allocate(&mut pos, 16, 8);
    assert_eq!(a, 0x1100 - 16);
    assert_eq!(pos, a);
    let b = heap.allocate(&mut pos, 3, 4);
    assert_eq!(b, (a - 3) & !3);
    assert!(b + 3 <= a);
    assert_eq!(b % 4, 0);
}

#[test]
fn bump_allocator_refuses_to_reach_its_position_word() {
    let heap = BumpAllocator { start: 0x1000, len: 0x20 };
    let mut pos: usize = 0;
    let a = heap.allocate(&mut pos, 16, 8);
    assert_eq!(a, 0x1010);
    let before = pos;
    let b = heap.allocate(&mut pos, 16, 8);
    assert_eq!(b, 0);
    assert_eq!(pos, before);
}

#[test]
fn program_errors_sit_in_the_upper_half() {
    assert_eq!(u64::from(ProgramError::DefaultError), 1u64 << 32);
    assert_eq!(u64::from(ProgramError::CalculationError), 2u64 << 32);
    assert_eq!(DEFAULT_ERROR, 1u64 << 32);
    assert_eq!(CALCULATION_ERROR, 2u64 << 32);
}

#[test]
fn relative_call_entrypoint_returns_four() {
    let mut x: u8 = 9;
    assert_eq!(entrypoint(&mut x), 4);
    assert_eq!(x, 2);
    let mut stack = [5u64; 3];
    assert_eq!(function_stack_ref(&mut stack), 2);
    assert_eq!(stack, [2, 5, 5]);
    assert_eq!(function_sum(40, 2), 42);
}

#[test]
fn test_pubkey_gen() {
    assert!(host::new_rand().into_array().len() == 32);
}

#[test]
fn host_format_round_trips() {
    let pubkey = host::Pubkey::from_array([123; 32]);
    let utxo1 = host::UtxoInfo::random();
    let utxo2 = host::UtxoInfo::from_data([5; 32], 45, 44);
    let utxos = [utxo1, utxo2];
    let ins_data = [0_u8, 1, 2, 3, 4, 5, 6, 77];
    let data = host::serealize(pubkey, &utxos, ins_data.as_slice());
    assert_eq!(data.len(), 8 + 2 * 44 + 8 + 8 + 32);
    assert_eq!(&data[..8], &2u64.to_le_bytes());
    let (pid, read, ins) = host::deserialize(&data).unwrap();
    assert_eq!(pid, pubkey);
    assert_eq!(read, utxos.to_vec());
    assert_eq!(ins, ins_data.to_vec());
}

#[test]
fn host_format_puts_the_program_id_right_after_the_data() {
    let pubkey = host::Pubkey::from_array([1; 32]);
    let utxos = [host::UtxoInfo::random()];
    let data = host::serealize(pubkey, &utxos, &[1, 2, 3]);
    assert_eq!(data.len(), 8 + 44 + 8 + 3 + 32);
    let (pid, read, ins) = host::deserialize(&data).unwrap();
    assert_eq!(pid, pubkey);
    assert_eq!(read, utxos.to_vec());
    assert_eq!(ins, vec![1, 2, 3]);
    let one_byte = host::serealize(pubkey, &[], &[9]);
    let (pid, read, ins) = host::deserialize(&one_byte).unwrap();
    assert_eq!(pid, pubkey);
    assert!(read.is_empty());
    assert_eq!(ins, vec![9]);
    assert!(host::deserialize(&one_byte[..one_byte.len() - 1]).is_none());
}

#[test]
fn host_format_refuses_a_short_input() {
    assert!(host::deserialize(&[1, 0, 0]).is_none());
    assert!(host::deserialize(&[1, 0, 0, 0, 0, 0, 0, 0]).is_none());
}

#[test]
fn return_data_is_cut_to_the_buffer() {
    let mut buf = vec![0u8; MAX_RETURN_DATA];
    buf[0] = 7;
    buf[1] = 8;
    let key = rbpf_runtime::types::Pubkey::from_array([2; 32]);
    assert_eq!(return_data_from(0, &buf, key), None);
    assert_eq!(return_data_from(2, &buf, key), Some((key, vec![7, 8])));
    assert_eq!(return_data_from(5000, &buf, key).unwrap().1.len(), MAX_RETURN_DATA);
}

#[test]
fn a_call_succeeds_only_with_the_success_code() {
    assert_eq!(invoke_result(0), Ok(()));
    assert_eq!(invoke_result(0x1_0000_0000), Err(0x1_0000_0000));
}
