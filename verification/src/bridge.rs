//! A bridge program: it keeps a list of vaults in the data of its first UTXO
//! and answers each instruction with the Bitcoin transaction to broadcast.
//! The first byte of the instruction data selects the instruction: 0 sets up
//! the bridge, 1 records a peg-in, 2 pays a peg-out.
use std::str::FromStr;

use vstd::prelude::*;
use crate::types::{Pubkey, Transaction, TxIn, TxOut};
use crate::utxo_info::UtxoInfo;

verus! {

#[derive(Clone, Debug, Eq, PartialEq)]
pub struct InitBridgeParams {
    pub fee_txid: String,
    pub fee_vout: u32,
}

#[derive(Clone, Debug, Eq, PartialEq)]
pub struct Vault {
    pub token: String,
    pub amount: u64,
    pub receiver_address: String,
    pub sent_at: u64,
    pub txid: String,
    pub vout: u32,
}

#[derive(Clone, Debug, Eq, PartialEq)]
pub struct BridgeState {
    pub vaults: Vec<Vault>,
}

#[derive(Clone, Debug, Eq, PartialEq)]
pub struct BridgePegInParams {
    pub token: String,
    pub amount: u64,
    pub receiver_address: String,
    pub txid: String,
    pub vout: u32,
    pub fee_txid: String,
    pub fee_vout: u32,
}

#[derive(Clone, Debug, Eq, PartialEq)]
pub struct BridgePegOutParams {
    pub txid: String,
    pub vout: u32,
    pub value: u64,
    pub receiver_address: String,
    pub fee_txid: String,
    pub fee_vout: u32,
}

/// The instructions of the bridge, with their decoded parameters.
pub enum BridgeInstruction {
    InitBridge(InitBridgeParams),
    PegIn(BridgePegInParams),
    PegOut(BridgePegOutParams),
}

/// Why the bridge refused an instruction.
#[derive(Debug, Clone, Copy, PartialEq, Eq, Structural)]
pub enum BridgeError {
    /// The first byte of the instruction data names no instruction.
    InvalidInstruction,
    /// The receiver of a peg-out is not a Bitcoin mainnet address.
    InvalidAddress,
}

/// Which instruction the data selects: its first byte, when it is 0, 1 or 2.
pub fn instruction_kind(instruction_data: &[u8]) -> (res: Result<u8, BridgeError>)
    requires
        instruction_data@.len() > 0,
    ensures
        instruction_data@[0] <= 2 ==> res == Ok::<u8, BridgeError>(instruction_data@[0]),
        instruction_data@[0] > 2 ==> res == Err::<u8, BridgeError>(BridgeError::InvalidInstruction),
{
    let tag = instruction_data[0];
    if tag == 0 || tag == 1 || tag == 2 {
        Ok(tag)
    } else {
        Err(BridgeError::InvalidInstruction)
    }
}

/// The scriptPubKey that a Bitcoin mainnet address pays to, if the text is
/// one.
pub uninterp spec fn mainnet_script_pubkey(address: Seq<char>) -> Option<Seq<u8>>;

/// `bitcoin::Address::from_str`, then `require_network(Network::Bitcoin)`,
/// then `script_pubkey()`: the output script that pays the address, or
/// `None` where the text is not an address of the Bitcoin main network. Only
/// that the result is this function of the text is stated.
#[verifier::external_body]
fn script_pubkey_of(address: &str) -> (res: Option<Vec<u8>>)
    ensures
        match mainnet_script_pubkey(address@) {
            None => res is None,
            Some(s) => res matches Some(v) && v@ == s,
        },
{
    match bitcoin::Address::from_str(address) {
        Ok(unchecked) => match unchecked.require_network(bitcoin::Network::Bitcoin) {
            Ok(checked) => Some(checked.script_pubkey().as_bytes().to_vec()),
            Err(_) => None,
        },
        Err(_) => None,
    }
}

/// An input that spends output `vout` of `txid`, signed with the program id.
pub open spec fn program_input(txin: TxIn, txid: Seq<char>, vout: u32, program_id: Pubkey) -> bool {
    &&& txin.txid@ == txid
    &&& txin.vout == vout
    &&& txin.sequence == 0
    &&& txin.script_sig@ == program_id.0@
    &&& txin.witness@.len() == 0
}


/// What setting up the bridge gives: no vaults, and a transaction that only
/// spends the fee output.
pub open spec fn init_outcome(program_id: Pubkey, params: InitBridgeParams, s: BridgeState, t: Transaction) -> bool {
    &&& s.vaults@.len() == 0
    &&& t.version == 2
    &&& t.lock_time == 0
    &&& t.output@.len() == 0
    &&& t.input@.len() == 1
    &&& program_input(t.input@[0], params.fee_txid@, params.fee_vout, program_id)
}

/// What a peg-in gives: the vaults with a new one, not yet sent, for the
/// deposited output, and a transaction that only spends the fee output.
pub open spec fn pegin_outcome(
    program_id: Pubkey,
    old_state: BridgeState,
    params: BridgePegInParams,
    s: BridgeState,
    t: Transaction,
) -> bool {
    &&& s.vaults@.len() == old_state.vaults@.len() + 1
    &&& s.vaults@.subrange(0, old_state.vaults@.len() as int) == old_state.vaults@
    &&& ({
        let v = s.vaults@.last();
        &&& v.txid@ == params.txid@
        &&& v.vout == params.vout
        &&& v.token@ == params.token@
        &&& v.amount == params.amount
        &&& v.receiver_address@ == params.receiver_address@
        &&& v.sent_at == 0
    })
    &&& t.version == 2
    &&& t.lock_time == 0
    &&& t.output@.len() == 0
    &&& t.input@.len() == 1
    &&& program_input(t.input@[0], params.fee_txid@, params.fee_vout, program_id)
}

/// What a peg-out gives: a transaction that spends the vault output and the
/// fee output and pays `value` to the script of the receiver's address.
pub open spec fn pegout_outcome(program_id: Pubkey, params: BridgePegOutParams, t: Transaction) -> bool {
    &&& t.version == 2
    &&& t.lock_time == 0
    &&& t.input@.len() == 2
    &&& program_input(t.input@[0], params.txid@, params.vout, program_id)
    &&& program_input(t.input@[1], params.fee_txid@, params.fee_vout, program_id)
    &&& t.output@.len() == 1
    &&& t.output@[0].amount == params.value
    &&& Some(t.output@[0].script_pubkey@) == mainnet_script_pubkey(params.receiver_address@)
}

fn spend(txid: String, vout: u32, program_id: &Pubkey) -> (res: TxIn)
    ensures
        program_input(res, txid@, vout, *program_id),
{
    TxIn {
        txid,
        vout,
        sequence: 0,
        script_sig: vstd::slice::slice_to_vec(program_id.as_slice()),
        witness: Vec::new(),
    }
}

/// Sets up the bridge: an empty list of vaults, and a transaction that spends
/// the fee output.
pub fn init_bridge(program_id: &Pubkey, params: InitBridgeParams) -> (res: (BridgeState, Transaction))
    ensures
        init_outcome(*program_id, params, res.0, res.1),
{
    let bridge_state = BridgeState { vaults: Vec::new() };
    let ghost fee_txid = params.fee_txid@;
    let input = spend(params.fee_txid, params.fee_vout, program_id);
    let mut inputs: Vec<TxIn> = Vec::new();
    inputs.push(input);
    (bridge_state, Transaction { version: 2, input: inputs, output: Vec::new(), lock_time: 0 })
}

/// Records a peg-in: a vault for the deposited output, not yet sent, added
/// after the others; the transaction spends the fee output.
pub fn bridge_pegin(program_id: &Pubkey, bridge_state: BridgeState, params: BridgePegInParams) -> (res: (
    BridgeState,
    Transaction,
))
    ensures
        pegin_outcome(*program_id, bridge_state, params, res.0, res.1),
{
    let mut bridge_state = bridge_state;
    let ghost before = bridge_state.vaults@;
    bridge_state.vaults.push(
        Vault {
            txid: params.txid,
            vout: params.vout,
            token: params.token,
            amount: params.amount,
            receiver_address: params.receiver_address,
            sent_at: 0,
        },
    );
    assert(bridge_state.vaults@.subrange(0, before.len() as int) =~= before);
    let input = spend(params.fee_txid, params.fee_vout, program_id);
    let mut inputs: Vec<TxIn> = Vec::new();
    inputs.push(input);
    (bridge_state, Transaction { version: 2, input: inputs, output: Vec::new(), lock_time: 0 })
}

/// Pays a peg-out: the transaction spends the vault output and the fee
/// output, and pays `value` to the receiver's address.
pub fn bridge_pegout(program_id: &Pubkey, params: BridgePegOutParams) -> (res: Transaction)
    requires
        mainnet_script_pubkey(params.receiver_address@) is Some,
    ensures
        pegout_outcome(*program_id, params, res),
{
    let script = match script_pubkey_of(params.receiver_address.as_str()) {
        Some(s) => s,
        None => Vec::new(),
    };
    let first = spend(params.txid, params.vout, program_id);
    let second = spend(params.fee_txid, params.fee_vout, program_id);
    let mut inputs: Vec<TxIn> = Vec::new();
    inputs.push(first);
    inputs.push(second);
    let mut outputs: Vec<TxOut> = Vec::new();
    outputs.push(TxOut { amount: params.value, script_pubkey: script });
    Transaction { version: 2, input: inputs, output: outputs, lock_time: 0 }
}

/// Runs one bridge instruction on the current bridge state. An instruction
/// that sets up or changes the state gives the new state; a peg-out to text
/// that is not a Bitcoin mainnet address is refused.
pub fn handler(program_id: &Pubkey, bridge_state: BridgeState, instruction: BridgeInstruction) -> (res:
    Result<(Option<BridgeState>, Transaction), BridgeError>)
    ensures
        match instruction {
            BridgeInstruction::InitBridge(p) => res matches Ok((Some(s), t)) && init_outcome(
                *program_id,
                p,
                s,
                t,
            ),
            BridgeInstruction::PegIn(p) => res matches Ok((Some(s), t)) && pegin_outcome(
                *program_id,
                bridge_state,
                p,
                s,
                t,
            ),
            BridgeInstruction::PegOut(p) => match mainnet_script_pubkey(p.receiver_address@) {
                None => res == Err::<(Option<BridgeState>, Transaction), BridgeError>(
                    BridgeError::InvalidAddress,
                ),
                Some(_) => res matches Ok((None, t)) && pegout_outcome(*program_id, p, t),
            },
        },
{
    match instruction {
        BridgeInstruction::InitBridge(params) => {
            let (state, tx) = init_bridge(program_id, params);
            Ok((Some(state), tx))
        },
        BridgeInstruction::PegIn(params) => {
            let (state, tx) = bridge_pegin(program_id, bridge_state, params);
            Ok((Some(state), tx))
        },
        BridgeInstruction::PegOut(params) => {
            match script_pubkey_of(params.receiver_address.as_str()) {
                None => Err(BridgeError::InvalidAddress),
                Some(_) => Ok((None, bridge_pegout(program_id, params))),
            }
        },
    }
}

/// The entry of the program that answers with return data: it returns the
/// bytes of `"Hello"` for the runtime to store as its return data, and
/// succeeds.
pub fn process_instruction(key: &Pubkey, utxos: &[UtxoInfo], ins: &[u8]) -> (res: (Vec<u8>, Result<(), String>))
    ensures
        res.0@ == seq![72u8, 101u8, 108u8, 108u8, 111u8],
        res.1 is Ok,
{
    let hello: Vec<u8> = vec![72u8, 101u8, 108u8, 108u8, 111u8];
    (hello, Ok(()))
}

} // verus!
