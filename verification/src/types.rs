use std::collections::HashMap;

use vstd::prelude::*;
use vstd::string::*;

use crate::bytes::{le_bytes, u32_to_le};

verus! {

/// The identity of a UTXO: the 32 bytes of its transaction id followed by
/// the 4 little-endian bytes of its output index.
#[derive(Debug, PartialEq, Eq, Clone, Copy)]
pub struct UtxoId(pub [u8; 36]);

/// The bytes of the identity of the UTXO at output `vout` of transaction `txid`.
pub open spec fn spec_utxo_id(txid: Seq<u8>, vout: u32) -> Seq<u8> {
    txid + le_bytes(vout as nat, 4)
}

impl UtxoId {
    pub open spec fn bytes(&self) -> Seq<u8> {
        self.0@
    }

    /// Whether two identities hold the same bytes.
    pub fn same_as(&self, other: &UtxoId) -> (res: bool)
        ensures
            res == (self.bytes() == other.bytes()),
    {
        crate::bytes::bytes_eq(self.0.as_slice(), other.0.as_slice())
    }
}

impl From<[u8; 36]> for UtxoId {
    fn from(value: [u8; 36]) -> (res: UtxoId) {
        UtxoId(value)
    }
}

impl vstd::std_specs::convert::FromSpecImpl<[u8; 36]> for UtxoId {
    open spec fn obeys_from_spec() -> bool {
        true
    }

    open spec fn from_spec(value: [u8; 36]) -> UtxoId {
        UtxoId(value)
    }
}

/// Things that name a UTXO.
pub trait UtxoIdentity {
    fn utxo_id(&self) -> UtxoId;

    /// The identity of output `vout` of transaction `txn_id`.
    fn processor(txn_id: &[u8; 32], vout: u32) -> (res: UtxoId)
        ensures
            res.bytes() == spec_utxo_id(txn_id@, vout),
    {
        let mut result = [0u8; 36];
        let le = u32_to_le(vout);
        let mut i: usize = 0;
        while i < 32
            invariant
                i <= 32,
                forall|j: int| 0 <= j < i ==> result@[j] == txn_id@[j],
            decreases 32 - i,
        {
            result[i] = txn_id[i];
            i = i + 1;
        }
        while i < 36
            invariant
                32 <= i <= 36,
                forall|j: int| 0 <= j < 32 ==> result@[j] == txn_id@[j],
                forall|j: int| 32 <= j < i ==> result@[j] == le@[j - 32],
            decreases 36 - i,
        {
            result[i] = le[i - 32];
            i = i + 1;
        }
        assert(result@ =~= spec_utxo_id(txn_id@, vout));
        UtxoId(result)
    }
}

/// Two UTXOs have the same identity exactly when they have the same
/// transaction id and the same output index.
pub proof fn lemma_utxo_id_injective(t1: Seq<u8>, v1: u32, t2: Seq<u8>, v2: u32)
    requires
        t1.len() == 32,
        t2.len() == 32,
    ensures
        (spec_utxo_id(t1, v1) == spec_utxo_id(t2, v2)) <==> (t1 == t2 && v1 == v2),
{
    crate::bytes::lemma_le_bytes_len(v1 as nat, 4);
    crate::bytes::lemma_le_bytes_len(v2 as nat, 4);
    if spec_utxo_id(t1, v1) == spec_utxo_id(t2, v2) {
        assert(t1 =~= spec_utxo_id(t1, v1).subrange(0, 32));
        assert(t2 =~= spec_utxo_id(t2, v2).subrange(0, 32));
        assert(le_bytes(v1 as nat, 4) =~= spec_utxo_id(t1, v1).subrange(32, 36));
        assert(le_bytes(v2 as nat, 4) =~= spec_utxo_id(t2, v2).subrange(32, 36));
        reveal_with_fuel(crate::bytes::pow256, 5);
        assert(crate::bytes::pow256(4) == 0x1_0000_0000);
        crate::bytes::lemma_le_value_of_bytes(v1 as nat, 4);
        crate::bytes::lemma_le_value_of_bytes(v2 as nat, 4);
    }
}

/// A 32-byte public key that names a program or an authority.
#[derive(PartialEq, Debug, Clone, Eq, Hash, Copy)]
pub struct Pubkey(pub [u8; 32]);

impl Pubkey {
    pub fn from_array(arr: [u8; 32]) -> (res: Self)
        ensures
            res.0 == arr,
    {
        Pubkey(arr)
    }

    pub fn to_bytes(self) -> (res: [u8; 32])
        ensures
            res == self.0,
    {
        self.0
    }

    /// The key's bytes.
    pub fn as_slice(&self) -> (res: &[u8])
        ensures
            res@ == self.0@,
    {
        self.0.as_slice()
    }

    /// Whether two keys hold the same bytes.
    pub fn equals(&self, other: &Pubkey) -> (res: bool)
        ensures
            res == (self.0@ == other.0@),
    {
        crate::bytes::bytes_eq(self.0.as_slice(), other.0.as_slice())
    }
}

impl Default for Pubkey {
    fn default() -> (res: Pubkey)
        ensures
            res.0@ == Seq::new(32, |i: int| 0u8),
    {
        let res = Pubkey([0u8; 32]);
        assert(res.0@ =~= Seq::new(32, |i: int| 0u8));
        res
    }
}

/// A Bitcoin transaction that a program returns.
#[derive(PartialEq, Debug)]
pub struct Transaction {
    pub version: u32,
    pub input: Vec<TxIn>,
    pub output: Vec<TxOut>,
    pub lock_time: u32,
}

#[derive(PartialEq, Debug)]
pub struct TxIn {
    pub txid: String,
    pub vout: u32,
    pub script_sig: Vec<u8>,
    pub sequence: u32,
    pub witness: Vec<Vec<u8>>,
}

#[derive(PartialEq, Debug)]
pub struct TxOut {
    pub amount: u64,
    pub script_pubkey: Vec<u8>,
}

/// An instruction of a message: the program to run, the indices in the
/// transaction of the UTXOs it may touch, and its data.
#[derive(Clone, Debug, Eq, PartialEq)]
pub struct Instruction {
    pub program_id: Pubkey,
    pub utxos: Vec<u16>,
    pub data: Vec<u8>,
}

/// An instruction that a program passes to another program.
#[derive(Clone, Debug, Eq, PartialEq)]
pub struct ProgramInstruction {
    pub program_id: Pubkey,
    pub utxos: Vec<UtxoId>,
    pub data: Vec<u8>,
}

/// The form of an instruction that crosses into the runtime.
#[derive(Debug, PartialEq)]
pub struct StableInstruction {
    pub utxos: Vec<UtxoId>,
    pub data: Vec<u8>,
    pub program_id: Pubkey,
}

impl From<ProgramInstruction> for StableInstruction {
    fn from(other: ProgramInstruction) -> (res: StableInstruction) {
        StableInstruction { utxos: other.utxos, data: other.data, program_id: other.program_id }
    }
}

impl vstd::std_specs::convert::FromSpecImpl<ProgramInstruction> for StableInstruction {
    open spec fn obeys_from_spec() -> bool {
        true
    }

    open spec fn from_spec(other: ProgramInstruction) -> StableInstruction {
        StableInstruction { utxos: other.utxos, data: other.data, program_id: other.program_id }
    }
}

/// The transaction id and output index of a UTXO.
#[derive(Clone, Debug, Eq, PartialEq)]
pub struct UtxoMeta {
    pub txid: String,
    pub vout: u32,
}

/// The character of the decimal digit `d`.
pub open spec fn digit_char(d: nat) -> char {
    if d == 0 { '0' }
    else if d == 1 { '1' }
    else if d == 2 { '2' }
    else if d == 3 { '3' }
    else if d == 4 { '4' }
    else if d == 5 { '5' }
    else if d == 6 { '6' }
    else if d == 7 { '7' }
    else if d == 8 { '8' }
    else { '9' }
}

/// The decimal writing of `n`, without leading zeros.
pub open spec fn decimal(n: nat) -> Seq<char>
    decreases n,
{
    if n < 10 {
        seq![digit_char(n)]
    } else {
        decimal(n / 10) + seq![digit_char(n % 10)]
    }
}

/// The text `"<txid>:<vout>"` that names a UTXO.
pub open spec fn spec_meta_id(txid: Seq<char>, vout: u32) -> Seq<char> {
    txid + seq![':'] + decimal(vout as nat)
}

fn digit_str(d: u32) -> (res: &'static str)
    requires
        d < 10,
    ensures
        res@ == seq![digit_char(d as nat)],
{
    proof {
        reveal_strlit("0");
        reveal_strlit("1");
        reveal_strlit("2");
        reveal_strlit("3");
        reveal_strlit("4");
        reveal_strlit("5");
        reveal_strlit("6");
        reveal_strlit("7");
        reveal_strlit("8");
        reveal_strlit("9");
    }
    let r = if d == 0 { "0" }
    else if d == 1 { "1" }
    else if d == 2 { "2" }
    else if d == 3 { "3" }
    else if d == 4 { "4" }
    else if d == 5 { "5" }
    else if d == 6 { "6" }
    else if d == 7 { "7" }
    else if d == 8 { "8" }
    else { "9" };
    assert(r@ =~= seq![digit_char(d as nat)]);
    r
}

/// Appends the decimal writing of `v` to `s`.
pub fn push_decimal(s: &mut String, v: u32)
    ensures
        final(s)@ == old(s)@ + decimal(v as nat),
    decreases v,
{
    if v >= 10 {
        push_decimal(s, v / 10);
    }
    s.append(digit_str(v % 10));
    proof {
        if v < 10 {
            assert(decimal(v as nat) =~= seq![digit_char(v as nat)]);
        } else {
            assert(decimal(v as nat) == decimal((v / 10) as nat) + seq![digit_char((v % 10) as nat)]);
        }
    }
    assert(s@ =~= old(s)@ + decimal(v as nat));
}

/// The text `":"`.
fn colon() -> (res: &'static str)
    ensures
        res@ == seq![':'],
{
    proof {
        reveal_strlit(":");
    }
    ":"
}

impl UtxoMeta {
    /// The name `"<txid>:<vout>"` of this UTXO.
    pub fn id(&self) -> (res: String)
        ensures
            res@ == spec_meta_id(self.txid@, self.vout),
    {
        let mut s = self.txid.clone();
        s.append(colon());
        push_decimal(&mut s, self.vout);
        assert(s@ =~= spec_meta_id(self.txid@, self.vout));
        s
    }
}

#[derive(Clone, Debug, Eq, PartialEq)]
pub struct UnsignedTransaction {
    pub version: u32,
    pub inputs: Vec<Input>,
    pub outputs: Vec<Output>,
    pub locktime: u32,
}

#[derive(Clone, Debug, Eq, PartialEq)]
pub struct Input {
    pub txid: String,
    pub vout: u32,
    pub sequence: Option<u32>,
}

#[derive(Clone, Debug, Eq, PartialEq)]
pub struct Output {
    pub value: u64,
    pub address: String,
}

/// What a program receives: its instruction and, by UTXO name, the authority
/// and the data of each UTXO.
#[derive(Clone, Debug, Eq, PartialEq)]
pub struct VmInput {
    pub instruction: Instruction,
    pub authority: HashMap<String, Vec<u8>>,
    pub data: HashMap<String, Vec<u8>>,
}

#[derive(Debug)]
pub enum TransferInstruction {
    CpiTransfer(u64),
    ProgramTransfer(u64),
}

} // verus!
