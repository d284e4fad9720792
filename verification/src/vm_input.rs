//! The input of a program in the test runtime's own format: a 4-byte length,
//! then the instruction with the UTXOs it names, and two tables that give the
//! authority and the data of each UTXO under its name `"<txid>:<vout>"`.
use vstd::prelude::*;
use crate::bytes::{le_bytes, le_value, push_bytes, push_u32_le, read_le_at};
use crate::types::{UtxoMeta, spec_meta_id};

verus! {

/// A program key as the test runtime carries it.
#[derive(Clone, Debug, Eq, PartialEq)]
pub struct Pubkey(pub Vec<u8>);

impl Pubkey {
    pub fn from_array(arr: [u8; 32]) -> (res: Self)
        ensures
            res.0@ == arr@,
    {
        Pubkey(vstd::slice::slice_to_vec(arr.as_slice()))
    }
}

/// A UTXO handed to a program: its name, its authority and its data.
pub struct UtxoInfo {
    pub txid: String,
    pub vout: u32,
    pub authority: Pubkey,
    pub data: Vec<u8>,
}

impl UtxoInfo {
    /// The name `"<txid>:<vout>"` of this UTXO.
    pub fn id(&self) -> (res: String)
        ensures
            res@ == spec_meta_id(self.txid@, self.vout),
    {
        let meta = UtxoMeta { txid: self.txid.clone(), vout: self.vout };
        meta.id()
    }
}

/// An instruction as the test runtime hands it to a program.
pub struct Instruction {
    pub program_id: Pubkey,
    pub utxos: Vec<UtxoMeta>,
    pub data: Vec<u8>,
}

/// The bytes that the 4-byte length at the front of the input announces.
pub open spec fn payload_of(input: Seq<u8>) -> Option<Seq<u8>> {
    if input.len() < 4 {
        None
    } else {
        let size = le_value(input.subrange(0, 4)) as int;
        if input.len() < 4 + size {
            None
        } else {
            Some(input.subrange(4, 4 + size))
        }
    }
}

/// The encoded instruction and tables that follow the length at the front of
/// the input; `None` where the input is shorter than announced.
pub fn input_payload(input: &[u8]) -> (res: Option<Vec<u8>>)
    ensures
        match payload_of(input@) {
            None => res is None,
            Some(p) => res matches Some(v) && v@ == p,
        },
{
    if input.len() < 4 {
        return None;
    }
    let size = read_le_at(input, 0, 4);
    proof {
        reveal_with_fuel(crate::bytes::pow256, 5);
    }
    if size as usize > input.len() - 4 {
        return None;
    }
    let end = 4 + size as usize;
    Some(vstd::slice::slice_to_vec(vstd::slice::slice_subrange(input, 4, end)))
}

/// Puts the 4-byte little-endian length in front of an encoded payload.
pub fn frame_input(payload: &[u8]) -> (res: Vec<u8>)
    requires
        payload@.len() <= u32::MAX,
    ensures
        res@ == le_bytes(payload@.len(), 4) + payload@,
{
    let mut out: Vec<u8> = Vec::new();
    push_u32_le(&mut out, payload.len() as u32);
    push_bytes(&mut out, payload);
    out
}

/// Reading the payload of a framed input gives the payload back.
pub proof fn lemma_frame_round_trip(payload: Seq<u8>)
    requires
        payload.len() <= u32::MAX,
    ensures
        payload_of(le_bytes(payload.len(), 4) + payload) == Some(payload),
{
    let s = le_bytes(payload.len(), 4) + payload;
    crate::bytes::lemma_le_bytes_len(payload.len(), 4);
    reveal_with_fuel(crate::bytes::pow256, 5);
    crate::bytes::lemma_le_value_of_bytes(payload.len(), 4);
    assert(s.subrange(0, 4) =~= le_bytes(payload.len(), 4));
    assert(s.subrange(4, 4 + payload.len() as int) =~= payload);
}

/// The value stored under `key` in a table of named entries: the first entry
/// with that name.
pub open spec fn entry_for(entries: Seq<(String, Vec<u8>)>, key: Seq<char>) -> Option<Seq<u8>>
    decreases entries.len(),
{
    if entries.len() == 0 {
        None
    } else if entries[0].0@ == key {
        Some(entries[0].1@)
    } else {
        entry_for(entries.drop_first(), key)
    }
}

fn find_entry<'a>(entries: &'a [(String, Vec<u8>)], key: &String) -> (res: Option<&'a Vec<u8>>)
    ensures
        match entry_for(entries@, key@) {
            None => res is None,
            Some(v) => res matches Some(r) && r@ == v,
        },
{
    let mut k: usize = 0;
    assert(entries@.subrange(0, entries@.len() as int) =~= entries@);
    while k < entries.len()
        invariant
            k <= entries@.len(),
            entry_for(entries@, key@) == entry_for(entries@.subrange(k as int, entries@.len() as int), key@),
        decreases entries@.len() - k,
    {
        let ghost rest = entries@.subrange(k as int, entries@.len() as int);
        assert(rest.drop_first() =~= entries@.subrange(k + 1, entries@.len() as int));
        if entries[k].0 == *key {
            return Some(&entries[k].1);
        }
        k = k + 1;
    }
    None
}

/// No two entries of a table share a name, as in the map it stands for.
pub open spec fn keys_unique(entries: Seq<(String, Vec<u8>)>) -> bool {
    forall|i: int, j: int| 0 <= i < j < entries.len() ==> #[trigger] entries[i].0@ != #[trigger] entries[j].0@
}

/// Whether no two entries of a table share a name.
pub fn has_unique_keys(entries: &[(String, Vec<u8>)]) -> (res: bool)
    ensures
        res == keys_unique(entries@),
{
    let n = entries.len();
    let mut ok = true;
    let mut j: usize = 0;
    while j < n
        invariant
            n == entries@.len(),
            j <= n,
            ok == forall|a: int, b: int| 0 <= a < b < j ==> #[trigger] entries@[a].0@ != #[trigger] entries@[b].0@,
        decreases n - j,
    {
        let mut i: usize = 0;
        let mut row = true;
        while i < j
            invariant
                n == entries@.len(),
                j < n,
                i <= j,
                row == forall|a: int| 0 <= a < i ==> #[trigger] entries@[a].0@ != entries@[j as int].0@,
            decreases j - i,
        {
            if entries[i].0 == entries[j].0 {
                row = false;
            }
            i = i + 1;
        }
        proof {
            if !row {
                let a = choose|a: int| 0 <= a < j && !(#[trigger] entries@[a].0@ != entries@[j as int].0@);
                assert(!(entries@[a].0@ != entries@[j as int].0@));
            }
        }
        ok = ok && row;
        j = j + 1;
    }
    ok
}

/// In a table whose names are unique, the value under a name is the value
/// of the one entry with that name, wherever it stands.
pub proof fn lemma_unique_entry(entries: Seq<(String, Vec<u8>)>, k: int)
    requires
        keys_unique(entries),
        0 <= k < entries.len(),
    ensures
        entry_for(entries, entries[k].0@) == Some(entries[k].1@),
    decreases entries.len(),
{
    if k > 0 {
        let rest = entries.drop_first();
        assert(entries[0].0@ != entries[k].0@);
        assert(rest[k - 1] == entries[k]);
        assert(keys_unique(rest)) by {
            assert forall|i: int, j: int| 0 <= i < j < rest.len() implies #[trigger] rest[i].0@ != #[trigger] rest[j].0@ by {
                assert(rest[i] == entries[i + 1]);
                assert(rest[j] == entries[j + 1]);
            }
        }
        lemma_unique_entry(rest, k - 1);
    }
}

/// Every UTXO of the instruction has an authority and data in the tables.
pub open spec fn tables_cover(
    utxos: Seq<UtxoMeta>,
    authorities: Seq<(String, Vec<u8>)>,
    data: Seq<(String, Vec<u8>)>,
) -> bool {
    forall|i: int|
        0 <= i < utxos.len() ==> {
            &&& entry_for(authorities, spec_meta_id(#[trigger] utxos[i].txid@, utxos[i].vout)) is Some
            &&& entry_for(data, spec_meta_id(utxos[i].txid@, utxos[i].vout)) is Some
        }
}

/// Turns a decoded input into what a program works with: its id, a UTXO for
/// each UTXO the instruction names (with the authority and data that the
/// tables give under its name) and the instruction data. The tables stand for
/// maps: each name occurs once in them (see `lemma_unique_entry`).
pub fn deserialize(
    instruction: Instruction,
    authorities: &[(String, Vec<u8>)],
    data: &[(String, Vec<u8>)],
) -> (res: (Pubkey, Vec<UtxoInfo>, Vec<u8>))
    requires
        keys_unique(authorities@),
        keys_unique(data@),
        tables_cover(instruction.utxos@, authorities@, data@),
    ensures
        res.0.0@ == instruction.program_id.0@,
        res.2@ == instruction.data@,
        res.1@.len() == instruction.utxos@.len(),
        forall|i: int|
            0 <= i < res.1@.len() ==> {
                let m = instruction.utxos@[i];
                let u = #[trigger] res.1@[i];
                &&& u.txid@ == m.txid@
                &&& u.vout == m.vout
                &&& entry_for(authorities@, spec_meta_id(m.txid@, m.vout)) == Some(u.authority.0@)
                &&& entry_for(data@, spec_meta_id(m.txid@, m.vout)) == Some(u.data@)
            },
{
    let Instruction { program_id, utxos: metas, data: instruction_data } = instruction;
    let mut utxos: Vec<UtxoInfo> = Vec::new();
    let mut i: usize = 0;
    while i < metas.len()
        invariant
            i <= metas@.len(),
            tables_cover(metas@, authorities@, data@),
            utxos@.len() == i,
            forall|k: int|
                0 <= k < i ==> {
                    let m = metas@[k];
                    let u = #[trigger] utxos@[k];
                    &&& u.txid@ == m.txid@
                    &&& u.vout == m.vout
                    &&& entry_for(authorities@, spec_meta_id(m.txid@, m.vout)) == Some(u.authority.0@)
                    &&& entry_for(data@, spec_meta_id(m.txid@, m.vout)) == Some(u.data@)
                },
        decreases metas@.len() - i,
    {
        let meta = &metas[i];
        let id = meta.id();
        assert(entry_for(authorities@, spec_meta_id(metas@[i as int].txid@, metas@[i as int].vout)) is Some);
        let authority = match find_entry(authorities, &id) {
            Some(a) => a.clone(),
            None => Vec::new(),
        };
        let bytes = match find_entry(data, &id) {
            Some(d) => d.clone(),
            None => Vec::new(),
        };
        utxos.push(
            UtxoInfo { txid: meta.txid.clone(), vout: meta.vout, authority: Pubkey(authority), data: bytes },
        );
        i = i + 1;
    }
    (program_id, utxos, instruction_data)
}

} // verus!
