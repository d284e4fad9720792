//! A simple host format for handing a program its inputs: the number of
//! UTXOs, each UTXO as its transaction id, output index and value, the
//! instruction data with its length, and the program id.
use vstd::prelude::*;
use crate::bytes::{le_bytes, le_value, push_bytes, push_u32_le, push_u64_le, read_le_at, read_u64_le_at};

verus! {

/// A program key.
#[derive(Debug, Clone, Copy, PartialEq, Eq)]
pub struct Pubkey(pub [u8; 32]);

impl Pubkey {
    pub fn from_array(arr: [u8; 32]) -> (res: Self)
        ensures
            res.0@ == arr@,
    {
        Pubkey(arr)
    }

    pub fn into_array(&self) -> (res: [u8; 32])
        ensures
            res@ == self.0@,
    {
        self.0
    }
}

/// 32 bytes from the thread-local random generator of `rand`
/// (`rand::random::<[u8; 32]>()`). Nothing is promised of their values.
#[verifier::external_body]
fn random_key_bytes() -> (res: [u8; 32]) {
    rand::random::<[u8; 32]>()
}

/// A fresh random key: 32 random bytes.
pub fn new_rand() -> (res: Pubkey)
    ensures
        res.0@.len() == 32,
{
    Pubkey::from_array(random_key_bytes())
}

/// A UTXO as this format carries it.
#[derive(Debug, Clone, Copy, PartialEq, Eq)]
pub struct UtxoInfo {
    pub txid: [u8; 32],
    pub vout: u32,
    pub value: u64,
}

impl UtxoInfo {
    pub fn from_data(txid: [u8; 32], vout: u32, value: u64) -> (res: Self)
        ensures
            res.txid@ == txid@,
            res.vout == vout,
            res.value == value,
    {
        UtxoInfo { txid, vout, value }
    }

    /// A fixed sample UTXO: a zero transaction id, output 20, value 40.
    pub fn random() -> (res: Self)
        ensures
            res.txid@ == Seq::new(32, |i: int| 0u8),
            res.vout == 20,
            res.value == 40,
    {
        let res = UtxoInfo { txid: [0u8; 32], vout: 20, value: 40 };
        assert(res.txid@ =~= Seq::new(32, |i: int| 0u8));
        res
    }
}

/// An account of the runtime: its balance, its data, its owner, whether it
/// holds a loaded program, and the epoch at which it next owes rent.
pub struct AccountSharedData {
    lamports: u64,
    data: Vec<u8>,
    owner: Pubkey,
    executable: bool,
    rent_epoch: u64,
}

/// The fields of a UTXO as the format reads them back.
pub open spec fn utxo_view(u: UtxoInfo) -> (Seq<u8>, u32, u64) {
    (u.txid@, u.vout, u.value)
}

/// The 44 bytes of one UTXO.
pub open spec fn utxo_bytes(u: UtxoInfo) -> Seq<u8> {
    u.txid@ + le_bytes(u.vout as nat, 4) + le_bytes(u.value as nat, 8)
}

pub open spec fn utxos_bytes(us: Seq<UtxoInfo>) -> Seq<u8>
    decreases us.len(),
{
    if us.len() == 0 {
        Seq::empty()
    } else {
        utxos_bytes(us.drop_last()) + utxo_bytes(us.last())
    }
}

/// The bytes that `serealize` writes.
pub open spec fn host_input(pid: Seq<u8>, us: Seq<UtxoInfo>, data: Seq<u8>) -> Seq<u8> {
    le_bytes(us.len(), 8) + utxos_bytes(us) + le_bytes(data.len(), 8) + data + pid
}

/// Where the instruction data begins, after the count and `n` UTXOs.
pub open spec fn utxos_end(n: int) -> int {
    8 + 44 * n
}

/// What `deserialize` reads: the count, that many UTXOs of 44 bytes, the
/// length of the instruction data and the data, then right after the data
/// the 32 bytes of the program id. `None` where the input ends before one of
/// these.
pub open spec fn parse_host_input(s: Seq<u8>) -> Option<(Seq<u8>, Seq<(Seq<u8>, u32, u64)>, Seq<u8>)> {
    if s.len() < 8 {
        None
    } else {
        let n = le_value(s.subrange(0, 8)) as int;
        let e = utxos_end(n);
        if s.len() < e + 8 {
            None
        } else {
            let len = le_value(s.subrange(e, e + 8)) as int;
            let data_end = e + 8 + len;
            let pid_start = data_end;
            if s.len() < pid_start + 32 {
                None
            } else {
                Some(
                    (
                        s.subrange(pid_start, pid_start + 32),
                        Seq::new(
                            n as nat,
                            |i: int|
                                {
                                    let at = 8 + 44 * i;
                                    (
                                        s.subrange(at, at + 32),
                                        le_value(s.subrange(at + 32, at + 36)) as u32,
                                        le_value(s.subrange(at + 36, at + 44)) as u64,
                                    )
                                },
                        ),
                        s.subrange(e + 8, data_end),
                    ),
                )
            }
        }
    }
}

/// Writes the program's inputs in the host format.
pub fn serealize(pubkey: Pubkey, utxos: &[UtxoInfo], ins_data: &[u8]) -> (res: Vec<u8>)
    ensures
        res@ == host_input(pubkey.0@, utxos@, ins_data@),
{
    let mut out: Vec<u8> = Vec::new();
    let num_utxos = utxos.len() as u64;
    push_u64_le(&mut out, num_utxos);
    let mut i: usize = 0;
    while i < utxos.len()
        invariant
            i <= utxos@.len(),
            out@ == le_bytes(utxos@.len(), 8) + utxos_bytes(utxos@.subrange(0, i as int)),
        decreases utxos@.len() - i,
    {
        let ghost before = out@;
        let utxo = utxos[i];
        push_bytes(&mut out, utxo.txid.as_slice());
        push_u32_le(&mut out, utxo.vout);
        push_u64_le(&mut out, utxo.value);
        proof {
            let prefix = utxos@.subrange(0, i + 1);
            assert(prefix.drop_last() =~= utxos@.subrange(0, i as int));
            assert(prefix.last() == utxo);
            assert(out@ =~= le_bytes(utxos@.len(), 8) + utxos_bytes(prefix));
        }
        i = i + 1;
    }
    assert(utxos@.subrange(0, utxos@.len() as int) =~= utxos@);
    push_u64_le(&mut out, ins_data.len() as u64);
    push_bytes(&mut out, ins_data);
    push_bytes(&mut out, pubkey.0.as_slice());
    assert(out@ =~= host_input(pubkey.0@, utxos@, ins_data@));
    out
}

fn array32(s: &[u8], at: usize) -> (res: [u8; 32])
    requires
        at + 32 <= s@.len(),
    ensures
        res@ == s@.subrange(at as int, at + 32),
{
    let mut out = [0u8; 32];
    let mut k: usize = 0;
    while k < 32
        invariant
            k <= 32,
            at + 32 <= s.len(),
            forall|m: int| 0 <= m < k ==> out@[m] == s@[at + m],
        decreases 32 - k,
    {
        out[k] = s[at + k];
        k = k + 1;
    }
    assert(out@ =~= s@.subrange(at as int, at + 32));
    out
}

/// Reads the program's inputs from the host format; `None` where the input
/// is too short for what its counts announce.
pub fn deserialize(input: &[u8]) -> (res: Option<(Pubkey, Vec<UtxoInfo>, Vec<u8>)>)
    ensures
        match parse_host_input(input@) {
            None => res is None,
            Some((pid, us, data)) => res matches Some((p, v, d)) && p.0@ == pid && v@.map_values(
                |u: UtxoInfo| utxo_view(u),
            ) == us && d@ == data,
        },
{
    let n = input.len();
    if n < 8 {
        return None;
    }
    let num_utxos = read_u64_le_at(input, 0);
    if num_utxos > ((n - 8) / 44) as u64 {
        proof {
            assert(utxos_end(num_utxos as int) > n) by (nonlinear_arith)
                requires
                    num_utxos > (n - 8) / 44,
                    n >= 8,
            ;
        }
        return None;
    }
    let count = num_utxos as usize;
    proof {
        assert(44 * count <= n - 8) by (nonlinear_arith)
            requires
                count <= (n - 8) / 44,
                n >= 8,
        ;
    }
    let e = 8 + 44 * count;
    if n - e < 8 {
        return None;
    }
    let mut utxos: Vec<UtxoInfo> = Vec::new();
    let mut i: usize = 0;
    while i < count
        invariant
            i <= count,
            e == 8 + 44 * count,
            e <= n,
            n == input@.len(),
            utxos@.len() == i,
            forall|k: int|
                0 <= k < i ==> {
                    let at = 8 + 44 * k;
                    utxo_view(#[trigger] utxos@[k]) == (
                        input@.subrange(at, at + 32),
                        le_value(input@.subrange(at + 32, at + 36)) as u32,
                        le_value(input@.subrange(at + 36, at + 44)) as u64,
                    )
                },
        decreases count - i,
    {
        proof {
            assert(44 * i + 44 <= 44 * count) by (nonlinear_arith)
                requires
                    i < count,
            ;
        }
        let at = 8 + 44 * i;
        let txid = array32(input, at);
        let vout_value = read_le_at(input, at + 32, 4);
        proof {
            reveal_with_fuel(crate::bytes::pow256, 5);
        }
        let vout = vout_value as u32;
        let value = read_u64_le_at(input, at + 36);
        utxos.push(UtxoInfo::from_data(txid, vout, value));
        i = i + 1;
    }
    let data_len = read_u64_le_at(input, e);
    if data_len > (n - e - 8) as u64 {
        return None;
    }
    let data_end = e + 8 + data_len as usize;
    let pid_start = data_end;
    if n - pid_start < 32 {
        return None;
    }
    let data = vstd::slice::slice_to_vec(vstd::slice::slice_subrange(input, e + 8, data_end));
    let program_id = Pubkey(array32(input, pid_start));
    proof {
        let us = parse_host_input(input@)->Some_0.1;
        assert(utxos@.map_values(|u: UtxoInfo| utxo_view(u)) =~= us);
    }
    Some((program_id, utxos, data))
}

proof fn lemma_utxos_bytes(us: Seq<UtxoInfo>)
    ensures
        utxos_bytes(us).len() == 44 * us.len(),
        forall|i: int|
            0 <= i < us.len() ==> utxos_bytes(us).subrange(44 * i, 44 * i + 44) == utxo_bytes(
                #[trigger] us[i],
            ),
    decreases us.len(),
{
    if us.len() > 0 {
        let init = us.drop_last();
        lemma_utxos_bytes(init);
        crate::bytes::lemma_le_bytes_len(us.last().vout as nat, 4);
        crate::bytes::lemma_le_bytes_len(us.last().value as nat, 8);
        let all = utxos_bytes(us);
        assert forall|i: int| 0 <= i < us.len() implies all.subrange(44 * i, 44 * i + 44) == utxo_bytes(
            #[trigger] us[i],
        ) by {
            if i < us.len() - 1 {
                assert(us[i] == init[i]);
                assert(all.subrange(44 * i, 44 * i + 44) =~= utxos_bytes(init).subrange(44 * i, 44 * i + 44));
            } else {
                assert(all.subrange(44 * i, 44 * i + 44) =~= utxo_bytes(us.last()));
            }
        }
    }
}

/// Reading back what `serealize` wrote gives the same program id, UTXOs and
/// instruction data.
pub proof fn lemma_host_round_trip(pubkey: Pubkey, utxos: Seq<UtxoInfo>, data: Seq<u8>)
    requires
        utxos.len() <= u64::MAX,
        data.len() <= u64::MAX,
    ensures
        parse_host_input(host_input(pubkey.0@, utxos, data)) == Some(
            (pubkey.0@, utxos.map_values(|u: UtxoInfo| utxo_view(u)), data),
        ),
{
    let n = utxos.len();
    let len = data.len();
    let s = host_input(pubkey.0@, utxos, data);
    let ub = utxos_bytes(utxos);
    lemma_utxos_bytes(utxos);
    crate::bytes::lemma_le_bytes_len(n, 8);
    crate::bytes::lemma_le_bytes_len(len, 8);
    reveal_with_fuel(crate::bytes::pow256, 9);
    crate::bytes::lemma_le_value_of_bytes(n, 8);
    crate::bytes::lemma_le_value_of_bytes(len, 8);
    let e = utxos_end(n as int);
    assert(s.subrange(0, 8) =~= le_bytes(n, 8));
    assert(s.subrange(e, e + 8) =~= le_bytes(len, 8));
    let data_end = e + 8 + len;
    assert(s.subrange(e + 8, data_end) =~= data);
    assert(s.subrange(data_end, data_end + 32) =~= pubkey.0@);
    let parsed = parse_host_input(s)->Some_0.1;
    assert forall|i: int| 0 <= i < n implies #[trigger] parsed[i] == utxo_view(utxos[i]) by {
        let at = 8 + 44 * i;
        assert(44 * i + 44 <= 44 * n) by (nonlinear_arith)
            requires
                i < n,
        ;
        let u = utxos[i];
        assert(s.subrange(at, at + 44) =~= ub.subrange(44 * i, 44 * i + 44));
        crate::bytes::lemma_le_bytes_len(u.vout as nat, 4);
        crate::bytes::lemma_le_bytes_len(u.value as nat, 8);
        let ubi = utxo_bytes(u);
        assert(ub.subrange(44 * i, 44 * i + 44) == ubi);
        assert(ubi.subrange(0, 32) =~= u.txid@);
        assert(ubi.subrange(32, 36) =~= le_bytes(u.vout as nat, 4));
        assert(ubi.subrange(36, 44) =~= le_bytes(u.value as nat, 8));
        assert(s.subrange(at, at + 32) =~= ubi.subrange(0, 32));
        assert(s.subrange(at + 32, at + 36) =~= ubi.subrange(32, 36));
        assert(s.subrange(at + 36, at + 44) =~= ubi.subrange(36, 44));
        crate::bytes::lemma_le_value_of_bytes(u.vout as nat, 4);
        crate::bytes::lemma_le_value_of_bytes(u.value as nat, 8);
    }
    assert(parsed =~= utxos.map_values(|u: UtxoInfo| utxo_view(u)));
}

} // verus!
