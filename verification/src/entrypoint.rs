use vstd::prelude::*;

verus! {

/// Start address of the memory region used for program heap.
pub const HEAP_START_ADDRESS: u64 = 0x300000000;

/// Length of the heap memory region used for program heap.
pub const HEAP_LENGTH: usize = 32768;

/// Maximum permitted size of account data (10 MiB).
pub const MAX_PERMITTED_DATA_LENGTH: u64 = 10485760;

/// Maximum number of bytes a program may add to an account during a single realloc.
pub const MAX_PERMITTED_DATA_INCREASE: usize = 10240;

/// Alignment of a `u128` in the eBPF virtual machine.
pub const BPF_ALIGN_OF_U128: usize = 8;

/// The marker byte of a serialized UTXO that is not a duplicate.
pub const NON_DUP_MARKER: u8 = 255;

/// Programs indicate success with a return value of 0.
pub const SUCCESS: u64 = 0;

/// The number of bytes that follow `len` bytes to reach the next multiple of 8.
pub open spec fn spec_align_pad(len: int) -> int {
    (8 - len % 8) % 8
}

/// The padding after `len` bytes that brings an address of the form
/// `8 * k + len` to the alignment of a `u128`.
pub fn align_pad(len: usize) -> (res: usize)
    ensures
        res == spec_align_pad(len as int),
        res < 8,
{
    (8 - len % 8) % 8
}

} // verus!

verus! {

use crate::bytes::{le_value, read_le_at};
use crate::types::Pubkey;
use crate::utxo_info::{UtxoInfo, UtxoInfoState};

/// The little-endian number in the `n` bytes of `input` at `at`.
pub open spec fn field(input: Seq<u8>, at: int, n: int) -> nat {
    le_value(input.subrange(at, at + n))
}

/// Reads the UTXO whose entry starts at `o`, given the UTXOs read before it;
/// gives the UTXO and where the next entry starts, or nothing where the
/// entry runs past the input or repeats a UTXO not yet read.
pub open spec fn parse_entry(input: Seq<u8>, o: int, prev: Seq<UtxoInfoState>) -> Option<
    (UtxoInfoState, int),
> {
    if o + 1 > input.len() {
        None
    } else if input[o] == NON_DUP_MARKER {
        parse_account_entry(input, o)
    } else if input[o] < prev.len() && o + 8 <= input.len() {
        Some((prev[input[o] as int], o + 8))
    } else {
        None
    }
}

/// Reads the entry at `o` of a UTXO that is not a duplicate.
pub open spec fn parse_account_entry(input: Seq<u8>, o: int) -> Option<(UtxoInfoState, int)> {
    if o + 56 > input.len() {
        None
    } else {
        let len = field(input, o + 48, 8);
        let d = o + 56;
        let room_end = d + len + MAX_PERMITTED_DATA_INCREASE;
        let a = room_end + spec_align_pad(room_end);
        if a + 32 > input.len() {
            None
        } else {
            Some(
                (
                    UtxoInfoState {
                        data: input.subrange(d, d + len),
                        spare: input.subrange(d + len, room_end),
                        original_data_len: field(input, o + 40, 8),
                        authority: input.subrange(a, a + 32),
                        txid: input.subrange(o + 8, o + 40),
                        vout: field(input, o + 4, 4) as u32,
                    },
                    a + 32,
                ),
            )
        }
    }
}

/// Reads `k` entries from `o` on.
pub open spec fn parse_entries(input: Seq<u8>, o: int, k: nat) -> Option<(Seq<UtxoInfoState>, int)>
    decreases k,
{
    if k == 0 {
        Some((Seq::empty(), o))
    } else {
        match parse_entries(input, o, (k - 1) as nat) {
            None => None,
            Some((prev, p)) => match parse_entry(input, p, prev) {
                None => None,
                Some((u, q)) => Some((prev.push(u), q)),
            },
        }
    }
}

/// Where entry `k` starts, once the entries before it are read.
pub open spec fn entry_offset(input: Seq<u8>, k: nat) -> int {
    match parse_entries(input, 8, k) {
        Some((_, p)) => p,
        None => 0,
    }
}

/// For each of the first `k` entries, the entry that holds the UTXO it names:
/// the entry itself where it is not a repeat, else the one that the entry it
/// repeats names. A program that changes a UTXO through a repeat changes the
/// UTXO of that entry.
pub open spec fn entry_origins(input: Seq<u8>, k: nat) -> Seq<usize>
    decreases k,
{
    if k == 0 {
        Seq::empty()
    } else {
        let prev = entry_origins(input, (k - 1) as nat);
        match parse_entries(input, 8, (k - 1) as nat) {
            Some((_, p)) => if 0 <= p < input.len() && input[p] != NON_DUP_MARKER && input[p] < prev.len() {
                prev.push(prev[input[p] as int])
            } else {
                prev.push((k - 1) as usize)
            },
            None => prev.push((k - 1) as usize),
        }
    }
}

proof fn lemma_entry_origins_len(input: Seq<u8>, k: nat)
    ensures
        entry_origins(input, k).len() == k,
    decreases k,
{
    if k > 0 {
        lemma_entry_origins_len(input, (k - 1) as nat);
    }
}

/// What a program reads from its input: the key of the program, its UTXOs
/// and the instruction data; nothing where the input is cut short.
pub open spec fn parse_input(input: Seq<u8>) -> Option<(Seq<u8>, Seq<UtxoInfoState>, Seq<u8>)> {
    if input.len() < 8 {
        None
    } else {
        match parse_entries(input, 8, field(input, 0, 8)) {
            None => None,
            Some((utxos, o)) => if o + 8 > input.len() {
                None
            } else {
                let dl = field(input, o, 8);
                if o + 8 + dl + 32 > input.len() {
                    None
                } else {
                    Some((input.subrange(o + 8 + dl, o + 8 + dl + 32), utxos, input.subrange(o + 8, o + 8 + dl)))
                }
            },
        }
    }
}

fn copy_range(input: &[u8], from: usize, to: usize) -> (res: Vec<u8>)
    requires
        from <= to <= input@.len(),
    ensures
        res@ == input@.subrange(from as int, to as int),
{
    vstd::slice::slice_to_vec(vstd::slice::slice_subrange(input, from, to))
}

fn key_at(input: &[u8], at: usize) -> (res: Pubkey)
    requires
        at + 32 <= input@.len(),
    ensures
        res.0@ == input@.subrange(at as int, at + 32),
{
    let len = input.len();
    let mut k = [0u8; 32];
    let mut i: usize = 0;
    while i < 32
        invariant
            i <= 32,
            len == input@.len(),
            at + 32 <= input@.len(),
            forall|j: int| 0 <= j < i ==> k@[j] == input@[at + j],
        decreases 32 - i,
    {
        k[i] = input[at + i];
        i = i + 1;
    }
    assert(k@ =~= input@.subrange(at as int, at + 32));
    Pubkey(k)
}

fn parse_account(input: &[u8], o: usize) -> (res: Option<(UtxoInfo, usize)>)
    ensures
        match parse_account_entry(input@, o as int) {
            None => res is None,
            Some((v, q)) => res matches Some((u, p)) && u@ == v && p == q,
        },
{
    let n = input.len();
    if n < 56 || o > n - 56 {
        return None;
    }
    let len = read_le_at(input, o + 48, 8);
    let d = o + 56;
    if len > (n - d) as u64 {
        return None;
    }
    let len = len as usize;
    if MAX_PERMITTED_DATA_INCREASE > n - d - len {
        return None;
    }
    let room_end = d + len + MAX_PERMITTED_DATA_INCREASE;
    if n - room_end < 32 {
        return None;
    }
    let a = room_end + align_pad(room_end);
    if 32 > n - a {
        return None;
    }
    let vout = read_le_at(input, o + 4, 4);
    proof {
        reveal_with_fuel(crate::bytes::pow256, 5);
    }
    let original_data_len = read_le_at(input, o + 40, 8);
    let txid_key = key_at(input, o + 8);
    let u = UtxoInfo::from_parts(
        copy_range(input, d, d + len),
        copy_range(input, d + len, room_end),
        original_data_len,
        key_at(input, a),
        txid_key.0,
        vout as u32,
    );
    Some((u, a + 32))
}

fn parse_one(input: &[u8], o: usize, prev: &Vec<UtxoInfo>) -> (res: Option<(UtxoInfo, usize)>)
    ensures
        match parse_entry(input@, o as int, prev@.map_values(|u: UtxoInfo| u@)) {
            None => res is None,
            Some((v, q)) => res matches Some((u, p)) && u@ == v && p == q,
        },
{
    let n = input.len();
    if o >= n {
        return None;
    }
    let dup_info = input[o];
    if dup_info == NON_DUP_MARKER {
        parse_account(input, o)
    } else if (dup_info as usize) < prev.len() && n >= 8 && o <= n - 8 {
        let u = prev[dup_info as usize].duplicate();
        Some((u, o + 8))
    } else {
        None
    }
}

/// Reads the input that the runtime lays out for a program: the key of the
/// program, its UTXOs, the instruction data, and for each UTXO entry the
/// entry that holds the UTXO it names. An entry that repeats an earlier UTXO
/// reads as that UTXO and names the same entry, so a program that writes to
/// `us[origins[i]]` changes the one UTXO that both entries stand for; and
/// where each entry starts, for `UtxoInfo::store`.
/// Nothing comes back where the input is cut short or repeats a UTXO that
/// comes later.
#[verifier::rlimit(40)]
pub fn deserialize(input: &[u8]) -> (res: Option<(Pubkey, Vec<UtxoInfo>, Vec<u8>, Vec<usize>, Vec<usize>)>)
    ensures
        match parse_input(input@) {
            None => res is None,
            Some((pid, utxos, data)) => res matches Some((p, us, d, origins, offsets)) && p.0@ == pid && us@.map_values(
                |u: UtxoInfo| u@,
            ) == utxos && d@ == data && origins@ == entry_origins(input@, utxos.len()) && offsets@.len()
                == utxos.len() && (forall|i: int|
                0 <= i < offsets@.len() ==> #[trigger] offsets@[i] == entry_offset(input@, i as nat)) && forall|i: int|
                0 <= i < origins@.len() ==> {
                    &&& #[trigger] origins@[i] <= i
                    &&& origins@[origins@[i] as int] == origins@[i]
                    &&& utxos[i] == utxos[origins@[i] as int]
                    &&& (input@[entry_offset(input@, i as nat)] == NON_DUP_MARKER ==> origins@[i] == i)
                },
        },
{
    let n = input.len();
    if n < 8 {
        return None;
    }
    let num_utxos = read_le_at(input, 0, 8);
    let mut utxos: Vec<UtxoInfo> = Vec::new();
    let mut origins: Vec<usize> = Vec::new();
    let mut offsets: Vec<usize> = Vec::new();
    let mut offset: usize = 8;
    let mut i: u64 = 0;
    while i < num_utxos
        invariant
            i <= num_utxos,
            num_utxos as nat == field(input@, 0, 8),
            n == input@.len(),
            parse_entries(input@, 8, i as nat) == Some(
                (utxos@.map_values(|u: UtxoInfo| u@), offset as int),
            ),
            utxos@.len() == i,
            origins@.len() == i,
            origins@ == entry_origins(input@, i as nat),
            offsets@.len() == i,
            forall|j: int| 0 <= j < i ==> #[trigger] offsets@[j] == entry_offset(input@, j as nat),
            forall|j: int|
                0 <= j < i ==> {
                    &&& #[trigger] origins@[j] <= j
                    &&& origins@[origins@[j] as int] == origins@[j]
                    &&& utxos@[j]@ == utxos@[origins@[j] as int]@
                    &&& (input@[entry_offset(input@, j as nat)] == NON_DUP_MARKER ==> origins@[j] == j)
                },
        decreases num_utxos - i,
    {
        let ghost views = utxos@.map_values(|u: UtxoInfo| u@);
        assert(parse_entries(input@, 8, i as nat) == Some((views, offset as int)));
        assert(entry_offset(input@, i as nat) == offset);
        let at_offset = offset;
        let rep = offset < n && input[offset] != NON_DUP_MARKER && (input[offset] as usize) < origins.len();
        let origin: usize = if rep {
            origins[input[offset] as usize]
        } else {
            utxos.len()
        };
        match parse_one(input, offset, &utxos) {
            None => {
                proof {
                    lemma_parse_entries_stays_none(input@, i as nat + 1, num_utxos as nat);
                }
                return None;
            },
            Some((u, next)) => {
                let ghost prev = utxos@;
                let ghost prev_origins = origins@;
                let ghost at = offset as int;
                utxos.push(u);
                origins.push(origin);
                offsets.push(at_offset);
                offset = next;
                assert(utxos@.map_values(|u: UtxoInfo| u@) =~= prev.map_values(|u: UtxoInfo| u@).push(u@));
                proof {
                    lemma_entry_origins_len(input@, i as nat);
                    assert(origins@ =~= entry_origins(input@, (i + 1) as nat));
                    assert forall|j: int| 0 <= j < i + 1 implies {
                        &&& #[trigger] origins@[j] <= j
                        &&& origins@[origins@[j] as int] == origins@[j]
                        &&& utxos@[j]@ == utxos@[origins@[j] as int]@
                        &&& (input@[entry_offset(input@, j as nat)] == NON_DUP_MARKER ==> origins@[j] == j)
                    } by {
                        if j < i {
                            assert(prev_origins[j] == origins@[j]);
                            assert(prev_origins[prev_origins[j] as int] == origins@[origins@[j] as int]);
                        } else if rep {
                            let d = input@[at] as int;
                            assert(0 <= d < i);
                            assert(prev_origins[d] <= d);
                            assert(origins@[j] == prev_origins[d]);
                            assert(views[d] == prev[d]@);
                            assert(utxos@[j]@ == views[d]);
                        }
                    }
                }
            },
        }
        i = i + 1;
    }
    if offset > n || 8 > n - offset {
        return None;
    }
    let dl = read_le_at(input, offset, 8);
    if dl > (n - offset - 8) as u64 {
        return None;
    }
    let dl = dl as usize;
    if 32 > n - offset - 8 - dl {
        return None;
    }
    let data = copy_range(input, offset + 8, offset + 8 + dl);
    let program_id = key_at(input, offset + 8 + dl);
    Some((program_id, utxos, data, origins, offsets))
}

/// Once reading stops, reading more entries stops too.
proof fn lemma_parse_entries_stays_none(input: Seq<u8>, k: nat, m: nat)
    requires
        parse_entries(input, 8, k) is None,
        k <= m,
    ensures
        parse_entries(input, 8, m) is None,
    decreases m - k,
{
    if k < m {
        lemma_parse_entries_stays_none(input, k + 1, m);
        assert(parse_entries(input, 8, (k + 1) as nat) is None);
    }
}

} // verus!
