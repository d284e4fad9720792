use vstd::prelude::*;

verus! {

/// The `n` little-endian bytes of `v` (the low `n` bytes; higher bytes are dropped).
pub open spec fn le_bytes(v: nat, n: nat) -> Seq<u8>
    decreases n,
{
    if n == 0 {
        Seq::empty()
    } else {
        seq![(v % 256) as u8].add(le_bytes(v / 256, (n - 1) as nat))
    }
}

/// The number that the bytes `s` encode in little-endian order.
pub open spec fn le_value(s: Seq<u8>) -> nat
    decreases s.len(),
{
    if s.len() == 0 {
        0
    } else {
        s[0] as nat + 256 * le_value(s.drop_first())
    }
}

pub proof fn lemma_le_bytes_len(v: nat, n: nat)
    ensures
        le_bytes(v, n).len() == n,
    decreases n,
{
    if n > 0 {
        lemma_le_bytes_len(v / 256, (n - 1) as nat);
    }
}

/// Decoding the little-endian bytes of a number that fits gives the number back.
pub proof fn lemma_le_value_of_bytes(v: nat, n: nat)
    requires
        v < pow256(n),
    ensures
        le_value(le_bytes(v, n)) == v,
    decreases n,
{
    lemma_le_bytes_len(v, n);
    if n > 0 {
        let rest = le_bytes(v / 256, (n - 1) as nat);
        assert(le_bytes(v, n).drop_first() =~= rest);
        assert(v / 256 < pow256((n - 1) as nat)) by (nonlinear_arith)
            requires
                v < pow256(n),
                pow256(n) == 256 * pow256((n - 1) as nat),
        ;
        lemma_le_value_of_bytes(v / 256, (n - 1) as nat);
    }
}

pub open spec fn pow256(n: nat) -> nat
    decreases n,
{
    if n == 0 {
        1
    } else {
        256 * pow256((n - 1) as nat)
    }
}

/// Writes the 4 little-endian bytes of `v`.
pub fn u32_to_le(v: u32) -> (res: [u8; 4])
    ensures
        res@ == le_bytes(v as nat, 4),
{
    let res = [
        (v % 256) as u8,
        (v / 256 % 256) as u8,
        (v / 65536 % 256) as u8,
        (v / 16777216 % 256) as u8,
    ];
    proof {
        reveal_with_fuel(le_bytes, 5);
        assert(res@ =~= le_bytes(v as nat, 4));
    }
    res
}

} // verus!

verus! {

/// Appends the bytes of `s` to `out`.
pub fn push_bytes(out: &mut Vec<u8>, s: &[u8])
    ensures
        final(out)@ == old(out)@ + s@,
{
    let mut i: usize = 0;
    while i < s.len()
        invariant
            i <= s@.len(),
            out@ == old(out)@ + s@.subrange(0, i as int),
        decreases s@.len() - i,
    {
        out.push(s[i]);
        i = i + 1;
        assert(out@ =~= old(out)@ + s@.subrange(0, i as int));
    }
    assert(s@.subrange(0, s@.len() as int) =~= s@);
}

/// Appends `n` copies of the byte `b` to `out`.
pub fn push_repeated(out: &mut Vec<u8>, b: u8, n: usize)
    ensures
        final(out)@ == old(out)@ + Seq::new(n as nat, |k: int| b),
{
    let mut i: usize = 0;
    while i < n
        invariant
            i <= n,
            out@ == old(out)@ + Seq::new(i as nat, |k: int| b),
        decreases n - i,
    {
        out.push(b);
        i = i + 1;
        assert(out@ =~= old(out)@ + Seq::new(i as nat, |k: int| b));
    }
}

/// Whether two byte strings are equal.
pub fn bytes_eq(a: &[u8], b: &[u8]) -> (res: bool)
    ensures
        res == (a@ == b@),
{
    if a.len() != b.len() {
        return false;
    }
    let mut i: usize = 0;
    while i < a.len()
        invariant
            i <= a@.len(),
            a@.len() == b@.len(),
            forall|j: int| 0 <= j < i ==> a@[j] == b@[j],
        decreases a@.len() - i,
    {
        if a[i] != b[i] {
            return false;
        }
        i = i + 1;
    }
    assert(a@ =~= b@);
    true
}

/// Appends the 8 little-endian bytes of `v` to `out`.
pub fn push_u64_le(out: &mut Vec<u8>, v: u64)
    ensures
        final(out)@ == old(out)@ + le_bytes(v as nat, 8),
{
    let mut i: usize = 0;
    let mut rest: u64 = v;
    while i < 8
        invariant
            i <= 8,
            out@ + le_bytes(rest as nat, (8 - i) as nat) == old(out)@ + le_bytes(v as nat, 8),
        decreases 8 - i,
    {
        let ghost before = out@;
        out.push((rest % 256) as u8);
        proof {
            assert(le_bytes(rest as nat, (8 - i) as nat) =~= seq![(rest % 256) as u8]
                + le_bytes((rest / 256) as nat, (8 - i - 1) as nat));
            assert(out@ + le_bytes((rest / 256) as nat, (8 - i - 1) as nat)
                =~= before + le_bytes(rest as nat, (8 - i) as nat));
        }
        rest = rest / 256;
        i = i + 1;
    }
    assert(le_bytes(rest as nat, 0) =~= Seq::<u8>::empty());
    assert(out@ =~= out@ + le_bytes(rest as nat, 0));
}

/// Appends the 4 little-endian bytes of `v` to `out`.
pub fn push_u32_le(out: &mut Vec<u8>, v: u32)
    ensures
        final(out)@ == old(out)@ + le_bytes(v as nat, 4),
{
    let b = u32_to_le(v);
    push_bytes(out, b.as_slice());
}

/// Reads the little-endian number in the 8 bytes of `s` that start at `at`.
pub fn read_u64_le_at(s: &[u8], at: usize) -> (res: u64)
    requires
        at + 8 <= s@.len(),
    ensures
        res as nat == le_value(s@.subrange(at as int, at + 8)),
{
    read_le_at(s, at, 8)
}

/// Reads the little-endian number in the `n` bytes of `s` that start at `at`.
pub fn read_le_at(s: &[u8], at: usize, n: usize) -> (res: u64)
    requires
        n <= 8,
        at + n <= s@.len(),
    ensures
        res as nat == le_value(s@.subrange(at as int, at + n)),
        res < pow256(n as nat),
{
    let len = s.len();
    let mut i: usize = n;
    let mut acc: u64 = 0;
    while i > 0
        invariant
            i <= n <= 8,
            len == s@.len(),
            at + n <= s@.len(),
            acc as nat == le_value(s@.subrange(at + i, at + n)),
            acc < pow256((n - i) as nat),
        decreases i,
    {
        let ghost old_acc = acc;
        i = i - 1;
        proof {
            let sub = s@.subrange(at + i, at + n);
            assert(sub.drop_first() =~= s@.subrange(at + i + 1, at + n));
            assert(pow256((n - i) as nat) == 256 * pow256((n - i - 1) as nat));
            lemma_pow256_bound((n - i) as nat);
            assert(256 * old_acc + s@[at + i] < pow256((n - i) as nat)) by (nonlinear_arith)
                requires
                    old_acc < pow256((n - i - 1) as nat),
                    s@[at + i] < 256,
                    pow256((n - i) as nat) == 256 * pow256((n - i - 1) as nat),
            ;
        }
        acc = acc * 256 + s[at + i] as u64;
    }
    acc
}

pub proof fn lemma_pow256_bound(n: nat)
    requires
        n <= 8,
    ensures
        pow256(n) <= 0x1_0000_0000_0000_0000,
    decreases n,
{
    reveal_with_fuel(pow256, 9);
}

} // verus!
