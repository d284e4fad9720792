//! The guest address space of a program and the memory system calls on it.
//!
//! A guest address space is a list of regions, each a window of `len` bytes
//! that starts at the guest address `vm_addr` and is backed by the host buffer
//! from `host_offset` on. The copy, compare and fill calls walk a guest range
//! chunk by chunk, one chunk per region that the range crosses.
use vstd::prelude::*;

verus! {

/// Whether a guest access reads or writes.
#[derive(Debug, Clone, Copy, PartialEq, Eq, Structural)]
pub enum AccessType {
    Load,
    Store,
}

/// Why a guest memory access failed.
#[derive(Debug, Clone, Copy, PartialEq, Eq, Structural)]
pub enum MemoryError {
    /// The access of `len` bytes from the guest address `vm_addr` reaches an
    /// address that is not mapped for that kind of access.
    AccessViolation(AccessType, u64, u64),
    /// A guest address that lies outside the region it was resolved in.
    InvalidVirtualAddress(u64),
}

/// One window of the guest address space.
#[derive(Debug, Clone, Copy, PartialEq, Eq, Structural)]
pub struct MemoryRegion {
    pub vm_addr: u64,
    pub len: u64,
    /// Where the region's bytes start in the host buffer. Alignment checks
    /// are made on host indexes, so a host buffer that copies mapped memory
    /// starts each region at an index that is congruent to the region's host
    /// address modulo the largest alignment checked.
    pub host_offset: u64,
    pub writable: bool,
}

/// A guest address space and the host bytes behind it.
pub struct GuestMemory {
    pub regions: Vec<MemoryRegion>,
    pub host: Vec<u8>,
}

/// One past the last guest address of a region.
pub open spec fn region_end(r: MemoryRegion) -> int {
    r.vm_addr + r.len
}

pub open spec fn region_contains(r: MemoryRegion, a: int) -> bool {
    r.vm_addr <= a < region_end(r)
}

/// Whether an access of this kind may use the region.
pub open spec fn access_allowed(r: MemoryRegion, access: AccessType) -> bool {
    access == AccessType::Load || r.writable
}

/// Regions that fit in the address space and in the host buffer, and that
/// overlap neither in guest addresses nor in host bytes.
pub open spec fn memory_wf(regions: Seq<MemoryRegion>, host_len: int) -> bool {
    &&& forall|i: int|
        0 <= i < regions.len() ==> {
            &&& region_end(#[trigger] regions[i]) <= u64::MAX
            &&& regions[i].host_offset + regions[i].len <= host_len
        }
    &&& forall|i: int, j: int|
        0 <= i < regions.len() && 0 <= j < regions.len() && i != j ==> {
            ||| region_end(#[trigger] regions[i]) <= #[trigger] regions[j].vm_addr
            ||| region_end(regions[j]) <= regions[i].vm_addr
        }
    &&& forall|i: int, j: int|
        0 <= i < regions.len() && 0 <= j < regions.len() && i != j ==> {
            ||| (#[trigger] regions[i]).host_offset + regions[i].len <= (#[trigger] regions[j]).host_offset
            ||| regions[j].host_offset + regions[j].len <= regions[i].host_offset
        }
}

impl GuestMemory {
    pub open spec fn wf(&self) -> bool {
        memory_wf(self.regions@, self.host@.len() as int)
    }

    /// Whether the regions fit and overlap neither in guest addresses nor in
    /// host bytes: what every memory call asks of a guest memory.
    pub fn is_well_formed(&self) -> (res: bool)
        ensures
            res == self.wf(),
    {
        let n = self.regions.len();
        let host_len = self.host.len();
        let ghost regions = self.regions@;
        let ghost hl = self.host@.len() as int;
        let mut ok = true;
        let mut i: usize = 0;
        while i < n
            invariant
                regions == self.regions@,
                hl == self.host@.len(),
                host_len == hl,
                n == regions.len(),
                i <= n,
                ok == ((forall|k: int| 0 <= k < i ==> #[trigger] region_fits(regions[k], hl)) && (forall|
                    k: int,
                    l: int,
                | 0 <= k < i && 0 <= l < n && k != l ==> #[trigger] regions_apart(regions[k], regions[l]))),
            decreases n - i,
        {
            let r = self.regions[i];
            let mut row = region_fits_exec(r, host_len);
            let mut j: usize = 0;
            while j < n
                invariant
                    regions == self.regions@,
                    n == regions.len(),
                    i < n,
                    j <= n,
                    r == regions[i as int],
                    row == (region_fits(r, hl) && forall|l: int|
                        0 <= l < j && l != i ==> #[trigger] regions_apart(r, regions[l])),
                decreases n - j,
            {
                if j != i {
                    let apart = regions_apart_exec(r, self.regions[j]);
                    row = row && apart;
                }
                j = j + 1;
            }
            let ghost before = ok;
            ok = ok && row;
            proof {
                if ok {
                    assert forall|k: int, l: int| 0 <= k < i + 1 && 0 <= l < n && k != l implies #[trigger] regions_apart(
                        regions[k],
                        regions[l],
                    ) by {
                        if k == i {
                            assert(regions_apart(r, regions[l]));
                        }
                    }
                }
                if !row {
                    if !region_fits(r, hl) {
                        assert(!region_fits(regions[i as int], hl));
                    } else {
                        let l = choose|l: int| 0 <= l < n && l != i && !#[trigger] regions_apart(r, regions[l]);
                        assert(!regions_apart(regions[i as int], regions[l]));
                    }
                }
            }
            i = i + 1;
        }
        proof {
            lemma_wf_by_parts(regions, hl);
        }
        ok
    }
}

/// Whether the region fits in the address space and in `host_len` host
/// bytes.
pub open spec fn region_fits(r: MemoryRegion, host_len: int) -> bool {
    region_end(r) <= u64::MAX && r.host_offset + r.len <= host_len
}

/// Whether two regions share neither guest addresses nor host bytes.
pub open spec fn regions_apart(a: MemoryRegion, b: MemoryRegion) -> bool {
    &&& (region_end(a) <= b.vm_addr || region_end(b) <= a.vm_addr)
    &&& (a.host_offset + a.len <= b.host_offset || b.host_offset + b.len <= a.host_offset)
}

fn region_fits_exec(r: MemoryRegion, host_len: usize) -> (res: bool)
    ensures
        res == region_fits(r, host_len as int),
{
    (r.vm_addr as u128) + (r.len as u128) <= u64::MAX as u128 && (r.host_offset as u128) + (r.len as u128)
        <= host_len as u128
}

fn regions_apart_exec(a: MemoryRegion, b: MemoryRegion) -> (res: bool)
    ensures
        res == regions_apart(a, b),
{
    let a_end = (a.vm_addr as u128) + (a.len as u128);
    let b_end = (b.vm_addr as u128) + (b.len as u128);
    let a_host_end = (a.host_offset as u128) + (a.len as u128);
    let b_host_end = (b.host_offset as u128) + (b.len as u128);
    (a_end <= b.vm_addr as u128 || b_end <= a.vm_addr as u128) && (a_host_end <= b.host_offset as u128
        || b_host_end <= a.host_offset as u128)
}

/// A guest memory is well formed exactly when each region fits and each two
/// regions lie apart.
proof fn lemma_wf_by_parts(regions: Seq<MemoryRegion>, host_len: int)
    ensures
        memory_wf(regions, host_len) <==> ((forall|k: int| 0 <= k < regions.len() ==> #[trigger] region_fits(regions[k], host_len))
            && (forall|k: int, l: int|
            0 <= k < regions.len() && 0 <= l < regions.len() && k != l ==> #[trigger] regions_apart(
                regions[k],
                regions[l],
            ))),
{
    if memory_wf(regions, host_len) {
        assert forall|k: int| 0 <= k < regions.len() implies #[trigger] region_fits(regions[k], host_len) by {
            assert(region_end(regions[k]) <= u64::MAX);
        }
        assert forall|k: int, l: int| 0 <= k < regions.len() && 0 <= l < regions.len() && k != l implies #[trigger] regions_apart(
            regions[k],
            regions[l],
        ) by {
            assert(region_end(regions[k]) <= regions[l].vm_addr || region_end(regions[l]) <= regions[k].vm_addr);
            assert(regions[k].host_offset + regions[k].len <= regions[l].host_offset || regions[l].host_offset
                + regions[l].len <= regions[k].host_offset);
        }
    }
    if (forall|k: int| 0 <= k < regions.len() ==> #[trigger] region_fits(regions[k], host_len)) && (forall|
        k: int,
        l: int,
    | 0 <= k < regions.len() && 0 <= l < regions.len() && k != l ==> #[trigger] regions_apart(regions[k], regions[l])) {
        assert forall|i: int| 0 <= i < regions.len() implies region_end(#[trigger] regions[i]) <= u64::MAX
            && regions[i].host_offset + regions[i].len <= host_len by {
            assert(region_fits(regions[i], host_len));
        }
        assert forall|i: int, j: int| 0 <= i < regions.len() && 0 <= j < regions.len() && i != j implies (region_end(
            #[trigger] regions[i],
        ) <= #[trigger] regions[j].vm_addr || region_end(regions[j]) <= regions[i].vm_addr) by {
            assert(regions_apart(regions[i], regions[j]));
        }
        assert forall|i: int, j: int| 0 <= i < regions.len() && 0 <= j < regions.len() && i != j implies ((
        #[trigger] regions[i]).host_offset + regions[i].len <= (#[trigger] regions[j]).host_offset
            || regions[j].host_offset + regions[j].len <= regions[i].host_offset) by {
            assert(regions_apart(regions[i], regions[j]));
        }
    }
}

/// The region that holds the guest address `a`, if one does and it admits
/// the access.
#[verifier::opaque]
pub open spec fn lookup(regions: Seq<MemoryRegion>, access: AccessType, a: int) -> Option<int> {
    if exists|i: int|
        0 <= i < regions.len() && region_contains(#[trigger] regions[i], a) && access_allowed(
            regions[i],
            access,
        ) {
        Some(
            choose|i: int|
                0 <= i < regions.len() && region_contains(#[trigger] regions[i], a)
                    && access_allowed(regions[i], access),
        )
    } else {
        None
    }
}

/// In a well-formed memory at most one region holds an address.
pub proof fn lemma_region_unique(regions: Seq<MemoryRegion>, host_len: int, a: int, i: int, j: int)
    requires
        memory_wf(regions, host_len),
        0 <= i < regions.len(),
        0 <= j < regions.len(),
        region_contains(regions[i], a),
        region_contains(regions[j], a),
    ensures
        i == j,
{
    if i != j {
        assert(region_end(regions[i]) <= regions[j].vm_addr || region_end(regions[j])
            <= regions[i].vm_addr);
    }
}

/// Finds the region that holds `vm_addr` for an access of the given kind.
pub fn region(mem: &GuestMemory, access: AccessType, vm_addr: u64) -> (res: Result<usize, MemoryError>)
    requires
        mem.wf(),
    ensures
        match lookup(mem.regions@, access, vm_addr as int) {
            Some(i) => res == Ok::<usize, MemoryError>(i as usize),
            None => res == Err::<usize, MemoryError>(MemoryError::AccessViolation(access, vm_addr, 0)),
        },
        res matches Ok(i) ==> i < mem.regions.len() && region_contains(
            mem.regions@[i as int],
            vm_addr as int,
        ) && access_allowed(mem.regions@[i as int], access),
{
    let mut i: usize = 0;
    while i < mem.regions.len()
        invariant
            mem.wf(),
            i <= mem.regions.len(),
            forall|k: int| 0 <= k < i ==> !region_contains(#[trigger] mem.regions@[k], vm_addr as int),
        decreases mem.regions.len() - i,
    {
        let r = mem.regions[i];
        if r.vm_addr <= vm_addr && vm_addr - r.vm_addr < r.len {
            proof {
                assert(region_contains(mem.regions@[i as int], vm_addr as int));
                assert forall|k: int|
                    0 <= k < mem.regions@.len() && region_contains(#[trigger] mem.regions@[k], vm_addr as int)
                    implies k == i by {
                    lemma_region_unique(mem.regions@, mem.host@.len() as int, vm_addr as int, k, i as int);
                }
            }
            let allowed = match access {
                AccessType::Load => true,
                AccessType::Store => r.writable,
            };
            proof {
                reveal(lookup);
            }
            if allowed {
                return Ok(i);
            } else {
                return Err(MemoryError::AccessViolation(access, vm_addr, 0));
            }
        }
        i = i + 1;
    }
    proof {
        reveal(lookup);
    }
    Err(MemoryError::AccessViolation(access, vm_addr, 0))
}


/// A piece of a guest range that lies in one region.
#[derive(Debug, Clone, Copy, PartialEq, Eq, Structural)]
pub struct MemoryChunk {
    pub region: usize,
    pub vm_addr: u64,
    pub len: u64,
}

/// Walks the guest range `[vm_addr_start, vm_addr_end)` region by region,
/// from the front or from the back.
#[derive(Debug, Clone, Copy, PartialEq, Eq, Structural)]
pub struct MemoryChunkIterator {
    pub access_type: AccessType,
    pub initial_vm_addr: u64,
    pub len: u64,
    pub vm_addr_start: u64,
    pub vm_addr_end: u64,
}

pub open spec fn min_int(a: int, b: int) -> int {
    if a <= b {
        a
    } else {
        b
    }
}

pub open spec fn max_int(a: int, b: int) -> int {
    if a >= b {
        a
    } else {
        b
    }
}

impl MemoryChunkIterator {
    pub open spec fn wf(&self) -> bool {
        self.vm_addr_start <= self.vm_addr_end
    }

    /// An iterator over the `len` bytes from `vm_addr`; refused when the range
    /// runs past the end of the address space.
    pub fn new(access_type: AccessType, vm_addr: u64, len: u64) -> (res: Result<
        MemoryChunkIterator,
        MemoryError,
    >)
        ensures
            vm_addr + len <= u64::MAX ==> res == Ok::<MemoryChunkIterator, MemoryError>(
                MemoryChunkIterator {
                    access_type,
                    initial_vm_addr: vm_addr,
                    len,
                    vm_addr_start: vm_addr,
                    vm_addr_end: (vm_addr + len) as u64,
                },
            ),
            vm_addr + len > u64::MAX ==> res == Err::<MemoryChunkIterator, MemoryError>(
                MemoryError::AccessViolation(access_type, vm_addr, len),
            ),
    {
        match vm_addr.checked_add(len) {
            Some(vm_addr_end) => Ok(
                MemoryChunkIterator {
                    access_type,
                    initial_vm_addr: vm_addr,
                    len,
                    vm_addr_start: vm_addr,
                    vm_addr_end,
                },
            ),
            None => Err(MemoryError::AccessViolation(access_type, vm_addr, len)),
        }
    }

    /// The error reported for any failed lookup: the whole range it walks.
    pub open spec fn violation(&self) -> MemoryError {
        MemoryError::AccessViolation(self.access_type, self.initial_vm_addr, self.len)
    }

    /// The chunk at the front of what is left: from its start to the end of
    /// the region that holds it or of the range, whichever comes first.
    pub fn next(&mut self, mem: &GuestMemory) -> (res: Option<Result<MemoryChunk, MemoryError>>)
        requires
            old(self).wf(),
            mem.wf(),
        ensures
            final(self).wf(),
            final(self).access_type == old(self).access_type,
            final(self).initial_vm_addr == old(self).initial_vm_addr,
            final(self).len == old(self).len,
            final(self).vm_addr_end == old(self).vm_addr_end,
            old(self).vm_addr_start == old(self).vm_addr_end ==> res is None && *final(self) == *old(
                self,
            ),
            old(self).vm_addr_start < old(self).vm_addr_end ==> match lookup(
                mem.regions@,
                old(self).access_type,
                old(self).vm_addr_start as int,
            ) {
                None => res == Some(Err::<MemoryChunk, MemoryError>(old(self).violation()))
                    && final(self).vm_addr_start == old(self).vm_addr_end,
                Some(i) => {
                    let stop = min_int(region_end(mem.regions@[i]), old(self).vm_addr_end as int);
                    &&& res == Some(
                        Ok::<MemoryChunk, MemoryError>(
                            MemoryChunk {
                                region: i as usize,
                                vm_addr: old(self).vm_addr_start,
                                len: (stop - old(self).vm_addr_start) as u64,
                            },
                        ),
                    )
                    &&& final(self).vm_addr_start == stop
                    &&& old(self).vm_addr_start < stop
                },
            },
    {
        if self.vm_addr_start == self.vm_addr_end {
            return None;
        }
        proof {
            lemma_lookup_some(mem.regions@, self.access_type, self.vm_addr_start as int);
        }
        match region(mem, self.access_type, self.vm_addr_start) {
            Err(_) => {
                self.vm_addr_start = self.vm_addr_end;
                Some(Err(MemoryError::AccessViolation(self.access_type, self.initial_vm_addr, self.len)))
            },
            Ok(i) => {
                let r = mem.regions[i];
                let vm_addr = self.vm_addr_start;
                let r_end = r.vm_addr + r.len;
                let chunk_len = if r_end <= self.vm_addr_end {
                    let len = r_end - self.vm_addr_start;
                    self.vm_addr_start = r_end;
                    len
                } else {
                    let len = self.vm_addr_end - self.vm_addr_start;
                    self.vm_addr_start = self.vm_addr_end;
                    len
                };
                Some(Ok(MemoryChunk { region: i, vm_addr, len: chunk_len }))
            },
        }
    }

    /// The chunk at the back of what is left: from the start of the region
    /// that holds its last byte, or of the range, to the end of the range.
    pub fn next_back(&mut self, mem: &GuestMemory) -> (res: Option<Result<MemoryChunk, MemoryError>>)
        requires
            old(self).wf(),
            mem.wf(),
        ensures
            final(self).wf(),
            final(self).access_type == old(self).access_type,
            final(self).initial_vm_addr == old(self).initial_vm_addr,
            final(self).len == old(self).len,
            old(self).vm_addr_start == old(self).vm_addr_end ==> res is None && *final(self) == *old(
                self,
            ),
            old(self).vm_addr_start < old(self).vm_addr_end ==> match lookup(
                mem.regions@,
                old(self).access_type,
                old(self).vm_addr_end - 1,
            ) {
                None => res == Some(Err::<MemoryChunk, MemoryError>(old(self).violation()))
                    && final(self).vm_addr_start == old(self).vm_addr_end
                    && final(self).vm_addr_end == old(self).vm_addr_end,
                Some(i) => {
                    let from = max_int(mem.regions@[i].vm_addr as int, old(self).vm_addr_start as int);
                    &&& res == Some(
                        Ok::<MemoryChunk, MemoryError>(
                            MemoryChunk {
                                region: i as usize,
                                vm_addr: from as u64,
                                len: (old(self).vm_addr_end - from) as u64,
                            },
                        ),
                    )
                    &&& final(self).vm_addr_start == old(self).vm_addr_start
                    &&& final(self).vm_addr_end == from
                    &&& from < old(self).vm_addr_end
                },
            },
    {
        if self.vm_addr_start == self.vm_addr_end {
            return None;
        }
        proof {
            lemma_lookup_some(mem.regions@, self.access_type, self.vm_addr_end - 1);
        }
        match region(mem, self.access_type, self.vm_addr_end - 1) {
            Err(_) => {
                self.vm_addr_start = self.vm_addr_end;
                Some(Err(MemoryError::AccessViolation(self.access_type, self.initial_vm_addr, self.len)))
            },
            Ok(i) => {
                let r = mem.regions[i];
                let chunk_len = if r.vm_addr >= self.vm_addr_start {
                    let len = self.vm_addr_end - r.vm_addr;
                    self.vm_addr_end = r.vm_addr;
                    len
                } else {
                    let len = self.vm_addr_end - self.vm_addr_start;
                    self.vm_addr_end = self.vm_addr_start;
                    len
                };
                Some(Ok(MemoryChunk { region: i, vm_addr: self.vm_addr_end, len: chunk_len }))
            },
        }
    }
}


/// Two chunks of equal length, one of the source range and one of the
/// destination range, that a memory call handles in one step.
#[derive(Debug, Clone, Copy, PartialEq, Eq, Structural)]
pub struct ChunkPair {
    pub src_region: usize,
    pub src_addr: u64,
    pub dst_region: usize,
    pub dst_addr: u64,
    pub len: u64,
}

/// The steps of a walk over `n` bytes from `s` and from `d`, front to back,
/// that has already handled `off` bytes: each step is as long as the nearer of
/// the two region ends allows. The second part is the error that stops the
/// walk, if an address is not mapped for its access.
pub open spec fn forward_pairs(
    regions: Seq<MemoryRegion>,
    sa: AccessType,
    s: int,
    da: AccessType,
    d: int,
    n: int,
    off: int,
) -> (Seq<ChunkPair>, Option<MemoryError>)
    decreases n - off,
{
    if off < 0 || off >= n {
        (Seq::empty(), None)
    } else {
        match lookup(regions, sa, s + off) {
            None => (Seq::empty(), Some(MemoryError::AccessViolation(sa, s as u64, n as u64))),
            Some(i) => match lookup(regions, da, d + off) {
                None => (Seq::empty(), Some(MemoryError::AccessViolation(da, d as u64, n as u64))),
                Some(j) => {
                    let len = min_int(
                        min_int(region_end(regions[i]), s + n) - (s + off),
                        min_int(region_end(regions[j]), d + n) - (d + off),
                    );
                    let step = ChunkPair {
                        src_region: i as usize,
                        src_addr: (s + off) as u64,
                        dst_region: j as usize,
                        dst_addr: (d + off) as u64,
                        len: len as u64,
                    };
                    if len > 0 {
                        let rest = forward_pairs(regions, sa, s, da, d, n, off + len);
                        (seq![step].add(rest.0), rest.1)
                    } else {
                        (Seq::empty(), None)
                    }
                },
            },
        }
    }
}

/// The same walk from back to front, with `back` bytes at the end handled.
#[verifier::opaque]
pub open spec fn backward_pairs(
    regions: Seq<MemoryRegion>,
    sa: AccessType,
    s: int,
    da: AccessType,
    d: int,
    n: int,
    back: int,
) -> (Seq<ChunkPair>, Option<MemoryError>)
    decreases n - back,
{
    if back < 0 || back >= n {
        (Seq::empty(), None)
    } else {
        match lookup(regions, sa, s + n - back - 1) {
            None => (Seq::empty(), Some(MemoryError::AccessViolation(sa, s as u64, n as u64))),
            Some(i) => match lookup(regions, da, d + n - back - 1) {
                None => (Seq::empty(), Some(MemoryError::AccessViolation(da, d as u64, n as u64))),
                Some(j) => {
                    let len = min_int(
                        (s + n - back) - max_int(regions[i].vm_addr as int, s),
                        (d + n - back) - max_int(regions[j].vm_addr as int, d),
                    );
                    let step = ChunkPair {
                        src_region: i as usize,
                        src_addr: (s + n - back - len) as u64,
                        dst_region: j as usize,
                        dst_addr: (d + n - back - len) as u64,
                        len: len as u64,
                    };
                    if len > 0 {
                        let rest = backward_pairs(regions, sa, s, da, d, n, back + len);
                        (seq![step].add(rest.0), rest.1)
                    } else {
                        (Seq::empty(), None)
                    }
                },
            },
        }
    }
}


/// The length of the next step of a front-to-back walk.
pub open spec fn front_step_len(
    regions: Seq<MemoryRegion>,
    i: int,
    j: int,
    s: int,
    d: int,
    n: int,
    off: int,
) -> int {
    min_int(
        min_int(region_end(regions[i]), s + n) - (s + off),
        min_int(region_end(regions[j]), d + n) - (d + off),
    )
}

proof fn lemma_forward_done(
    regions: Seq<MemoryRegion>,
    sa: AccessType,
    s: int,
    da: AccessType,
    d: int,
    n: int,
    off: int,
)
    requires
        off == n,
    ensures
        forward_pairs(regions, sa, s, da, d, n, off) == (Seq::<ChunkPair>::empty(), None::<MemoryError>),
{
    reveal(forward_pairs);
}

proof fn lemma_forward_src_fails(
    regions: Seq<MemoryRegion>,
    sa: AccessType,
    s: int,
    da: AccessType,
    d: int,
    n: int,
    off: int,
)
    requires
        0 <= off < n,
        lookup(regions, sa, s + off) is None,
    ensures
        forward_pairs(regions, sa, s, da, d, n, off) == (
            Seq::<ChunkPair>::empty(),
            Some(MemoryError::AccessViolation(sa, s as u64, n as u64)),
        ),
{
    reveal(forward_pairs);
}

proof fn lemma_forward_dst_fails(
    regions: Seq<MemoryRegion>,
    sa: AccessType,
    s: int,
    da: AccessType,
    d: int,
    n: int,
    off: int,
)
    requires
        0 <= off < n,
        lookup(regions, sa, s + off) is Some,
        lookup(regions, da, d + off) is None,
    ensures
        forward_pairs(regions, sa, s, da, d, n, off) == (
            Seq::<ChunkPair>::empty(),
            Some(MemoryError::AccessViolation(da, d as u64, n as u64)),
        ),
{
    reveal(forward_pairs);
}

proof fn lemma_forward_step(
    regions: Seq<MemoryRegion>,
    sa: AccessType,
    s: int,
    da: AccessType,
    d: int,
    n: int,
    off: int,
    i: int,
    j: int,
)
    requires
        0 <= off < n,
        0 <= i < regions.len(),
        0 <= j < regions.len(),
        lookup(regions, sa, s + off) == Some(i),
        lookup(regions, da, d + off) == Some(j),
        front_step_len(regions, i, j, s, d, n, off) > 0,
    ensures
        ({
            let len = front_step_len(regions, i, j, s, d, n, off);
            let rest = forward_pairs(regions, sa, s, da, d, n, off + len);
            forward_pairs(regions, sa, s, da, d, n, off) == (
                seq![
                    ChunkPair {
                        src_region: i as usize,
                        src_addr: (s + off) as u64,
                        dst_region: j as usize,
                        dst_addr: (d + off) as u64,
                        len: len as u64,
                    },
                ].add(rest.0),
                rest.1,
            )
        }),
{
    reveal(forward_pairs);
}


/// The length of the next step of a back-to-front walk.
pub open spec fn back_step_len(
    regions: Seq<MemoryRegion>,
    i: int,
    j: int,
    s: int,
    d: int,
    n: int,
    back: int,
) -> int {
    min_int(
        (s + n - back) - max_int(regions[i].vm_addr as int, s),
        (d + n - back) - max_int(regions[j].vm_addr as int, d),
    )
}

proof fn lemma_backward_done(
    regions: Seq<MemoryRegion>,
    sa: AccessType,
    s: int,
    da: AccessType,
    d: int,
    n: int,
    back: int,
)
    requires
        back == n,
    ensures
        backward_pairs(regions, sa, s, da, d, n, back) == (Seq::<ChunkPair>::empty(), None::<MemoryError>),
{
    reveal(backward_pairs);
}

proof fn lemma_backward_src_fails(
    regions: Seq<MemoryRegion>,
    sa: AccessType,
    s: int,
    da: AccessType,
    d: int,
    n: int,
    back: int,
)
    requires
        0 <= back < n,
        lookup(regions, sa, s + n - back - 1) is None,
    ensures
        backward_pairs(regions, sa, s, da, d, n, back) == (
            Seq::<ChunkPair>::empty(),
            Some(MemoryError::AccessViolation(sa, s as u64, n as u64)),
        ),
{
    reveal(backward_pairs);
}

proof fn lemma_backward_dst_fails(
    regions: Seq<MemoryRegion>,
    sa: AccessType,
    s: int,
    da: AccessType,
    d: int,
    n: int,
    back: int,
)
    requires
        0 <= back < n,
        lookup(regions, sa, s + n - back - 1) is Some,
        lookup(regions, da, d + n - back - 1) is None,
    ensures
        backward_pairs(regions, sa, s, da, d, n, back) == (
            Seq::<ChunkPair>::empty(),
            Some(MemoryError::AccessViolation(da, d as u64, n as u64)),
        ),
{
    reveal(backward_pairs);
}

proof fn lemma_backward_step(
    regions: Seq<MemoryRegion>,
    sa: AccessType,
    s: int,
    da: AccessType,
    d: int,
    n: int,
    back: int,
    i: int,
    j: int,
)
    requires
        0 <= back < n,
        0 <= i < regions.len(),
        0 <= j < regions.len(),
        lookup(regions, sa, s + n - back - 1) == Some(i),
        lookup(regions, da, d + n - back - 1) == Some(j),
        back_step_len(regions, i, j, s, d, n, back) > 0,
    ensures
        ({
            let len = back_step_len(regions, i, j, s, d, n, back);
            let rest = backward_pairs(regions, sa, s, da, d, n, back + len);
            backward_pairs(regions, sa, s, da, d, n, back) == (
                seq![
                    ChunkPair {
                        src_region: i as usize,
                        src_addr: (s + n - back - len) as u64,
                        dst_region: j as usize,
                        dst_addr: (d + n - back - len) as u64,
                        len: len as u64,
                    },
                ].add(rest.0),
                rest.1,
            )
        }),
{
    reveal(backward_pairs);
}

/// What a walk over two guest ranges yields: its steps, and `Ok` or the error
/// that stopped it. A range that runs past the end of the address space stops
/// it before the first step.
pub open spec fn pair_walk(
    regions: Seq<MemoryRegion>,
    sa: AccessType,
    s: int,
    da: AccessType,
    d: int,
    n: int,
    reverse: bool,
) -> (Seq<ChunkPair>, Option<MemoryError>) {
    if s + n > u64::MAX {
        (Seq::empty(), Some(MemoryError::AccessViolation(sa, s as u64, n as u64)))
    } else if d + n > u64::MAX {
        (Seq::empty(), Some(MemoryError::AccessViolation(da, d as u64, n as u64)))
    } else if reverse {
        backward_pairs(regions, sa, s, da, d, n, 0)
    } else {
        forward_pairs(regions, sa, s, da, d, n, 0)
    }
}

pub open spec fn outcome_of(e: Option<MemoryError>) -> Result<(), MemoryError> {
    match e {
        None => Ok(()),
        Some(err) => Err(err),
    }
}

pub proof fn lemma_lookup_some(regions: Seq<MemoryRegion>, access: AccessType, a: int)
    ensures
        lookup(regions, access, a) matches Some(i) ==> 0 <= i < regions.len() && region_contains(
            regions[i],
            a,
        ) && access_allowed(regions[i], access),
{
    reveal(lookup);
}

proof fn lemma_lookup_found(regions: Seq<MemoryRegion>, host_len: int, access: AccessType, a: int, i: int)
    requires
        memory_wf(regions, host_len),
        0 <= i < regions.len(),
        region_contains(regions[i], a),
        access_allowed(regions[i], access),
    ensures
        lookup(regions, access, a) == Some(i),
{
    reveal(lookup);
    let k = choose|k: int|
        0 <= k < regions.len() && region_contains(#[trigger] regions[k], a) && access_allowed(
            regions[k],
            access,
        );
    lemma_region_unique(regions, host_len, a, k, i);
}

/// Where a front-to-back walk over `n` bytes from `base` stands after `off`
/// bytes: the iterator has handed out everything before `base + off`, plus the
/// rest of the current chunk, if there is one.
pub open spec fn front_state(
    regions: Seq<MemoryRegion>,
    it: MemoryChunkIterator,
    chunk: Option<MemoryChunk>,
    base: int,
    off: int,
    n: int,
) -> bool {
    &&& 0 <= off <= n
    &&& it.wf()
    &&& it.initial_vm_addr == base
    &&& it.len == n
    &&& it.vm_addr_end == base + n
    &&& match chunk {
        None => it.vm_addr_start == base + off,
        Some(c) => {
            &&& c.vm_addr == base + off
            &&& 0 < c.len
            &&& it.vm_addr_start == base + off + c.len
            &&& c.region < regions.len()
            &&& region_contains(regions[c.region as int], base + off)
            &&& access_allowed(regions[c.region as int], it.access_type)
            &&& base + off + c.len == min_int(region_end(regions[c.region as int]), base + n)
        },
    }
}

/// The chunk that a front-to-back walk works on: the one it holds, or the next
/// one of the iterator.
fn front_chunk(
    mem: &GuestMemory,
    it: &mut MemoryChunkIterator,
    chunk: Option<MemoryChunk>,
    Ghost(base): Ghost<int>,
    Ghost(off): Ghost<int>,
    Ghost(n): Ghost<int>,
) -> (res: Option<Result<MemoryChunk, MemoryError>>)
    requires
        mem.wf(),
        front_state(mem.regions@, *old(it), chunk, base, off, n),
    ensures
        final(it).access_type == old(it).access_type,
        off == n ==> res is None,
        off < n ==> match lookup(mem.regions@, old(it).access_type, base + off) {
            None => res == Some(Err::<MemoryChunk, MemoryError>(old(it).violation())),
            Some(i) => res matches Some(Ok(c)) && c.region == i && front_state(
                mem.regions@,
                *final(it),
                Some(c),
                base,
                off,
                n,
            ),
        },
{
    match chunk {
        Some(c) => {
            proof {
                lemma_lookup_found(mem.regions@, mem.host@.len() as int, it.access_type, base + off, c.region as int);
            }
            assert(front_state(mem.regions@, *it, Some(c), base, off, n));
            assert(off < n);
            Some(Ok(c))
        },
        None => {
            proof {
                lemma_lookup_some(mem.regions@, it.access_type, base + off);
            }
            proof {
                assert(mem.regions@.len() == mem.regions.len());
            }
            it.next(mem)
        },
    }
}

/// The chunk that is left after the first `used` bytes of `c` are handled.
fn front_rest(c: MemoryChunk, used: u64) -> (res: Option<MemoryChunk>)
    requires
        used <= c.len,
        c.vm_addr + c.len <= u64::MAX,
    ensures
        used == c.len ==> res is None,
        used < c.len ==> res == Some(
            MemoryChunk { region: c.region, vm_addr: (c.vm_addr + used) as u64, len: (c.len - used) as u64 },
        ),
{
    if used == c.len {
        None
    } else {
        Some(MemoryChunk { region: c.region, vm_addr: c.vm_addr + used, len: c.len - used })
    }
}

#[verifier::rlimit(60)]
fn pair_chunks_forward(
    mem: &GuestMemory,
    src_start: MemoryChunkIterator,
    dst_start: MemoryChunkIterator,
) -> (res: (Vec<ChunkPair>, Result<(), MemoryError>))
    requires
        mem.wf(),
        src_start.vm_addr_start == src_start.initial_vm_addr,
        dst_start.vm_addr_start == dst_start.initial_vm_addr,
        src_start.vm_addr_end == src_start.initial_vm_addr + src_start.len,
        dst_start.vm_addr_end == dst_start.initial_vm_addr + src_start.len,
        dst_start.len == src_start.len,
    ensures
        ({
            let w = forward_pairs(
                mem.regions@,
                src_start.access_type,
                src_start.initial_vm_addr as int,
                dst_start.access_type,
                dst_start.initial_vm_addr as int,
                src_start.len as int,
                0,
            );
            res.0@ == w.0 && res.1 == outcome_of(w.1)
        }),
{
    let ghost regions = mem.regions@;
    let ghost sa = src_start.access_type;
    let ghost da = dst_start.access_type;
    let ghost s = src_start.initial_vm_addr as int;
    let ghost d = dst_start.initial_vm_addr as int;
    let ghost n = src_start.len as int;
    let ghost whole = forward_pairs(regions, sa, s, da, d, n, 0);
    let mut src_iter = src_start;
    let mut dst_iter = dst_start;
    let mut src_chunk: Option<MemoryChunk> = None;
    let mut dst_chunk: Option<MemoryChunk> = None;
    let mut pairs: Vec<ChunkPair> = Vec::new();
    let ghost mut off: int = 0;
    assert(pairs@.add(whole.0) =~= whole.0);
    let mut failure: Option<MemoryError> = None;
    loop
        invariant_except_break
            failure is None,
            front_state(regions, src_iter, src_chunk, s, off, n),
            front_state(regions, dst_iter, dst_chunk, d, off, n),
        invariant
            mem.wf(),
            regions == mem.regions@,
            src_iter.access_type == sa,
            dst_iter.access_type == da,
            0 <= off <= n,
            whole.1 == forward_pairs(regions, sa, s, da, d, n, off).1,
            whole.0 == pairs@.add(forward_pairs(regions, sa, s, da, d, n, off).0),
        ensures
            pairs@ == whole.0,
            whole.1 == failure,
        decreases n - off,
    {
        let sc = match front_chunk(mem, &mut src_iter, src_chunk, Ghost(s), Ghost(off), Ghost(n)) {
            Some(Ok(c)) => c,
            Some(Err(e)) => {
                proof {
                    lemma_forward_src_fails(regions, sa, s, da, d, n, off);
                }
                assert(pairs@.add(Seq::<ChunkPair>::empty()) =~= pairs@);
                failure = Some(e);
                break;
            },
            None => {
                proof {
                    lemma_forward_done(regions, sa, s, da, d, n, off);
                }
                assert(pairs@.add(Seq::<ChunkPair>::empty()) =~= pairs@);
                break;
            },
        };
        let dc = match front_chunk(mem, &mut dst_iter, dst_chunk, Ghost(d), Ghost(off), Ghost(n)) {
            Some(Ok(c)) => c,
            Some(Err(e)) => {
                proof {
                    lemma_forward_dst_fails(regions, sa, s, da, d, n, off);
                }
                assert(pairs@.add(Seq::<ChunkPair>::empty()) =~= pairs@);
                failure = Some(e);
                break;
            },
            None => {
                proof {
                    lemma_forward_done(regions, sa, s, da, d, n, off);
                }
                assert(pairs@.add(Seq::<ChunkPair>::empty()) =~= pairs@);
                break;
            },
        };
        let chunk_len = if sc.len <= dc.len {
            sc.len
        } else {
            dc.len
        };
        let step = ChunkPair {
            src_region: sc.region,
            src_addr: sc.vm_addr,
            dst_region: dc.region,
            dst_addr: dc.vm_addr,
            len: chunk_len,
        };
        proof {
            let rest = forward_pairs(regions, sa, s, da, d, n, off + chunk_len);
            assert(front_step_len(regions, sc.region as int, dc.region as int, s, d, n, off) == chunk_len);
            lemma_forward_step(regions, sa, s, da, d, n, off, sc.region as int, dc.region as int);
            assert(pairs@.push(step).add(rest.0) =~= pairs@.add(seq![step].add(rest.0)));
        }
        pairs.push(step);
        src_chunk = front_rest(sc, chunk_len);
        dst_chunk = front_rest(dc, chunk_len);
        proof {
            off = off + chunk_len;
        }
    }
    match failure {
        None => (pairs, Ok(())),
        Some(e) => (pairs, Err(e)),
    }
}

/// Where a back-to-front walk over `n` bytes from `base` stands after the last
/// `back` bytes: the iterator has handed out everything after
/// `base + n - back`, plus the rest of the current chunk, if there is one.
pub open spec fn back_state(
    regions: Seq<MemoryRegion>,
    it: MemoryChunkIterator,
    chunk: Option<MemoryChunk>,
    base: int,
    back: int,
    n: int,
) -> bool {
    &&& 0 <= back <= n
    &&& it.wf()
    &&& it.initial_vm_addr == base
    &&& it.len == n
    &&& it.vm_addr_start == base
    &&& base + n <= u64::MAX
    &&& match chunk {
        None => it.vm_addr_end == base + n - back,
        Some(c) => {
            &&& c.vm_addr + c.len == base + n - back
            &&& 0 < c.len
            &&& it.vm_addr_end == c.vm_addr
            &&& c.region < regions.len()
            &&& region_contains(regions[c.region as int], base + n - back - 1)
            &&& access_allowed(regions[c.region as int], it.access_type)
            &&& c.vm_addr == max_int(regions[c.region as int].vm_addr as int, base)
        },
    }
}

/// The chunk that a back-to-front walk works on: the one it holds, or the
/// next one from the back of the iterator.
fn back_chunk(
    mem: &GuestMemory,
    it: &mut MemoryChunkIterator,
    chunk: Option<MemoryChunk>,
    Ghost(base): Ghost<int>,
    Ghost(back): Ghost<int>,
    Ghost(n): Ghost<int>,
) -> (res: Option<Result<MemoryChunk, MemoryError>>)
    requires
        mem.wf(),
        back_state(mem.regions@, *old(it), chunk, base, back, n),
    ensures
        final(it).access_type == old(it).access_type,
        back == n ==> res is None,
        back < n ==> match lookup(mem.regions@, old(it).access_type, base + n - back - 1) {
            None => res == Some(Err::<MemoryChunk, MemoryError>(old(it).violation())),
            Some(i) => res matches Some(Ok(c)) && c.region == i && back_state(
                mem.regions@,
                *final(it),
                Some(c),
                base,
                back,
                n,
            ),
        },
{
    match chunk {
        Some(c) => {
            proof {
                lemma_lookup_found(
                    mem.regions@,
                    mem.host@.len() as int,
                    it.access_type,
                    base + n - back - 1,
                    c.region as int,
                );
            }
            Some(Ok(c))
        },
        None => {
            proof {
                lemma_lookup_some(mem.regions@, it.access_type, base + n - back - 1);
                assert(mem.regions@.len() == mem.regions.len());
            }
            it.next_back(mem)
        },
    }
}

/// The chunk that is left after its last `used` bytes are handled.
fn back_rest(c: MemoryChunk, used: u64) -> (res: Option<MemoryChunk>)
    requires
        used <= c.len,
    ensures
        used == c.len ==> res is None,
        used < c.len ==> res == Some(
            MemoryChunk { region: c.region, vm_addr: c.vm_addr, len: (c.len - used) as u64 },
        ),
{
    if used == c.len {
        None
    } else {
        Some(MemoryChunk { region: c.region, vm_addr: c.vm_addr, len: c.len - used })
    }
}

#[verifier::rlimit(60)]
fn pair_chunks_backward(
    mem: &GuestMemory,
    src_start: MemoryChunkIterator,
    dst_start: MemoryChunkIterator,
) -> (res: (Vec<ChunkPair>, Result<(), MemoryError>))
    requires
        mem.wf(),
        src_start.vm_addr_start == src_start.initial_vm_addr,
        dst_start.vm_addr_start == dst_start.initial_vm_addr,
        src_start.vm_addr_end == src_start.initial_vm_addr + src_start.len,
        dst_start.vm_addr_end == dst_start.initial_vm_addr + src_start.len,
        dst_start.len == src_start.len,
    ensures
        ({
            let w = backward_pairs(
                mem.regions@,
                src_start.access_type,
                src_start.initial_vm_addr as int,
                dst_start.access_type,
                dst_start.initial_vm_addr as int,
                src_start.len as int,
                0,
            );
            res.0@ == w.0 && res.1 == outcome_of(w.1)
        }),
{
    let ghost regions = mem.regions@;
    let ghost sa = src_start.access_type;
    let ghost da = dst_start.access_type;
    let ghost s = src_start.initial_vm_addr as int;
    let ghost d = dst_start.initial_vm_addr as int;
    let ghost n = src_start.len as int;
    let ghost whole = backward_pairs(regions, sa, s, da, d, n, 0);
    let mut src_iter = src_start;
    let mut dst_iter = dst_start;
    let mut src_chunk: Option<MemoryChunk> = None;
    let mut dst_chunk: Option<MemoryChunk> = None;
    let mut pairs: Vec<ChunkPair> = Vec::new();
    let ghost mut back: int = 0;
    assert(pairs@.add(whole.0) =~= whole.0);
    let mut failure: Option<MemoryError> = None;
    loop
        invariant_except_break
            failure is None,
            back_state(regions, src_iter, src_chunk, s, back, n),
            back_state(regions, dst_iter, dst_chunk, d, back, n),
        invariant
            mem.wf(),
            regions == mem.regions@,
            src_iter.access_type == sa,
            dst_iter.access_type == da,
            0 <= back <= n,
            whole.1 == backward_pairs(regions, sa, s, da, d, n, back).1,
            whole.0 == pairs@.add(backward_pairs(regions, sa, s, da, d, n, back).0),
        ensures
            pairs@ == whole.0,
            whole.1 == failure,
        decreases n - back,
    {
        let sc = match back_chunk(mem, &mut src_iter, src_chunk, Ghost(s), Ghost(back), Ghost(n)) {
            Some(Ok(c)) => c,
            Some(Err(e)) => {
                proof {
                    lemma_backward_src_fails(regions, sa, s, da, d, n, back);
                }
                assert(pairs@.add(Seq::<ChunkPair>::empty()) =~= pairs@);
                failure = Some(e);
                break;
            },
            None => {
                proof {
                    lemma_backward_done(regions, sa, s, da, d, n, back);
                }
                assert(pairs@.add(Seq::<ChunkPair>::empty()) =~= pairs@);
                break;
            },
        };
        let dc = match back_chunk(mem, &mut dst_iter, dst_chunk, Ghost(d), Ghost(back), Ghost(n)) {
            Some(Ok(c)) => c,
            Some(Err(e)) => {
                proof {
                    lemma_backward_dst_fails(regions, sa, s, da, d, n, back);
                }
                assert(pairs@.add(Seq::<ChunkPair>::empty()) =~= pairs@);
                failure = Some(e);
                break;
            },
            None => {
                proof {
                    lemma_backward_done(regions, sa, s, da, d, n, back);
                }
                assert(pairs@.add(Seq::<ChunkPair>::empty()) =~= pairs@);
                break;
            },
        };
        let chunk_len = if sc.len <= dc.len {
            sc.len
        } else {
            dc.len
        };
        let step = ChunkPair {
            src_region: sc.region,
            src_addr: sc.vm_addr + (sc.len - chunk_len),
            dst_region: dc.region,
            dst_addr: dc.vm_addr + (dc.len - chunk_len),
            len: chunk_len,
        };
        proof {
            let rest = backward_pairs(regions, sa, s, da, d, n, back + chunk_len);
            assert(back_step_len(regions, sc.region as int, dc.region as int, s, d, n, back) == chunk_len);
            lemma_backward_step(regions, sa, s, da, d, n, back, sc.region as int, dc.region as int);
            assert(pairs@.push(step).add(rest.0) =~= pairs@.add(seq![step].add(rest.0)));
        }
        pairs.push(step);
        src_chunk = back_rest(sc, chunk_len);
        dst_chunk = back_rest(dc, chunk_len);
        proof {
            back = back + chunk_len;
        }
    }
    match failure {
        None => (pairs, Ok(())),
        Some(e) => (pairs, Err(e)),
    }
}

/// Walks `n_bytes` from `src_addr` and from `dst_addr` in steps that each lie
/// in one region on both sides, front to back or, with `reverse`, back to
/// front. Returns the steps in the order they are taken, and `Ok` or the
/// access error that stopped the walk.
pub fn iter_memory_pair_chunks(
    mem: &GuestMemory,
    src_access: AccessType,
    src_addr: u64,
    dst_access: AccessType,
    dst_addr: u64,
    n_bytes: u64,
    reverse: bool,
) -> (res: (Vec<ChunkPair>, Result<(), MemoryError>))
    requires
        mem.wf(),
    ensures
        ({
            let w = pair_walk(
                mem.regions@,
                src_access,
                src_addr as int,
                dst_access,
                dst_addr as int,
                n_bytes as int,
                reverse,
            );
            res.0@ == w.0 && res.1 == outcome_of(w.1)
        }),
{
    let src_iter = match MemoryChunkIterator::new(src_access, src_addr, n_bytes) {
        Ok(it) => it,
        Err(e) => return (Vec::new(), Err(e)),
    };
    let dst_iter = match MemoryChunkIterator::new(dst_access, dst_addr, n_bytes) {
        Ok(it) => it,
        Err(e) => return (Vec::new(), Err(e)),
    };
    if reverse {
        pair_chunks_backward(mem, src_iter, dst_iter)
    } else {
        pair_chunks_forward(mem, src_iter, dst_iter)
    }
}

/// A step whose two chunks each lie inside the region they name.
pub open spec fn step_fits(regions: Seq<MemoryRegion>, p: ChunkPair) -> bool {
    &&& 0 < p.len
    &&& p.src_region < regions.len()
    &&& p.dst_region < regions.len()
    &&& regions[p.src_region as int].vm_addr <= p.src_addr
    &&& p.src_addr + p.len <= region_end(regions[p.src_region as int])
    &&& regions[p.dst_region as int].vm_addr <= p.dst_addr
    &&& p.dst_addr + p.len <= region_end(regions[p.dst_region as int])
}

pub open spec fn steps_fit(regions: Seq<MemoryRegion>, steps: Seq<ChunkPair>) -> bool {
    forall|k: int| 0 <= k < steps.len() ==> step_fits(regions, #[trigger] steps[k])
}

proof fn lemma_forward_steps_fit(
    regions: Seq<MemoryRegion>,
    host_len: int,
    sa: AccessType,
    s: int,
    da: AccessType,
    d: int,
    n: int,
    off: int,
)
    requires
        regions.len() <= usize::MAX,
        memory_wf(regions, host_len),
        0 <= s,
        0 <= d,
    ensures
        steps_fit(regions, forward_pairs(regions, sa, s, da, d, n, off).0),
    decreases n - off,
{
    reveal(forward_pairs);
    if 0 <= off < n {
        lemma_lookup_some(regions, sa, s + off);
        lemma_lookup_some(regions, da, d + off);
        if let Some(i) = lookup(regions, sa, s + off) {
            if let Some(j) = lookup(regions, da, d + off) {
                let len = front_step_len(regions, i, j, s, d, n, off);
                if len > 0 {
                    lemma_forward_steps_fit(regions, host_len, sa, s, da, d, n, off + len);
                    let rest = forward_pairs(regions, sa, s, da, d, n, off + len).0;
                    let all = forward_pairs(regions, sa, s, da, d, n, off).0;
                    assert forall|k: int| 0 <= k < all.len() implies step_fits(regions, #[trigger] all[k]) by {
                        if k > 0 {
                            assert(all[k] == rest[k - 1]);
                        }
                    }
                }
            }
        }
    }
}

proof fn lemma_backward_steps_fit(
    regions: Seq<MemoryRegion>,
    host_len: int,
    sa: AccessType,
    s: int,
    da: AccessType,
    d: int,
    n: int,
    back: int,
)
    requires
        regions.len() <= usize::MAX,
        memory_wf(regions, host_len),
        0 <= s,
        0 <= d,
    ensures
        steps_fit(regions, backward_pairs(regions, sa, s, da, d, n, back).0),
    decreases n - back,
{
    reveal(backward_pairs);
    if 0 <= back < n {
        lemma_lookup_some(regions, sa, s + n - back - 1);
        lemma_lookup_some(regions, da, d + n - back - 1);
        if let Some(i) = lookup(regions, sa, s + n - back - 1) {
            if let Some(j) = lookup(regions, da, d + n - back - 1) {
                let len = back_step_len(regions, i, j, s, d, n, back);
                if len > 0 {
                    lemma_backward_steps_fit(regions, host_len, sa, s, da, d, n, back + len);
                    let rest = backward_pairs(regions, sa, s, da, d, n, back + len).0;
                    let all = backward_pairs(regions, sa, s, da, d, n, back).0;
                    assert forall|k: int| 0 <= k < all.len() implies step_fits(regions, #[trigger] all[k]) by {
                        if k > 0 {
                            assert(all[k] == rest[k - 1]);
                        }
                    }
                }
            }
        }
    }
}

/// Every step of a walk lies inside the regions it names.
pub proof fn lemma_walk_steps_fit(
    regions: Seq<MemoryRegion>,
    host_len: int,
    sa: AccessType,
    s: u64,
    da: AccessType,
    d: u64,
    n: u64,
    reverse: bool,
)
    requires
        regions.len() <= usize::MAX,
        memory_wf(regions, host_len),
    ensures
        steps_fit(regions, pair_walk(regions, sa, s as int, da, d as int, n as int, reverse).0),
{
    lemma_forward_steps_fit(regions, host_len, sa, s as int, da, d as int, n as int, 0);
    lemma_backward_steps_fit(regions, host_len, sa, s as int, da, d as int, n as int, 0);
}

/// The host index of the guest address `a` in the region `r`.
pub open spec fn host_index(r: MemoryRegion, a: int) -> int {
    r.host_offset + (a - r.vm_addr)
}

/// The host buffer after the `len` bytes at `src` are copied to `dst`, as one
/// move that reads them all before it writes.
pub open spec fn copy_within(host: Seq<u8>, src: int, dst: int, len: int) -> Seq<u8> {
    Seq::new(
        host.len(),
        |k: int|
            if dst <= k < dst + len {
                host[src + (k - dst)]
            } else {
                host[k]
            },
    )
}

/// The host buffer after each step copies its source chunk to its
/// destination chunk, in order.
pub open spec fn apply_moves(regions: Seq<MemoryRegion>, host: Seq<u8>, steps: Seq<ChunkPair>) -> Seq<u8>
    decreases steps.len(),
{
    if steps.len() == 0 {
        host
    } else {
        let p = steps[0];
        apply_moves(
            regions,
            copy_within(
                host,
                host_index(regions[p.src_region as int], p.src_addr as int),
                host_index(regions[p.dst_region as int], p.dst_addr as int),
                p.len as int,
            ),
            steps.drop_first(),
        )
    }
}

/// Whether a move walks from the back: when the destination starts inside
/// the source range, past its start.
pub open spec fn moves_backward(dst_addr: u64, src_addr: u64, n: u64) -> bool {
    dst_addr.wrapping_sub(src_addr) < n
}

/// The host index where the `len` bytes from the guest address `vm_addr`
/// begin, if they lie inside the region.
pub fn vm_to_host(r: MemoryRegion, vm_addr: u64, len: u64) -> (res: Result<u64, MemoryError>)
    requires
        r.host_offset + r.len <= u64::MAX,
    ensures
        r.vm_addr <= vm_addr && vm_addr - r.vm_addr + len <= r.len ==> res == Ok::<
            u64,
            MemoryError,
        >(host_index(r, vm_addr as int) as u64),
        !(r.vm_addr <= vm_addr && vm_addr - r.vm_addr + len <= r.len) ==> res == Err::<
            u64,
            MemoryError,
        >(MemoryError::InvalidVirtualAddress(vm_addr)),
{
    if vm_addr < r.vm_addr {
        return Err(MemoryError::InvalidVirtualAddress(vm_addr));
    }
    let begin_offset = vm_addr - r.vm_addr;
    match begin_offset.checked_add(len) {
        Some(end_offset) => {
            if end_offset <= r.len {
                Ok(r.host_offset + begin_offset)
            } else {
                Err(MemoryError::InvalidVirtualAddress(vm_addr))
            }
        },
        None => Err(MemoryError::InvalidVirtualAddress(vm_addr)),
    }
}

/// Copies `len` host bytes from `src` to `dst`, reading them all first.
fn copy_chunk(host: &mut Vec<u8>, src: usize, dst: usize, len: usize)
    requires
        src + len <= old(host)@.len(),
        dst + len <= old(host)@.len(),
    ensures
        final(host)@ == copy_within(old(host)@, src as int, dst as int, len as int),
{
    let mut tmp: Vec<u8> = Vec::new();
    let mut k: usize = 0;
    while k < len
        invariant
            k <= len,
            src + len <= host@.len(),
            tmp@ == host@.subrange(src as int, src + k),
            src + len <= host.len(),
        decreases len - k,
    {
        tmp.push(host[src + k]);
        k = k + 1;
        assert(tmp@ =~= host@.subrange(src as int, src + k));
    }
    let ghost before = host@;
    let mut k: usize = 0;
    while k < len
        invariant
            k <= len,
            dst + len <= before.len(),
            src + len <= before.len(),
            tmp@ == before.subrange(src as int, src + len),
            host@.len() == before.len(),
            dst + len <= host.len(),
            forall|x: int|
                0 <= x < before.len() ==> #[trigger] host@[x] == if dst <= x < dst + k {
                    before[src + (x - dst)]
                } else {
                    before[x]
                },
        decreases len - k,
    {
        host.set(dst + k, tmp[k]);
        k = k + 1;
    }
    assert(host@ =~= copy_within(before, src as int, dst as int, len as int));
}

/// Runs the copies of the steps `steps[from..]` on the host buffer.
fn run_moves(mem: &mut GuestMemory, steps: &Vec<ChunkPair>) -> (res: Result<(), MemoryError>)
    requires
        old(mem).wf(),
        steps_fit(old(mem).regions@, steps@),
    ensures
        final(mem).regions@ == old(mem).regions@,
        final(mem).host@ == apply_moves(old(mem).regions@, old(mem).host@, steps@),
        res is Ok,
{
    let ghost regions = mem.regions@;
    let ghost host0 = mem.host@;
    let mut k: usize = 0;
    assert(steps@.subrange(0, steps@.len() as int) =~= steps@);
    while k < steps.len()
        invariant
            mem.wf(),
            mem.regions@ == regions,
            steps_fit(regions, steps@),
            k <= steps.len(),
            apply_moves(regions, mem.host@, steps@.subrange(k as int, steps@.len() as int))
                == apply_moves(regions, host0, steps@),
        decreases steps.len() - k,
    {
        let p = steps[k];
        assert(step_fits(regions, steps@[k as int]));
        assert(mem.host@.len() == mem.host.len());
        let sr = mem.regions[p.src_region];
        let dr = mem.regions[p.dst_region];
        assert(mem.regions@[p.src_region as int] == sr);
        let src = match vm_to_host(sr, p.src_addr, p.len) {
            Ok(h) => h,
            Err(e) => return Err(e),
        };
        let dst = match vm_to_host(dr, p.dst_addr, p.len) {
            Ok(h) => h,
            Err(e) => return Err(e),
        };
        let ghost rest = steps@.subrange(k as int, steps@.len() as int);
        assert(rest.drop_first() =~= steps@.subrange(k + 1, steps@.len() as int));
        copy_chunk(&mut mem.host, src as usize, dst as usize, p.len as usize);
        k = k + 1;
    }
    assert(steps@.subrange(k as int, steps@.len() as int) =~= Seq::<ChunkPair>::empty());
    Ok(())
}

/// Copies `n` guest bytes from `src_addr` to `dst_addr`, chunk by chunk, as
/// one move even where the two ranges overlap: when the destination starts
/// inside the source, the chunks are taken from the back. The chunks before
/// an address that is not mapped for its access are copied; that address
/// ends the copy with its error.
pub fn memmove_non_contiguous(dst_addr: u64, src_addr: u64, n: u64, mem: &mut GuestMemory) -> (res: Result<
    u64,
    MemoryError,
>)
    requires
        old(mem).wf(),
    ensures
        ({
            let w = pair_walk(
                old(mem).regions@,
                AccessType::Load,
                src_addr as int,
                AccessType::Store,
                dst_addr as int,
                n as int,
                moves_backward(dst_addr, src_addr, n),
            );
            &&& final(mem).regions@ == old(mem).regions@
            &&& final(mem).host@ == apply_moves(old(mem).regions@, old(mem).host@, w.0)
            &&& res == match w.1 {
                None => Ok::<u64, MemoryError>(0),
                Some(e) => Err(e),
            }
        }),
{
    let reverse = dst_addr.wrapping_sub(src_addr) < n;
    let (steps, outcome) = iter_memory_pair_chunks(
        mem,
        AccessType::Load,
        src_addr,
        AccessType::Store,
        dst_addr,
        n,
        reverse,
    );
    proof {
        assert(mem.regions@.len() == mem.regions.len());
        lemma_walk_steps_fit(mem.regions@, mem.host@.len() as int, AccessType::Load, src_addr, AccessType::Store, dst_addr, n, reverse);
    }
    let moved = run_moves(mem, &steps);
    match moved {
        Ok(()) => {},
        Err(e) => return Err(e),
    }
    match outcome {
        Ok(()) => Ok(0),
        Err(e) => Err(e),
    }
}

/// The difference of the first pair of unequal bytes among positions
/// `i..n` of `a` and `b`, or 0 when they agree there.
pub open spec fn first_difference(a: Seq<u8>, b: Seq<u8>, n: int, i: int) -> int
    decreases n - i,
{
    if i < 0 || i >= n {
        0
    } else if a[i] != b[i] {
        a[i] - b[i]
    } else {
        first_difference(a, b, n, i + 1)
    }
}

/// The difference of the first unequal pair among the first `n` bytes.
pub open spec fn bytes_difference(a: Seq<u8>, b: Seq<u8>, n: usize) -> int {
    first_difference(a, b, n as int, 0)
}

fn first_unequal(s1: &[u8], s2: &[u8], n: usize) -> (res: i32)
    requires
        n <= s1@.len(),
        n <= s2@.len(),
    ensures
        res == bytes_difference(s1@, s2@, n),
{
    let mut i: usize = 0;
    let mut res: i32 = 0;
    while i < n
        invariant_except_break
            res == 0,
            first_difference(s1@, s2@, n as int, 0) == first_difference(s1@, s2@, n as int, i as int),
        invariant
            i <= n,
            n <= s1@.len(),
            n <= s2@.len(),
        ensures
            res == first_difference(s1@, s2@, n as int, 0),
        decreases n - i,
    {
        let a = s1[i];
        let b = s2[i];
        if a != b {
            res = (a as i32) - (b as i32);
            break;
        }
        i = i + 1;
    }
    res
}

/// Compares the first `n` bytes of `s1` and `s2`: the difference of the
/// first unequal pair, or 0.
pub fn memcmp(s1: &[u8], s2: &[u8], n: usize) -> (res: i32)
    requires
        n <= s1@.len(),
        n <= s2@.len(),
    ensures
        res == bytes_difference(s1@, s2@, n),
{
    first_unequal(s1, s2, n)
}

/// The comparison of two guest ranges, step by step: the first step whose
/// chunks differ gives the difference of their first unequal bytes.
pub open spec fn compare_steps(regions: Seq<MemoryRegion>, host: Seq<u8>, steps: Seq<ChunkPair>) -> int
    decreases steps.len(),
{
    if steps.len() == 0 {
        0
    } else {
        let p = steps[0];
        let si = host_index(regions[p.src_region as int], p.src_addr as int);
        let di = host_index(regions[p.dst_region as int], p.dst_addr as int);
        let r = first_difference(host.subrange(si, si + p.len), host.subrange(di, di + p.len), p.len as int, 0);
        if r != 0 {
            r
        } else {
            compare_steps(regions, host, steps.drop_first())
        }
    }
}

proof fn lemma_first_difference_bound(a: Seq<u8>, b: Seq<u8>, n: int, i: int)
    ensures
        -255 <= first_difference(a, b, n, i) <= 255,
    decreases n - i,
{
    if 0 <= i < n && a[i] == b[i] {
        lemma_first_difference_bound(a, b, n, i + 1);
    }
}

proof fn lemma_compare_steps_bound(regions: Seq<MemoryRegion>, host: Seq<u8>, steps: Seq<ChunkPair>)
    ensures
        -255 <= compare_steps(regions, host, steps) <= 255,
    decreases steps.len(),
{
    if steps.len() > 0 {
        let p = steps[0];
        let si = host_index(regions[p.src_region as int], p.src_addr as int);
        let di = host_index(regions[p.dst_region as int], p.dst_addr as int);
        lemma_first_difference_bound(host.subrange(si, si + p.len), host.subrange(di, di + p.len), p.len as int, 0);
        lemma_compare_steps_bound(regions, host, steps.drop_first());
    }
}

/// What comparing `n` guest bytes from `src_addr` with `n` from `dst_addr`
/// gives: the difference of the first unequal bytes, if the walk reaches one;
/// else the error that stopped the walk, or 0.
pub open spec fn comparison_outcome(
    regions: Seq<MemoryRegion>,
    host: Seq<u8>,
    src_addr: u64,
    dst_addr: u64,
    n: u64,
) -> Result<i32, MemoryError> {
    let w = pair_walk(regions, AccessType::Load, src_addr as int, AccessType::Load, dst_addr as int, n as int, false);
    let c = compare_steps(regions, host, w.0);
    if c != 0 {
        Ok(c as i32)
    } else {
        match w.1 {
            None => Ok(0),
            Some(e) => Err(e),
        }
    }
}

fn compare_walk(src_addr: u64, dst_addr: u64, n: u64, mem: &GuestMemory) -> (res: Result<
    i32,
    MemoryError,
>)
    requires
        mem.wf(),
    ensures
        res == comparison_outcome(mem.regions@, mem.host@, src_addr, dst_addr, n),
{
    let (steps, outcome) = iter_memory_pair_chunks(
        mem,
        AccessType::Load,
        src_addr,
        AccessType::Load,
        dst_addr,
        n,
        false,
    );
    let ghost regions = mem.regions@;
    let ghost host = mem.host@;
    proof {
        assert(mem.regions@.len() == mem.regions.len());
        assert(mem.host@.len() == mem.host.len());
        lemma_walk_steps_fit(regions, host.len() as int, AccessType::Load, src_addr, AccessType::Load, dst_addr, n, false);
        lemma_compare_steps_bound(regions, host, steps@);
        assert(steps@.subrange(0, steps@.len() as int) =~= steps@);
    }
    let mut k: usize = 0;
    let mut diff: i32 = 0;
    while k < steps.len()
        invariant_except_break
            diff == 0,
            compare_steps(regions, host, steps@) == compare_steps(
                regions,
                host,
                steps@.subrange(k as int, steps@.len() as int),
            ),
        invariant
            mem.wf(),
            regions == mem.regions@,
            host == mem.host@,
            host.len() == mem.host.len(),
            steps_fit(regions, steps@),
            k <= steps.len(),
        ensures
            diff == compare_steps(regions, host, steps@),
        decreases steps.len() - k,
    {
        let p = steps[k];
        assert(step_fits(regions, steps@[k as int]));
        let sr = mem.regions[p.src_region];
        let dr = mem.regions[p.dst_region];
        let si = match vm_to_host(sr, p.src_addr, p.len) {
            Ok(h) => h,
            Err(_) => 0,
        };
        let di = match vm_to_host(dr, p.dst_addr, p.len) {
            Ok(h) => h,
            Err(_) => 0,
        };
        let whole = mem.host.as_slice();
        let s1 = vstd::slice::slice_subrange(whole, si as usize, (si + p.len) as usize);
        let s2 = vstd::slice::slice_subrange(whole, di as usize, (di + p.len) as usize);
        let r = first_unequal(s1, s2, p.len as usize);
        let ghost rest = steps@.subrange(k as int, steps@.len() as int);
        assert(rest.drop_first() =~= steps@.subrange(k + 1, steps@.len() as int));
        assert(rest[0] == p);
        if r != 0 {
            diff = r;
            break;
        }
        k = k + 1;
    }
    if diff != 0 {
        return Ok(diff);
    }
    match outcome {
        Ok(()) => Ok(0),
        Err(e) => Err(e),
    }
}


/// Compares `n` guest bytes from `src_addr` with `n` from `dst_addr`, chunk
/// by chunk from the front. The first chunks that differ give the result,
/// the difference of their first unequal bytes; an address that is not
/// mapped, reached before any difference, gives its error; equal ranges
/// give 0.
pub fn memcmp_non_contiguous(src_addr: u64, dst_addr: u64, n: u64, mem: &GuestMemory) -> (res: Result<
    i32,
    MemoryError,
>)
    requires
        mem.wf(),
    ensures
        res == comparison_outcome(mem.regions@, mem.host@, src_addr, dst_addr, n),
{
    compare_walk(src_addr, dst_addr, n, mem)
}

/// The host buffer with the `len` bytes from `start` set to `c`.
pub open spec fn fill_range(host: Seq<u8>, start: int, len: int, c: u8) -> Seq<u8> {
    Seq::new(host.len(), |k: int| if start <= k < start + len { c } else { host[k] })
}

/// The host buffer after the destination chunk of each step is filled.
pub open spec fn apply_fills(regions: Seq<MemoryRegion>, host: Seq<u8>, steps: Seq<ChunkPair>, c: u8) -> Seq<u8>
    decreases steps.len(),
{
    if steps.len() == 0 {
        host
    } else {
        let p = steps[0];
        apply_fills(
            regions,
            fill_range(host, host_index(regions[p.dst_region as int], p.dst_addr as int), p.len as int, c),
            steps.drop_first(),
            c,
        )
    }
}

fn fill_chunk(host: &mut Vec<u8>, start: usize, len: usize, c: u8)
    requires
        start + len <= old(host)@.len(),
    ensures
        final(host)@ == fill_range(old(host)@, start as int, len as int, c),
{
    let ghost before = host@;
    let mut k: usize = 0;
    while k < len
        invariant
            k <= len,
            start + len <= host.len(),
            host@.len() == before.len(),
            forall|x: int|
                0 <= x < before.len() ==> #[trigger] host@[x] == if start <= x < start + k {
                    c
                } else {
                    before[x]
                },
        decreases len - k,
    {
        host.set(start + k, c);
        k = k + 1;
    }
    assert(host@ =~= fill_range(before, start as int, len as int, c));
}

/// Sets `n` guest bytes from `dst_addr` to `c`, chunk by chunk from the
/// front. The chunks before an address that is not mapped writable are set;
/// that address ends the call with its error.
pub fn memset_non_contiguous(dst_addr: u64, c: u8, n: u64, mem: &mut GuestMemory) -> (res: Result<
    u64,
    MemoryError,
>)
    requires
        old(mem).wf(),
    ensures
        ({
            let w = pair_walk(
                old(mem).regions@,
                AccessType::Store,
                dst_addr as int,
                AccessType::Store,
                dst_addr as int,
                n as int,
                false,
            );
            &&& final(mem).regions@ == old(mem).regions@
            &&& final(mem).host@ == apply_fills(old(mem).regions@, old(mem).host@, w.0, c)
            &&& res == match w.1 {
                None => Ok::<u64, MemoryError>(0),
                Some(e) => Err(e),
            }
        }),
{
    let ghost regions = mem.regions@;
    let ghost host0 = mem.host@;
    let ghost d = dst_addr as int;
    let ghost nn = n as int;
    let ghost whole = forward_pairs(regions, AccessType::Store, d, AccessType::Store, d, nn, 0);
    let mut it = match MemoryChunkIterator::new(AccessType::Store, dst_addr, n) {
        Ok(it) => it,
        Err(e) => return Err(e),
    };
    proof {
        assert(mem.regions@.len() == mem.regions.len());
        lemma_forward_steps_fit(regions, host0.len() as int, AccessType::Store, d, AccessType::Store, d, nn, 0);
    }
    let ghost mut off: int = 0;
    let ghost mut done: Seq<ChunkPair> = Seq::empty();
    assert(done.add(whole.0) =~= whole.0);
    let mut failure: Option<MemoryError> = None;
    loop
        invariant_except_break
            failure is None,
            front_state(regions, it, None, d, off, nn),
        invariant
            mem.wf(),
            mem.regions@ == regions,
            it.access_type == AccessType::Store,
            0 <= off <= nn,
            steps_fit(regions, whole.0),
            whole.1 == forward_pairs(regions, AccessType::Store, d, AccessType::Store, d, nn, off).1,
            whole.0 == done.add(forward_pairs(regions, AccessType::Store, d, AccessType::Store, d, nn, off).0),
            apply_fills(regions, mem.host@, forward_pairs(regions, AccessType::Store, d, AccessType::Store, d, nn, off).0, c)
                == apply_fills(regions, host0, whole.0, c),
        ensures
            mem.host@ == apply_fills(regions, host0, whole.0, c),
            whole.1 == failure,
        decreases nn - off,
    {
        let chunk = match front_chunk(mem, &mut it, None, Ghost(d), Ghost(off), Ghost(nn)) {
            Some(Ok(chunk)) => chunk,
            Some(Err(e)) => {
                proof {
                    lemma_forward_src_fails(regions, AccessType::Store, d, AccessType::Store, d, nn, off);
                }
                failure = Some(e);
                break;
            },
            None => {
                proof {
                    lemma_forward_done(regions, AccessType::Store, d, AccessType::Store, d, nn, off);
                }
                break;
            },
        };
        let ghost step = ChunkPair {
            src_region: chunk.region,
            src_addr: chunk.vm_addr,
            dst_region: chunk.region,
            dst_addr: chunk.vm_addr,
            len: chunk.len,
        };
        let ghost rest = forward_pairs(regions, AccessType::Store, d, AccessType::Store, d, nn, off + chunk.len);
        proof {
            lemma_lookup_found(regions, mem.host@.len() as int, AccessType::Store, d + off, chunk.region as int);
            assert(front_step_len(regions, chunk.region as int, chunk.region as int, d, d, nn, off) == chunk.len);
            lemma_forward_step(regions, AccessType::Store, d, AccessType::Store, d, nn, off, chunk.region as int, chunk.region as int);
            assert(done.push(step).add(rest.0) =~= done.add(seq![step].add(rest.0)));
            assert(seq![step].add(rest.0).drop_first() =~= rest.0);
            assert(mem.host@.len() == mem.host.len());
        }
        let r = mem.regions[chunk.region];
        let start = match vm_to_host(r, chunk.vm_addr, chunk.len) {
            Ok(h) => h,
            Err(e) => return Err(e),
        };
        fill_chunk(&mut mem.host, start as usize, chunk.len as usize, c);
        proof {
            done = done.push(step);
            off = off + chunk.len;
        }
        it = MemoryChunkIterator { vm_addr_start: it.vm_addr_start, ..it };
    }
    match failure {
        None => Ok(0),
        Some(e) => Err(e),
    }
}

/// The byte that a load from the guest address `a` reads, if `a` is mapped.
pub open spec fn guest_byte(regions: Seq<MemoryRegion>, host: Seq<u8>, a: int) -> Option<u8> {
    match lookup(regions, AccessType::Load, a) {
        Some(i) => Some(host[host_index(regions[i], a)]),
        None => None,
    }
}

proof fn lemma_first_difference_zero(a: Seq<u8>, b: Seq<u8>, n: int, i: int)
    requires
        0 <= i <= n,
        n <= a.len(),
        n <= b.len(),
    ensures
        (first_difference(a, b, n, i) == 0) <==> (forall|k: int| i <= k < n ==> a[k] == b[k]),
        first_difference(a, b, n, i) < 0 <==> exists|k: int|
            i <= k < n && a[k] < b[k] && (forall|m: int| i <= m < k ==> a[m] == b[m]),
    decreases n - i,
{
    if i < n {
        lemma_first_difference_zero(a, b, n, i + 1);
        if a[i] == b[i] {
            if first_difference(a, b, n, i) < 0 {
                let k = choose|k: int|
                    i + 1 <= k < n && a[k] < b[k] && (forall|m: int| i + 1 <= m < k ==> a[m] == b[m]);
                assert(forall|m: int| i <= m < k ==> a[m] == b[m]);
            }
            if exists|k: int| i <= k < n && a[k] < b[k] && (forall|m: int| i <= m < k ==> a[m] == b[m]) {
                let k = choose|k: int| i <= k < n && a[k] < b[k] && (forall|m: int| i <= m < k ==> a[m] == b[m]);
                assert(k != i);
                assert(forall|m: int| i + 1 <= m < k ==> a[m] == b[m]);
            }
        } else {
            if a[i] < b[i] {
                assert(forall|m: int| i <= m < i ==> a[m] == b[m]);
            } else {
                if exists|k: int| i <= k < n && a[k] < b[k] && (forall|m: int| i <= m < k ==> a[m] == b[m]) {
                    let k = choose|k: int| i <= k < n && a[k] < b[k] && (forall|m: int| i <= m < k ==> a[m] == b[m]);
                    if k > i {
                        assert(a[i] == b[i]);
                    }
                }
            }
        }
    }
}

/// The byte comparison gives 0 exactly when the first `n` bytes agree, and a negative
/// number exactly when, at the first place where they differ, the first
/// slice holds the smaller byte.
pub proof fn lemma_bytes_difference_sign(a: Seq<u8>, b: Seq<u8>, n: usize)
    requires
        n <= a.len(),
        n <= b.len(),
    ensures
        (bytes_difference(a, b, n) == 0) <==> a.subrange(0, n as int) == b.subrange(0, n as int),
        bytes_difference(a, b, n) < 0 <==> exists|k: int|
            0 <= k < n && a[k] < b[k] && a.subrange(0, k) == b.subrange(0, k),
{
    lemma_first_difference_zero(a, b, n as int, 0);
    if a.subrange(0, n as int) == b.subrange(0, n as int) {
        assert forall|k: int| 0 <= k < n implies a[k] == b[k] by {
            assert(a.subrange(0, n as int)[k] == b.subrange(0, n as int)[k]);
        }
    }
    if forall|k: int| 0 <= k < n ==> a[k] == b[k] {
        assert(a.subrange(0, n as int) =~= b.subrange(0, n as int));
    }
    if bytes_difference(a, b, n) < 0 {
        let k = choose|k: int| 0 <= k < n && a[k] < b[k] && (forall|m: int| 0 <= m < k ==> a[m] == b[m]);
        assert(a.subrange(0, k) =~= b.subrange(0, k));
    }
    if exists|k: int| 0 <= k < n && a[k] < b[k] && a.subrange(0, k) == b.subrange(0, k) {
        let k = choose|k: int| 0 <= k < n && a[k] < b[k] && a.subrange(0, k) == b.subrange(0, k);
        assert forall|m: int| 0 <= m < k implies a[m] == b[m] by {
            assert(a.subrange(0, k)[m] == b.subrange(0, k)[m]);
        }
    }
}

/// A front-to-back comparison walk from `off` on that meets no unmapped
/// address finds no difference exactly when the rest of the two ranges hold
/// the same bytes.
proof fn lemma_forward_compare_zero(regions: Seq<MemoryRegion>, host: Seq<u8>, s: int, d: int, n: int, off: int)
    requires
        memory_wf(regions, host.len() as int),
        regions.len() <= usize::MAX,
        0 <= s,
        0 <= d,
        0 <= off <= n,
        forward_pairs(regions, AccessType::Load, s, AccessType::Load, d, n, off).1 is None,
    ensures
        (compare_steps(regions, host, forward_pairs(regions, AccessType::Load, s, AccessType::Load, d, n, off).0)
            == 0) <==> (forall|k: int|
            off <= k < n ==> #[trigger] guest_byte(regions, host, s + k) == guest_byte(regions, host, d + k)),
    decreases n - off,
{
    reveal(forward_pairs);
    lemma_lookup_some(regions, AccessType::Load, s + off);
    lemma_lookup_some(regions, AccessType::Load, d + off);
    if off < n {
        let i = lookup(regions, AccessType::Load, s + off)->Some_0;
        let j = lookup(regions, AccessType::Load, d + off)->Some_0;
        let len = front_step_len(regions, i, j, s, d, n, off);
        let all = forward_pairs(regions, AccessType::Load, s, AccessType::Load, d, n, off).0;
        let rest = forward_pairs(regions, AccessType::Load, s, AccessType::Load, d, n, off + len).0;
        assert(all.drop_first() =~= rest);
        let si = host_index(regions[i], s + off);
        let di = host_index(regions[j], d + off);
        let a = host.subrange(si, si + len);
        let b = host.subrange(di, di + len);
        lemma_first_difference_zero(a, b, len, 0);
        lemma_forward_compare_zero(regions, host, s, d, n, off + len);
        assert forall|t: int| 0 <= t < len implies (a[t] == b[t]) == (guest_byte(regions, host, s + off + t)
            == guest_byte(regions, host, d + off + t)) by {
            lemma_lookup_found(regions, host.len() as int, AccessType::Load, s + off + t, i);
            lemma_lookup_found(regions, host.len() as int, AccessType::Load, d + off + t, j);
        }
        if compare_steps(regions, host, all) == 0 {
            assert forall|k: int| off <= k < n implies #[trigger] guest_byte(regions, host, s + k) == guest_byte(
                regions,
                host,
                d + k,
            ) by {
                if k < off + len {
                    let t = k - off;
                    assert(a[t] == b[t]);
                }
            }
        }
        if forall|k: int| off <= k < n ==> #[trigger] guest_byte(regions, host, s + k) == guest_byte(regions, host, d + k) {
            assert forall|t: int| 0 <= t < len implies a[t] == b[t] by {
                assert(guest_byte(regions, host, s + (off + t)) == guest_byte(regions, host, d + (off + t)));
            }
        }
    }
}

/// Comparing two guest ranges gives 0 exactly when both are mapped for
/// reading and hold the same bytes.
pub proof fn lemma_comparison_zero_iff_equal(
    regions: Seq<MemoryRegion>,
    host: Seq<u8>,
    src_addr: u64,
    dst_addr: u64,
    n: u64,
)
    requires
        memory_wf(regions, host.len() as int),
        regions.len() <= usize::MAX,
    ensures
        (comparison_outcome(regions, host, src_addr, dst_addr, n) == Ok::<i32, MemoryError>(0)) <==> (
        pair_walk(regions, AccessType::Load, src_addr as int, AccessType::Load, dst_addr as int, n as int, false).1
            is None && forall|k: int|
            0 <= k < n ==> #[trigger] guest_byte(regions, host, src_addr + k) == guest_byte(
                regions,
                host,
                dst_addr + k,
            )),
{
    let w = pair_walk(regions, AccessType::Load, src_addr as int, AccessType::Load, dst_addr as int, n as int, false);
    lemma_compare_steps_bound(regions, host, w.0);
    if w.1 is None && src_addr + n <= u64::MAX && dst_addr + n <= u64::MAX {
        lemma_forward_compare_zero(regions, host, src_addr as int, dst_addr as int, n as int, 0);
    }
}

/// The number of bytes that a list of steps covers.
pub open spec fn steps_len(steps: Seq<ChunkPair>) -> int
    decreases steps.len(),
{
    if steps.len() == 0 {
        0
    } else {
        steps[0].len + steps_len(steps.drop_first())
    }
}

proof fn lemma_forward_covers(
    regions: Seq<MemoryRegion>,
    sa: AccessType,
    s: int,
    da: AccessType,
    d: int,
    n: int,
    off: int,
)
    requires
        0 <= off <= n,
        forward_pairs(regions, sa, s, da, d, n, off).1 is None,
    ensures
        steps_len(forward_pairs(regions, sa, s, da, d, n, off).0) == n - off,
    decreases n - off,
{
    reveal(forward_pairs);
    lemma_lookup_some(regions, sa, s + off);
    lemma_lookup_some(regions, da, d + off);
    if off < n {
        if let Some(i) = lookup(regions, sa, s + off) {
            if let Some(j) = lookup(regions, da, d + off) {
                let len = front_step_len(regions, i, j, s, d, n, off);
                let all = forward_pairs(regions, sa, s, da, d, n, off).0;
                lemma_forward_covers(regions, sa, s, da, d, n, off + len);
                assert(all.drop_first() =~= forward_pairs(regions, sa, s, da, d, n, off + len).0);
            }
        }
    }
}

proof fn lemma_backward_covers(
    regions: Seq<MemoryRegion>,
    sa: AccessType,
    s: int,
    da: AccessType,
    d: int,
    n: int,
    back: int,
)
    requires
        0 <= back <= n,
        backward_pairs(regions, sa, s, da, d, n, back).1 is None,
    ensures
        steps_len(backward_pairs(regions, sa, s, da, d, n, back).0) == n - back,
    decreases n - back,
{
    reveal(backward_pairs);
    lemma_lookup_some(regions, sa, s + n - back - 1);
    lemma_lookup_some(regions, da, d + n - back - 1);
    if back < n {
        if let Some(i) = lookup(regions, sa, s + n - back - 1) {
            if let Some(j) = lookup(regions, da, d + n - back - 1) {
                let len = back_step_len(regions, i, j, s, d, n, back);
                let all = backward_pairs(regions, sa, s, da, d, n, back).0;
                lemma_backward_covers(regions, sa, s, da, d, n, back + len);
                assert(all.drop_first() =~= backward_pairs(regions, sa, s, da, d, n, back + len).0);
            }
        }
    }
}

/// A walk over two guest ranges that meets no unmapped address handles all
/// `n` bytes, in either direction.
pub proof fn lemma_walk_covers_range(
    regions: Seq<MemoryRegion>,
    sa: AccessType,
    s: u64,
    da: AccessType,
    d: u64,
    n: u64,
    reverse: bool,
)
    requires
        pair_walk(regions, sa, s as int, da, d as int, n as int, reverse).1 is None,
    ensures
        steps_len(pair_walk(regions, sa, s as int, da, d as int, n as int, reverse).0) == n,
{
    if s + n <= u64::MAX && d + n <= u64::MAX {
        if reverse {
            lemma_backward_covers(regions, sa, s as int, da, d as int, n as int, 0);
        } else {
            lemma_forward_covers(regions, sa, s as int, da, d as int, n as int, 0);
        }
    }
}

proof fn lemma_fills_keep(regions: Seq<MemoryRegion>, host: Seq<u8>, steps: Seq<ChunkPair>, c: u8, x: int)
    requires
        0 <= x < host.len(),
        host[x] == c,
    ensures
        apply_fills(regions, host, steps, c).len() == host.len(),
        apply_fills(regions, host, steps, c)[x] == c,
    decreases steps.len(),
{
    if steps.len() > 0 {
        let p = steps[0];
        let h2 = fill_range(host, host_index(regions[p.dst_region as int], p.dst_addr as int), p.len as int, c);
        lemma_fills_keep(regions, h2, steps.drop_first(), c, x);
    }
}

proof fn lemma_fills_len(regions: Seq<MemoryRegion>, host: Seq<u8>, steps: Seq<ChunkPair>, c: u8)
    ensures
        apply_fills(regions, host, steps, c).len() == host.len(),
    decreases steps.len(),
{
    if steps.len() > 0 {
        let p = steps[0];
        let h2 = fill_range(host, host_index(regions[p.dst_region as int], p.dst_addr as int), p.len as int, c);
        lemma_fills_len(regions, h2, steps.drop_first(), c);
    }
}

proof fn lemma_fill_walk_sets(
    regions: Seq<MemoryRegion>,
    host: Seq<u8>,
    d: int,
    n: int,
    off: int,
    c: u8,
)
    requires
        memory_wf(regions, host.len() as int),
        regions.len() <= usize::MAX,
        0 <= d,
        0 <= off <= n,
        forward_pairs(regions, AccessType::Store, d, AccessType::Store, d, n, off).1 is None,
    ensures
        forall|a: int|
            d + off <= a < d + n ==> #[trigger] guest_byte(
                regions,
                apply_fills(regions, host, forward_pairs(regions, AccessType::Store, d, AccessType::Store, d, n, off).0, c),
                a,
            ) == Some(c),
    decreases n - off,
{
    reveal(forward_pairs);
    lemma_lookup_some(regions, AccessType::Store, d + off);
    if off < n {
        if let Some(i) = lookup(regions, AccessType::Store, d + off) {
            let len = front_step_len(regions, i, i, d, d, n, off);
            let all = forward_pairs(regions, AccessType::Store, d, AccessType::Store, d, n, off).0;
            let rest = forward_pairs(regions, AccessType::Store, d, AccessType::Store, d, n, off + len).0;
            let p = all[0];
            let h2 = fill_range(host, host_index(regions[i], d + off), len, c);
            assert(all.drop_first() =~= rest);
            lemma_fill_walk_sets(regions, h2, d, n, off + len, c);
            lemma_fills_len(regions, h2, rest, c);
            assert forall|a: int| d + off <= a < d + n implies #[trigger] guest_byte(
                regions,
                apply_fills(regions, host, all, c),
                a,
            ) == Some(c) by {
                if a < d + off + len {
                    assert(region_contains(regions[i], a));
                    lemma_lookup_found(regions, host.len() as int, AccessType::Load, a, i);
                    let x = host_index(regions[i], a);
                    assert(h2[x] == c);
                    lemma_fills_keep(regions, h2, rest, c, x);
                }
            }
        }
    }
}

/// After a fill that returns `Ok`, every guest address of the range reads
/// the fill byte.
pub proof fn lemma_memset_fills_range(regions: Seq<MemoryRegion>, host: Seq<u8>, dst_addr: u64, c: u8, n: u64)
    requires
        memory_wf(regions, host.len() as int),
        regions.len() <= usize::MAX,
        pair_walk(regions, AccessType::Store, dst_addr as int, AccessType::Store, dst_addr as int, n as int, false).1 is None,
    ensures
        forall|a: int|
            dst_addr <= a < dst_addr + n ==> #[trigger] guest_byte(
                regions,
                apply_fills(
                    regions,
                    host,
                    pair_walk(regions, AccessType::Store, dst_addr as int, AccessType::Store, dst_addr as int, n as int, false).0,
                    c,
                ),
                a,
            ) == Some(c),
{
    if dst_addr + n <= u64::MAX {
        lemma_fill_walk_sets(regions, host, dst_addr as int, n as int, 0, c);
    }
}

/// Distinct mapped guest addresses have distinct host bytes.
proof fn lemma_host_index_injective(regions: Seq<MemoryRegion>, host_len: int, a: int, b: int, i: int, j: int)
    requires
        memory_wf(regions, host_len),
        0 <= i < regions.len(),
        0 <= j < regions.len(),
        region_contains(regions[i], a),
        region_contains(regions[j], b),
        a != b,
    ensures
        host_index(regions[i], a) != host_index(regions[j], b),
{
}


/// The moves of a front-to-back walk from `off` on leave the bytes of every
/// guest address outside the rest of the destination range as they were.
proof fn lemma_moves_keep_outside(
    regions: Seq<MemoryRegion>,
    host: Seq<u8>,
    s: int,
    d: int,
    n: int,
    off: int,
    b: int,
    k: int,
)
    requires
        memory_wf(regions, host.len() as int),
        regions.len() <= usize::MAX,
        0 <= s,
        0 <= d,
        0 <= off <= n,
        0 <= k < regions.len(),
        region_contains(regions[k], b),
        !(d + off <= b < d + n),
    ensures
        apply_moves(
            regions,
            host,
            forward_pairs(regions, AccessType::Load, s, AccessType::Store, d, n, off).0,
        )[host_index(regions[k], b)] == host[host_index(regions[k], b)],
    decreases n - off,
{
    reveal(forward_pairs);
    lemma_lookup_some(regions, AccessType::Load, s + off);
    lemma_lookup_some(regions, AccessType::Store, d + off);
    if off < n {
        if let Some(i) = lookup(regions, AccessType::Load, s + off) {
            if let Some(j) = lookup(regions, AccessType::Store, d + off) {
                let len = front_step_len(regions, i, j, s, d, n, off);
                if len > 0 {
                    let all = forward_pairs(regions, AccessType::Load, s, AccessType::Store, d, n, off).0;
                    let rest = forward_pairs(regions, AccessType::Load, s, AccessType::Store, d, n, off + len).0;
                    assert(all.drop_first() =~= rest);
                    let si = host_index(regions[i], s + off);
                    let di = host_index(regions[j], d + off);
                    let h2 = copy_within(host, si, di, len);
                    let x = host_index(regions[k], b);
                    if di <= x < di + len {
                        let a2 = d + off + (x - di);
                        lemma_host_index_injective(regions, host.len() as int, a2, b, j, k);
                    }
                    assert(h2[x] == host[x]);
                    lemma_moves_keep_outside(regions, h2, s, d, n, off + len, b, k);
                }
            }
        }
    }
}

/// The moves of a front-to-back walk, from `off` on, whose destination starts
/// before its source or past its end: every destination address not yet
/// written ends up holding what the matching source address held at the
/// start, as long as the source bytes not yet read are still as they were.
proof fn lemma_forward_moves_copy(
    regions: Seq<MemoryRegion>,
    orig: Seq<u8>,
    host: Seq<u8>,
    s: int,
    d: int,
    n: int,
    off: int,
)
    requires
        memory_wf(regions, host.len() as int),
        regions.len() <= usize::MAX,
        host.len() == orig.len(),
        0 <= s,
        0 <= d,
        0 <= off <= n,
        d < s || s + n <= d,
        forward_pairs(regions, AccessType::Load, s, AccessType::Store, d, n, off).1 is None,
        forall|q: int|
            s + off <= q < s + n ==> #[trigger] guest_byte(regions, host, q) == guest_byte(regions, orig, q),
    ensures
        forall|a: int|
            d + off <= a < d + n ==> #[trigger] guest_byte(
                regions,
                apply_moves(regions, host, forward_pairs(regions, AccessType::Load, s, AccessType::Store, d, n, off).0),
                a,
            ) == guest_byte(regions, orig, s + (a - d)),
    decreases n - off,
{
    reveal(forward_pairs);
    lemma_lookup_some(regions, AccessType::Load, s + off);
    lemma_lookup_some(regions, AccessType::Store, d + off);
    if off < n {
        let i = lookup(regions, AccessType::Load, s + off)->Some_0;
        let j = lookup(regions, AccessType::Store, d + off)->Some_0;
        let len = front_step_len(regions, i, j, s, d, n, off);
        let all = forward_pairs(regions, AccessType::Load, s, AccessType::Store, d, n, off).0;
        let rest = forward_pairs(regions, AccessType::Load, s, AccessType::Store, d, n, off + len).0;
        assert(all.drop_first() =~= rest);
        let si = host_index(regions[i], s + off);
        let di = host_index(regions[j], d + off);
        let h2 = copy_within(host, si, di, len);
        // The source bytes not yet read survive the step.
        assert forall|q: int| s + off + len <= q < s + n implies #[trigger] guest_byte(regions, h2, q) == guest_byte(
            regions,
            orig,
            q,
        ) by {
            lemma_lookup_some(regions, AccessType::Load, q);
            assert(guest_byte(regions, host, q) == guest_byte(regions, orig, q));
            if let Some(k) = lookup(regions, AccessType::Load, q) {
                let x = host_index(regions[k], q);
                if di <= x < di + len {
                    let a2 = d + off + (x - di);
                    lemma_host_index_injective(regions, host.len() as int, a2, q, j, k);
                }
            }
        }
        lemma_forward_moves_copy(regions, orig, h2, s, d, n, off + len);
        let fin = apply_moves(regions, host, all);
        assert(fin == apply_moves(regions, h2, rest));
        assert forall|a: int| d + off <= a < d + n implies #[trigger] guest_byte(regions, fin, a) == guest_byte(
            regions,
            orig,
            s + (a - d),
        ) by {
            if a < d + off + len {
                lemma_lookup_found(regions, host.len() as int, AccessType::Load, a, j);
                lemma_lookup_found(regions, host.len() as int, AccessType::Load, s + (a - d), i);
                lemma_moves_keep_outside(regions, h2, s, d, n, off + len, a, j);
                assert(guest_byte(regions, host, s + (a - d)) == guest_byte(regions, orig, s + (a - d)));
            }
        }
    }
}

/// The moves of a back-to-front walk with `back` bytes at the end handled
/// leave the bytes of every guest address outside the rest of the
/// destination range as they were.
proof fn lemma_back_moves_keep_outside(
    regions: Seq<MemoryRegion>,
    host: Seq<u8>,
    s: int,
    d: int,
    n: int,
    back: int,
    b: int,
    k: int,
)
    requires
        memory_wf(regions, host.len() as int),
        regions.len() <= usize::MAX,
        0 <= s,
        0 <= d,
        0 <= back <= n,
        0 <= k < regions.len(),
        region_contains(regions[k], b),
        !(d <= b < d + n - back),
    ensures
        apply_moves(
            regions,
            host,
            backward_pairs(regions, AccessType::Load, s, AccessType::Store, d, n, back).0,
        )[host_index(regions[k], b)] == host[host_index(regions[k], b)],
    decreases n - back,
{
    reveal(backward_pairs);
    lemma_lookup_some(regions, AccessType::Load, s + n - back - 1);
    lemma_lookup_some(regions, AccessType::Store, d + n - back - 1);
    if back < n {
        if let Some(i) = lookup(regions, AccessType::Load, s + n - back - 1) {
            if let Some(j) = lookup(regions, AccessType::Store, d + n - back - 1) {
                let len = back_step_len(regions, i, j, s, d, n, back);
                if len > 0 {
                    let all = backward_pairs(regions, AccessType::Load, s, AccessType::Store, d, n, back).0;
                    let rest = backward_pairs(regions, AccessType::Load, s, AccessType::Store, d, n, back + len).0;
                    assert(all.drop_first() =~= rest);
                    let si = host_index(regions[i], s + n - back - len);
                    let di = host_index(regions[j], d + n - back - len);
                    let h2 = copy_within(host, si, di, len);
                    let x = host_index(regions[k], b);
                    if di <= x < di + len {
                        let a2 = d + n - back - len + (x - di);
                        lemma_host_index_injective(regions, host.len() as int, a2, b, j, k);
                    }
                    assert(h2[x] == host[x]);
                    lemma_back_moves_keep_outside(regions, h2, s, d, n, back + len, b, k);
                }
            }
        }
    }
}

/// The moves of a back-to-front walk whose destination starts at or after
/// its source, with `back` bytes at the end handled: every destination
/// address not yet written ends up holding what the matching source address
/// held at the start, as long as the source bytes not yet read are still as
/// they were.
proof fn lemma_backward_moves_copy(
    regions: Seq<MemoryRegion>,
    orig: Seq<u8>,
    host: Seq<u8>,
    s: int,
    d: int,
    n: int,
    back: int,
)
    requires
        memory_wf(regions, host.len() as int),
        regions.len() <= usize::MAX,
        host.len() == orig.len(),
        0 <= s <= d,
        0 <= back <= n,
        backward_pairs(regions, AccessType::Load, s, AccessType::Store, d, n, back).1 is None,
        forall|q: int|
            s <= q < s + n - back ==> #[trigger] guest_byte(regions, host, q) == guest_byte(regions, orig, q),
    ensures
        forall|a: int|
            d <= a < d + n - back ==> #[trigger] guest_byte(
                regions,
                apply_moves(regions, host, backward_pairs(regions, AccessType::Load, s, AccessType::Store, d, n, back).0),
                a,
            ) == guest_byte(regions, orig, s + (a - d)),
    decreases n - back,
{
    reveal(backward_pairs);
    lemma_lookup_some(regions, AccessType::Load, s + n - back - 1);
    lemma_lookup_some(regions, AccessType::Store, d + n - back - 1);
    if back < n {
        let i = lookup(regions, AccessType::Load, s + n - back - 1)->Some_0;
        let j = lookup(regions, AccessType::Store, d + n - back - 1)->Some_0;
        let len = back_step_len(regions, i, j, s, d, n, back);
        let all = backward_pairs(regions, AccessType::Load, s, AccessType::Store, d, n, back).0;
        let rest = backward_pairs(regions, AccessType::Load, s, AccessType::Store, d, n, back + len).0;
        assert(all.drop_first() =~= rest);
        let si = host_index(regions[i], s + n - back - len);
        let di = host_index(regions[j], d + n - back - len);
        let h2 = copy_within(host, si, di, len);
        // The source bytes not yet read survive the step.
        assert forall|q: int| s <= q < s + n - back - len implies #[trigger] guest_byte(regions, h2, q) == guest_byte(
            regions,
            orig,
            q,
        ) by {
            lemma_lookup_some(regions, AccessType::Load, q);
            assert(guest_byte(regions, host, q) == guest_byte(regions, orig, q));
            if let Some(k) = lookup(regions, AccessType::Load, q) {
                let x = host_index(regions[k], q);
                if di <= x < di + len {
                    let a2 = d + n - back - len + (x - di);
                    lemma_host_index_injective(regions, host.len() as int, a2, q, j, k);
                }
            }
        }
        lemma_backward_moves_copy(regions, orig, h2, s, d, n, back + len);
        let fin = apply_moves(regions, host, all);
        assert(fin == apply_moves(regions, h2, rest));
        assert forall|a: int| d <= a < d + n - back implies #[trigger] guest_byte(regions, fin, a) == guest_byte(
            regions,
            orig,
            s + (a - d),
        ) by {
            if a >= d + n - back - len {
                lemma_lookup_found(regions, host.len() as int, AccessType::Load, a, j);
                lemma_lookup_found(regions, host.len() as int, AccessType::Load, s + (a - d), i);
                lemma_back_moves_keep_outside(regions, h2, s, d, n, back + len, a, j);
                assert(guest_byte(regions, host, s + (a - d)) == guest_byte(regions, orig, s + (a - d)));
            }
        }
    }
}

/// A move that returns `Ok` leaves every destination address holding what
/// the matching source address held before, also where the two ranges
/// overlap.
pub proof fn lemma_memmove_copies(
    regions: Seq<MemoryRegion>,
    host: Seq<u8>,
    dst_addr: u64,
    src_addr: u64,
    n: u64,
)
    requires
        memory_wf(regions, host.len() as int),
        regions.len() <= usize::MAX,
        pair_walk(
            regions,
            AccessType::Load,
            src_addr as int,
            AccessType::Store,
            dst_addr as int,
            n as int,
            moves_backward(dst_addr, src_addr, n),
        ).1 is None,
    ensures
        forall|k: int|
            0 <= k < n ==> #[trigger] guest_byte(
                regions,
                apply_moves(
                    regions,
                    host,
                    pair_walk(
                        regions,
                        AccessType::Load,
                        src_addr as int,
                        AccessType::Store,
                        dst_addr as int,
                        n as int,
                        moves_backward(dst_addr, src_addr, n),
                    ).0,
                ),
                dst_addr + k,
            ) == guest_byte(regions, host, src_addr + k),
{
    let s = src_addr as int;
    let d = dst_addr as int;
    if s + n <= u64::MAX && d + n <= u64::MAX {
        let fin = if moves_backward(dst_addr, src_addr, n) {
            assert(src_addr <= dst_addr);
            lemma_backward_moves_copy(regions, host, host, s, d, n as int, 0);
            apply_moves(regions, host, backward_pairs(regions, AccessType::Load, s, AccessType::Store, d, n as int, 0).0)
        } else {
            assert(dst_addr < src_addr || src_addr + n <= dst_addr);
            lemma_forward_moves_copy(regions, host, host, s, d, n as int, 0);
            apply_moves(regions, host, forward_pairs(regions, AccessType::Load, s, AccessType::Store, d, n as int, 0).0)
        };
        assert forall|k: int| 0 <= k < n implies #[trigger] guest_byte(regions, fin, dst_addr + k) == guest_byte(
            regions,
            host,
            src_addr + k,
        ) by {
            assert(s + ((d + k) - d) == s + k);
        }
    }
}

/// The distance between the starts of two guest ranges is at least the
/// length of the one that comes first.
pub open spec fn ranges_apart(src: u64, src_len: u64, dst: u64, dst_len: u64) -> bool {
    if src > dst {
        src - dst >= dst_len
    } else {
        dst - src >= src_len
    }
}

/// Whether two guest ranges are disjoint: the distance between their starts
/// is at least the length of the one that comes first.
pub fn is_nonoverlapping(src: u64, src_len: u64, dst: u64, dst_len: u64) -> (res: bool)
    ensures
        res == ranges_apart(src, src_len, dst, dst_len),
{
    if src > dst {
        src.saturating_sub(dst) >= dst_len
    } else {
        dst.saturating_sub(src) >= src_len
    }
}

/// Two guest ranges that the overlap check calls disjoint share no address.
pub proof fn lemma_nonoverlapping_ranges_are_disjoint(src: u64, src_len: u64, dst: u64, dst_len: u64, a: int)
    requires
        ranges_apart(src, src_len, dst, dst_len),
    ensures
        !(src <= a < src + src_len && dst <= a < dst + dst_len),
{
}

/// Whether `address` is a multiple of `align`, the alignment of the type that
/// is to be read there.
pub fn address_is_aligned(address: u64, align: u64) -> (res: bool)
    requires
        align > 0,
    ensures
        res == (address % align == 0),
{
    address % align == 0
}

} // verus!
