use vstd::prelude::*;

use crate::runtime::context::{
    InstructionUtxo, TransactionContext, UtxoState, is_fresh, with_nesting_level,
};
use crate::runtime::errors::InstructionError;
use crate::runtime::serialization::{sat_add, SerializedUtxoMetadata};

verus! {

/// The virtual address at which a program's heap starts.
pub const MM_HEAP_START: u64 = 0x300000000;

/// Whether `n` is a power of two.
pub open spec fn is_power_of_two(n: nat) -> bool
    decreases n,
{
    if n == 0 {
        false
    } else if n == 1 {
        true
    } else {
        n % 2 == 0 && is_power_of_two(n / 2)
    }
}

/// The bytes to add to `pos` to reach a multiple of `align`.
pub open spec fn spec_align_offset(pos: int, align: int) -> int {
    (align - pos % align) % align
}

/// Where an allocation of `size` bytes aligned to `align` lands when `pos`
/// bytes of a heap of `len` bytes are handed out: its virtual address and the
/// new position, or nothing where it does not fit.
pub open spec fn alloc_step(pos: u64, len: u64, size: usize, align: usize) -> Option<(u64, u64)> {
    let start = sat_add(pos as int, spec_align_offset(pos as int, align as int));
    let end = sat_add(start as int, size as int);
    if end <= len {
        Some((sat_add(MM_HEAP_START as int, start as int), end))
    } else {
        None
    }
}

/// An allocation that did not fit in the heap.
#[derive(Clone, PartialEq, Eq, Debug, Structural)]
pub struct AllocErr;

/// The allocator of a program's heap: it hands out the heap from its start
/// on and never takes anything back.
#[derive(Debug)]
pub struct BpfAllocator {
    len: u64,
    pos: u64,
}

impl BpfAllocator {
    pub closed spec fn heap_len(&self) -> u64 {
        self.len
    }

    /// The offset in the heap of the first byte not handed out.
    pub closed spec fn position(&self) -> u64 {
        self.pos
    }

    pub fn new(len: u64) -> (res: Self)
        ensures
            res.heap_len() == len,
            res.position() == 0,
    {
        Self { len, pos: 0 }
    }

    /// Hands out `size` bytes aligned to `align` after what was handed out
    /// before, if they fit in the heap.
    pub fn allocate(&mut self, size: usize, align: usize) -> (res: Result<u64, AllocErr>)
        requires
            is_power_of_two(align as nat),
        ensures
            final(self).heap_len() == old(self).heap_len(),
            match alloc_step(old(self).position(), old(self).heap_len(), size, align) {
                Some((addr, end)) => res == Ok::<u64, AllocErr>(addr) && final(self).position() == end,
                None => res == Err::<u64, AllocErr>(AllocErr) && final(self).position() == old(self).position(),
            },
    {
        proof {
            lemma_power_of_two_positive(align as nat);
        }
        let bytes_to_align = ((align - (self.pos % (align as u64)) as usize) % align) as u64;
        if self.pos.saturating_add(bytes_to_align).saturating_add(size as u64) <= self.len {
            self.pos = self.pos.saturating_add(bytes_to_align);
            let addr = MM_HEAP_START.saturating_add(self.pos);
            self.pos = self.pos.saturating_add(size as u64);
            Ok(addr)
        } else {
            Err(AllocErr)
        }
    }
}

pub proof fn lemma_power_of_two_positive(n: nat)
    requires
        is_power_of_two(n),
    ensures
        n >= 1,
{
}

/// What the allocator hands out lies in the heap, is aligned (the heap starts
/// aligned), and comes after everything it handed out before: of two
/// allocations in a row, the first ends where the second may start at the
/// earliest.
pub proof fn lemma_allocations_are_disjoint(
    pos: u64,
    len: u64,
    size1: usize,
    align1: usize,
    size2: usize,
    align2: usize,
)
    requires
        is_power_of_two(align1 as nat),
        is_power_of_two(align2 as nat),
        len <= u64::MAX - MM_HEAP_START,
        alloc_step(pos, len, size1, align1) is Some,
        alloc_step((alloc_step(pos, len, size1, align1)->0).1, len, size2, align2) is Some,
    ensures
        ({
            let (a1, p1) = alloc_step(pos, len, size1, align1)->0;
            let (a2, p2) = alloc_step(p1, len, size2, align2)->0;
            &&& MM_HEAP_START + pos <= a1
            &&& a1 + size1 <= a2
            &&& a2 + size2 <= MM_HEAP_START + len
            &&& (a1 - MM_HEAP_START) % (align1 as int) == 0
            &&& (a2 - MM_HEAP_START) % (align2 as int) == 0
        }),
{
    lemma_aligned_step(pos, align1);
    let p1 = (alloc_step(pos, len, size1, align1)->0).1;
    lemma_aligned_step(p1, align2);
}

proof fn lemma_aligned_step(pos: u64, align: usize)
    requires
        is_power_of_two(align as nat),
    ensures
        0 <= spec_align_offset(pos as int, align as int) < align,
        (pos + spec_align_offset(pos as int, align as int)) % (align as int) == 0,
{
    lemma_power_of_two_positive(align as nat);
    let a = align as int;
    let p = pos as int;
    assert((p + spec_align_offset(p, a)) % a == 0 && 0 <= spec_align_offset(p, a) < a) by (nonlinear_arith)
        requires
            a >= 1,
            p >= 0,
    {
        let r = p % a;
        if r == 0 {
            assert(spec_align_offset(p, a) == 0);
        } else {
            assert(spec_align_offset(p, a) == a - r);
        }
    }
}

/// What a program's system calls need of the instruction that runs.
pub struct SyscallContext {
    pub allocator: BpfAllocator,
    pub accounts_metadata: Vec<SerializedUtxoMetadata>,
    pub trace_log: Vec<[u64; 12]>,
}

} // verus!

verus! {

use crate::runtime::context::{
    InstructionContext, is_first_with_id, is_first_instruction_utxo_with_id, push_post, pop_post,
};
use crate::types::{StableInstruction, UtxoId};

/// `c2` is `c` with its allocator at position `pos`.
pub open spec fn moved_to(c: SyscallContext, c2: SyscallContext, pos: u64) -> bool {
    &&& c2.allocator.position() == pos
    &&& c2.allocator.heap_len() == c.allocator.heap_len()
    &&& c2.accounts_metadata@ == c.accounts_metadata@
    &&& c2.trace_log@ == c.trace_log@
}

/// What the runtime keeps while a transaction runs: the transaction, the
/// compute units left, the traces of the instructions that ended, and one
/// system-call context per running instruction.
pub struct InvokeContext {
    transaction_context: TransactionContext,
    compute_meter: u64,
    traces: Vec<Vec<[u64; 12]>>,
    syscall_context: Vec<Option<SyscallContext>>,
}

impl InvokeContext {
    pub closed spec fn tc(&self) -> TransactionContext {
        self.transaction_context
    }

    pub closed spec fn meter(&self) -> u64 {
        self.compute_meter
    }

    pub closed spec fn traces(&self) -> Seq<Vec<[u64; 12]>> {
        self.traces@
    }

    pub closed spec fn syscall_contexts(&self) -> Seq<Option<SyscallContext>> {
        self.syscall_context@
    }

    pub fn new(transaction_context: TransactionContext, compute_meter: u64) -> (res: Self)
        ensures
            res.tc() == transaction_context,
            res.meter() == compute_meter,
            res.traces().len() == 0,
            res.syscall_contexts().len() == 0,
    {
        Self { transaction_context, compute_meter, traces: Vec::new(), syscall_context: Vec::new() }
    }

    pub fn transaction_context(&self) -> (res: &TransactionContext)
        ensures
            *res == self.tc(),
    {
        &self.transaction_context
    }

    /// The transaction, for changes made on it while the invocation goes on.
    pub fn transaction_context_mut(&mut self) -> (res: &mut TransactionContext)
        ensures
            *res == old(self).tc(),
            final(self).tc() == *final(res),
            final(self).meter() == old(self).meter(),
            final(self).traces() == old(self).traces(),
            final(self).syscall_contexts() == old(self).syscall_contexts(),
    {
        &mut self.transaction_context
    }

    /// Gives the transaction back when the invocation is over.
    pub fn into_transaction_context(self) -> (res: TransactionContext)
        ensures
            res == self.tc(),
    {
        self.transaction_context
    }

    /// Counts `amount` compute units as spent; the meter stops at zero.
    pub fn consume(&mut self, amount: u64)
        ensures
            final(self).meter() == if old(self).meter() >= amount {
                old(self).meter() - amount
            } else {
                0
            },
            final(self).tc() == old(self).tc(),
            final(self).traces() == old(self).traces(),
            final(self).syscall_contexts() == old(self).syscall_contexts(),
    {
        self.compute_meter = self.compute_meter.saturating_sub(amount);
    }

    /// The compute units left.
    pub fn get_remaining(&self) -> (res: u64)
        ensures
            res == self.meter(),
    {
        self.compute_meter
    }

    /// This instruction's system-call context.
    pub fn get_syscall_context(&self) -> (res: Result<&SyscallContext, InstructionError>)
        ensures
            (self.syscall_contexts().len() > 0 && self.syscall_contexts().last() is Some) ==> (
            res matches Ok(c) && *c == self.syscall_contexts().last()->Some_0),
            !(self.syscall_contexts().len() > 0 && self.syscall_contexts().last() is Some) ==> res
                is Err && res->Err_0 == InstructionError::CallDepth,
    {
        let n = self.syscall_context.len();
        if n == 0 {
            return Err(InstructionError::CallDepth);
        }
        match &self.syscall_context[n - 1] {
            Some(c) => Ok(c),
            None => Err(InstructionError::CallDepth),
        }
    }

    /// This instruction's system-call context, to change in place.
    pub fn get_syscall_context_mut(&mut self) -> (res: Result<&mut SyscallContext, InstructionError>)
        ensures
            final(self).tc() == old(self).tc(),
            final(self).meter() == old(self).meter(),
            final(self).traces() == old(self).traces(),
            (old(self).syscall_contexts().len() > 0 && old(self).syscall_contexts().last() is Some) ==> (
            res matches Ok(c) && *c == old(self).syscall_contexts().last()->Some_0
                && final(self).syscall_contexts() == old(self).syscall_contexts().update(
                old(self).syscall_contexts().len() - 1,
                Some(*final(c)),
            )),
            !(old(self).syscall_contexts().len() > 0 && old(self).syscall_contexts().last() is Some)
                ==> res is Err && res->Err_0 == InstructionError::CallDepth
                && final(self).syscall_contexts() == old(self).syscall_contexts(),
    {
        let n = self.syscall_context.len();
        if n == 0 {
            return Err(InstructionError::CallDepth);
        }
        match &mut self.syscall_context[n - 1] {
            Some(c) => Ok(c),
            None => Err(InstructionError::CallDepth),
        }
    }

    /// Sets this instruction's system-call context.
    pub fn set_syscall_context(&mut self, syscall_context: SyscallContext) -> (res: Result<
        (),
        InstructionError,
    >)
        ensures
            final(self).tc() == old(self).tc(),
            final(self).meter() == old(self).meter(),
            final(self).traces() == old(self).traces(),
            old(self).syscall_contexts().len() == 0 ==> res == Err::<(), InstructionError>(
                InstructionError::CallDepth,
            ) && final(self).syscall_contexts() == old(self).syscall_contexts(),
            old(self).syscall_contexts().len() > 0 ==> res == Ok::<(), InstructionError>(())
                && final(self).syscall_contexts() == old(self).syscall_contexts().update(
                old(self).syscall_contexts().len() - 1,
                Some(syscall_context),
            ),
    {
        let n = self.syscall_context.len();
        if n == 0 {
            return Err(InstructionError::CallDepth);
        }
        self.syscall_context.set(n - 1, Some(syscall_context));
        Ok(())
    }

    /// Allocates from, or frees to, the heap of the running program: a
    /// request to free (`free_addr != 0`) does nothing, a size that no layout
    /// with alignment 8 holds gives 0, and an allocation that does not fit
    /// gives 0.
    pub fn alloc_free(&mut self, size: u64, free_addr: u64) -> (res: Result<u64, InstructionError>)
        ensures
            final(self).tc() == old(self).tc(),
            final(self).meter() == old(self).meter(),
            final(self).traces() == old(self).traces(),
            final(self).syscall_contexts().len() == old(self).syscall_contexts().len(),
            ({
                let sc = old(self).syscall_contexts();
                if size > isize::MAX - 7 {
                    res == Ok::<u64, InstructionError>(0) && final(self).syscall_contexts() == sc
                } else if sc.len() == 0 || sc.last() is None {
                    res == Err::<u64, InstructionError>(InstructionError::CallDepth)
                        && final(self).syscall_contexts() == sc
                } else if free_addr != 0 {
                    res == Ok::<u64, InstructionError>(0) && final(self).syscall_contexts() == sc
                } else {
                    let c = sc.last()->Some_0;
                    match alloc_step(c.allocator.position(), c.allocator.heap_len(), size as usize, 8) {
                        Some((addr, end)) => res == Ok::<u64, InstructionError>(addr)
                            && final(self).syscall_contexts().last() is Some
                            && moved_to(c, final(self).syscall_contexts().last()->Some_0, end)
                            && final(self).syscall_contexts().drop_last() == sc.drop_last(),
                        None => res == Ok::<u64, InstructionError>(0)
                            && final(self).syscall_contexts().last() is Some
                            && moved_to(c, final(self).syscall_contexts().last()->Some_0, c.allocator.position())
                            && final(self).syscall_contexts().drop_last() == sc.drop_last(),
                    }
                }
            }),
    {
        if size > (isize::MAX as u64) - 7 {
            return Ok(0);
        }
        let n = self.syscall_context.len();
        if n == 0 {
            return Err(InstructionError::CallDepth);
        }
        let last = self.syscall_context.pop().unwrap();
        match last {
            None => {
                self.syscall_context.push(None);
                assert(self.syscall_context@ =~= old(self).syscall_contexts());
                Err(InstructionError::CallDepth)
            },
            Some(mut c) => {
                if free_addr != 0 {
                    self.syscall_context.push(Some(c));
                    assert(self.syscall_context@ =~= old(self).syscall_contexts());
                    return Ok(0);
                }
                proof {
                    reveal_with_fuel(is_power_of_two, 5);
                }
                let r = c.allocator.allocate(size as usize, 8);
                self.syscall_context.push(Some(c));
                assert(self.syscall_context@.drop_last() =~= old(self).syscall_contexts().drop_last());
                match r {
                    Ok(addr) => Ok(addr),
                    Err(_) => Ok(0),
                }
            },
        }
    }

    /// Starts the instruction configured next: a fresh system-call slot, then
    /// the transaction's `push`.
    pub fn push(&mut self) -> (res: Result<(), InstructionError>)
        requires
            old(self).tc().wf(),
        ensures
            push_post(old(self).tc(), final(self).tc(), res),
            final(self).syscall_contexts() == old(self).syscall_contexts().push(None),
            final(self).meter() == old(self).meter(),
            final(self).traces() == old(self).traces(),
    {
        self.syscall_context.push(None);
        self.transaction_context.push()
    }

    /// Ends the running instruction: its system-call context goes away, with
    /// its trace kept, then the transaction's `pop`.
    pub fn pop(&mut self) -> (res: Result<(), InstructionError>)
        requires
            old(self).tc().wf(),
        ensures
            pop_post(old(self).tc(), final(self).tc(), res),
            final(self).syscall_contexts() == if old(self).syscall_contexts().len() == 0 {
                old(self).syscall_contexts()
            } else {
                old(self).syscall_contexts().drop_last()
            },
            final(self).traces() == if old(self).syscall_contexts().len() > 0
                && old(self).syscall_contexts().last() is Some {
                old(self).traces().push(old(self).syscall_contexts().last()->Some_0.trace_log)
            } else {
                old(self).traces()
            },
            final(self).meter() == old(self).meter(),
    {
        match self.syscall_context.pop() {
            Some(Some(syscall_context)) => {
                self.traces.push(syscall_context.trace_log);
            },
            _ => {},
        }
        self.transaction_context.pop()
    }

    /// The first half of processing an instruction: configure the next
    /// instruction with its data, UTXOs and program, and start it. Where this
    /// succeeds, the program runs and `process_instruction_end` follows.
    pub fn process_instruction_begin(
        &mut self,
        instruction_data: &[u8],
        instruction_utxos: &[InstructionUtxo],
        program_id: &[u8],
    ) -> (res: Result<(), InstructionError>)
        requires
            old(self).tc().wf(),
            program_id@.len() == 32,
        ensures
            final(self).tc().wf(),
            final(self).syscall_contexts() == old(self).syscall_contexts().push(None),
            final(self).meter() == old(self).meter(),
            final(self).traces() == old(self).traces(),
            exists|configured: TransactionContext|
                {
                    &&& configured.wf()
                    &&& configured.stack() == old(self).tc().stack()
                    &&& configured.utxos() == old(self).tc().utxos()
                    &&& configured.ids() == old(self).tc().ids()
                    &&& configured.stack_capacity() == old(self).tc().stack_capacity()
                    &&& configured.trace_capacity() == old(self).tc().trace_capacity()
                    &&& configured.trace().len() == old(self).tc().trace().len()
                    &&& configured.trace().drop_last() == old(self).tc().trace().drop_last()
                    &&& configured.trace().last().instruction_data@ == instruction_data@
                    &&& configured.trace().last().instruction_utxos@ == instruction_utxos@
                    &&& configured.trace().last().program_id.0@ == program_id@
                    &&& push_post(configured, final(self).tc(), res)
                },
    {
        self.transaction_context.configure_next_instruction_context(
            instruction_data,
            instruction_utxos,
            program_id,
        );
        let ghost configured = self.transaction_context;
        let r = self.push();
        assert(push_post(configured, self.tc(), r));
        r
    }

    /// The second half of processing an instruction, once the program ran
    /// with `result`: the instruction always ends (pops), and the result is
    /// the program's where it failed, else the pop's.
    pub fn process_instruction_end(&mut self, result: Result<(), InstructionError>) -> (res: Result<
        (),
        InstructionError,
    >)
        requires
            old(self).tc().wf(),
        ensures
            exists|r: Result<(), InstructionError>|
                {
                    &&& pop_post(old(self).tc(), final(self).tc(), r)
                    &&& res == match result {
                        Ok(_) => r,
                        Err(e) => Err(e),
                    }
                },
            final(self).meter() == old(self).meter(),
    {
        let popped = self.pop();
        match result {
            Ok(()) => popped,
            Err(e) => Err(e),
        }
    }
}

} // verus!

verus! {

/// The instruction UTXOs of the instruction on top of the stack.
pub open spec fn current_instruction_utxos(tc: TransactionContext) -> Seq<InstructionUtxo> {
    tc.trace()[tc.stack().last() as int].instruction_utxos@
}

/// Entry `k` of a call cannot be prepared: no UTXO of the transaction has
/// its identity, or it is the first entry for its UTXO and the calling
/// instruction does not hold that UTXO.
pub open spec fn unpreparable(
    utxos: Seq<UtxoState>,
    caller: Seq<InstructionUtxo>,
    ids: Seq<UtxoId>,
    k: int,
) -> bool {
    ||| is_first_with_id(utxos, ids[k].bytes(), None)
    ||| exists|t: usize|
        {
            &&& #[trigger] is_first_with_id(utxos, ids[k].bytes(), Some(t))
            &&& forall|j: int| 0 <= j < k ==> !is_first_with_id(utxos, ids[j].bytes(), Some(t))
            &&& is_first_instruction_utxo_with_id(caller, utxos, ids[k].bytes(), None)
        }
}

/// `v` is the list of instruction UTXOs of a call with the UTXO identities
/// `ids`: each entry names the first UTXO of the transaction with its
/// identity, points (as callee index) to the first entry that names the same
/// UTXO, and (as caller index) to where the calling instruction holds it.
pub open spec fn prepared(
    utxos: Seq<UtxoState>,
    caller: Seq<InstructionUtxo>,
    ids: Seq<UtxoId>,
    v: Seq<InstructionUtxo>,
) -> bool {
    &&& v.len() == ids.len()
    &&& forall|k: int|
        0 <= k < v.len() ==> #[trigger] is_first_with_id(
            utxos,
            ids[k].bytes(),
            Some(v[k].index_in_transaction),
        )
    &&& forall|k: int|
        0 <= k < v.len() ==> {
            let c = (#[trigger] v[k]).index_in_callee as int;
            &&& c <= k
            &&& v[c].index_in_transaction == v[k].index_in_transaction
            &&& forall|j: int| 0 <= j < c ==> v[j].index_in_transaction != v[k].index_in_transaction
            &&& is_first_instruction_utxo_with_id(caller, utxos, ids[c].bytes(), Some(v[k].index_in_caller))
        }
}

impl InvokeContext {
    /// The instruction UTXOs of a call that the running instruction makes:
    /// each UTXO that the call names must be in the transaction and held by
    /// the running instruction.
    pub fn prepare_instruction(&self, instruction: &StableInstruction) -> (res: Result<
        Vec<InstructionUtxo>,
        InstructionError,
    >)
        requires
            self.tc().wf(),
            self.tc().stack().len() > 0,
        ensures
            res matches Ok(v) ==> prepared(
                self.tc().utxos(),
                current_instruction_utxos(self.tc()),
                instruction.utxos@,
                v@,
            ),
            res matches Err(e) ==> e == InstructionError::MissingAccount && exists|k: int|
                0 <= k < instruction.utxos@.len() && #[trigger] unpreparable(
                    self.tc().utxos(),
                    current_instruction_utxos(self.tc()),
                    instruction.utxos@,
                    k,
                ),
    {
        let tc = &self.transaction_context;
        let instruction_context = tc.get_current_instruction_context();
        let ghost utxos = tc.utxos();
        let ghost caller = instruction_context.instruction_utxos@;
        let ghost ids = instruction.utxos@;
        assert(caller == current_instruction_utxos(self.tc()));
        assert(utxos == self.tc().utxos());
        let mut dedup: Vec<InstructionUtxo> = Vec::new();
        let mut dup_idx: Vec<usize> = Vec::new();
        let n = instruction.utxos.len();
        let mut k: usize = 0;
        while k < n
            invariant
                n == ids.len(),
                k <= n,
                ids == instruction.utxos@,
                utxos == tc.utxos(),
                caller == instruction_context.instruction_utxos@,
                caller == current_instruction_utxos(self.tc()),
                utxos == self.tc().utxos(),
                dup_idx@.len() == k,
                forall|j: int| 0 <= j < k ==> #[trigger] dup_idx@[j] < dedup@.len(),
                forall|j: int|
                    0 <= j < k ==> is_first_with_id(
                        utxos,
                        ids[j].bytes(),
                        Some(dedup@[#[trigger] dup_idx@[j] as int].index_in_transaction),
                    ),
                forall|d: int|
                    0 <= d < dedup@.len() ==> {
                        let c = (#[trigger] dedup@[d]).index_in_callee as int;
                        &&& c < k
                        &&& dup_idx@[c] == d
                        &&& forall|j: int|
                            0 <= j < c ==> dedup@[dup_idx@[j] as int].index_in_transaction
                                != dedup@[d].index_in_transaction
                        &&& is_first_instruction_utxo_with_id(
                            caller,
                            utxos,
                            ids[c].bytes(),
                            Some(dedup@[d].index_in_caller),
                        )
                    },
                forall|j: int|
                    0 <= j < k ==> dedup@[#[trigger] dup_idx@[j] as int].index_in_callee <= j,
                forall|d1: int, d2: int|
                    0 <= d1 < d2 < dedup@.len() ==> #[trigger] dedup@[d1].index_in_transaction
                        != #[trigger] dedup@[d2].index_in_transaction,
            decreases n - k,
        {
            let utxo_id = &instruction.utxos[k];
            let index_in_transaction = match tc.find_index_of_utxo(utxo_id) {
                Some(t) => t,
                None => {
                    assert(unpreparable(utxos, caller, ids, k as int));
                    assert(unpreparable(self.tc().utxos(), current_instruction_utxos(self.tc()), instruction.utxos@, k as int));
                    return Err(InstructionError::MissingAccount);
                },
            };
            // look for an earlier entry that names the same UTXO
            let mut d: usize = 0;
            let mut found = false;
            while d < dedup.len()
                invariant_except_break
                    !found,
                invariant
                    d <= dedup@.len(),
                    forall|e: int| 0 <= e < d ==> dedup@[e].index_in_transaction != index_in_transaction,
                ensures
                    d <= dedup@.len(),
                    forall|e: int| 0 <= e < d ==> dedup@[e].index_in_transaction != index_in_transaction,
                    found ==> d < dedup@.len() && dedup@[d as int].index_in_transaction == index_in_transaction,
                    !found ==> d == dedup@.len(),
                decreases dedup@.len() - d, if found { 0nat } else { 1nat },
            {
                if dedup[d].index_in_transaction == index_in_transaction {
                    found = true;
                    break;
                }
                d = d + 1;
            }
            if found {
                dup_idx.push(d);
            } else {
                assert forall|j: int| 0 <= j < k implies !is_first_with_id(utxos, ids[j].bytes(), Some(index_in_transaction)) by {
                    let dj = dup_idx@[j] as int;
                    assert(is_first_with_id(utxos, ids[j].bytes(), Some(dedup@[dj].index_in_transaction)));
                    assert(dedup@[dj].index_in_transaction != index_in_transaction);
                }
                let index_in_caller = match instruction_context.find_index_of_instruction_account(
                    tc,
                    utxo_id,
                ) {
                    Some(c) => c,
                    None => {
                        assert(unpreparable(utxos, caller, ids, k as int));
                        assert(unpreparable(self.tc().utxos(), current_instruction_utxos(self.tc()), instruction.utxos@, k as int));
                        return Err(InstructionError::MissingAccount);
                    },
                };
                dup_idx.push(dedup.len());
                dedup.push(
                    InstructionUtxo { index_in_transaction, index_in_caller, index_in_callee: k },
                );
            }
            k = k + 1;
        }
        let mut result: Vec<InstructionUtxo> = Vec::new();
        let mut j: usize = 0;
        while j < n
            invariant
                j <= n,
                n == dup_idx@.len(),
                forall|i: int| 0 <= i < n ==> #[trigger] dup_idx@[i] < dedup@.len(),
                result@.len() == j,
                forall|i: int| 0 <= i < j ==> result@[i] == dedup@[dup_idx@[i] as int],
            decreases n - j,
        {
            result.push(dedup[dup_idx[j]]);
            j = j + 1;
        }
        proof {
            assert forall|i: int| 0 <= i < n implies {
                let c = (#[trigger] result@[i]).index_in_callee as int;
                &&& c <= i
                &&& result@[c].index_in_transaction == result@[i].index_in_transaction
                &&& forall|j2: int| 0 <= j2 < c ==> result@[j2].index_in_transaction != result@[i].index_in_transaction
                &&& is_first_instruction_utxo_with_id(caller, utxos, ids[c].bytes(), Some(result@[i].index_in_caller))
            } by {
                let d = dup_idx@[i] as int;
                assert(result@[i] == dedup@[d]);
                let c = dedup@[d].index_in_callee as int;
                assert(dup_idx@[c] == d);
                assert(result@[c] == dedup@[d]);
                assert forall|j2: int| 0 <= j2 < c implies result@[j2].index_in_transaction != result@[i].index_in_transaction by {
                    assert(result@[j2] == dedup@[dup_idx@[j2] as int]);
                }
            }
            assert forall|i: int| 0 <= i < n implies #[trigger] is_first_with_id(
                utxos,
                ids[i].bytes(),
                Some(result@[i].index_in_transaction),
            ) by {
                assert(result@[i] == dedup@[dup_idx@[i] as int]);
            }
        }
        Ok(result)
    }
}

} // verus!
