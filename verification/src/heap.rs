//! The program side of the heap: the bump allocator that serves a program's
//! allocations from the top of its heap region downwards, and the error codes
//! a program returns to the runtime.
use vstd::prelude::*;

verus! {

/// The bytes at the bottom of the heap that hold the allocator's position.
pub const POSITION_WORD_BYTES: usize = 8;

/// The bump allocator used as the default heap when running programs. The
/// word at `start` holds the lowest address handed out so far (0 before the
/// first allocation); every allocation is taken below it.
#[derive(Debug, Clone, Copy, PartialEq, Eq, Structural)]
pub struct BumpAllocator {
    pub start: usize,
    pub len: usize,
}

pub open spec fn is_power_of_two(a: usize) -> bool {
    a > 0 && a & ((a - 1) as usize) == 0
}

/// Where the allocator stands: the stored position, or the top of the heap
/// before the first allocation.
pub open spec fn current_top(start: usize, len: usize, pos: usize) -> int {
    if pos == 0 {
        start + len
    } else {
        pos as int
    }
}

/// The candidate address of the next block: `size` bytes below the current
/// position (or 0), rounded down to a multiple of `align`.
pub open spec fn next_block(start: usize, len: usize, pos: usize, size: usize, align: usize) -> usize {
    let top = current_top(start, len, pos);
    let below: usize = if top >= size {
        (top - size) as usize
    } else {
        0usize
    };
    below & !((align - 1) as usize)
}

impl BumpAllocator {
    /// Takes a block of `size` bytes aligned to `align` below the position
    /// stored in `pos_word`, and stores the block's address there. Gives 0,
    /// and leaves the position as it was, when the block would reach the
    /// position word at the bottom of the heap.
    pub fn allocate(&self, pos_word: &mut usize, size: usize, align: usize) -> (res: usize)
        requires
            self.start + self.len <= usize::MAX,
            self.start + POSITION_WORD_BYTES <= usize::MAX,
            is_power_of_two(align),
        ensures
            ({
                let p = next_block(self.start, self.len, *old(pos_word), size, align);
                if p < self.start + POSITION_WORD_BYTES {
                    res == 0 && *final(pos_word) == *old(pos_word)
                } else {
                    res == p && *final(pos_word) == p
                }
            }),
    {
        let mut pos = *pos_word;
        if pos == 0 {
            pos = self.start + self.len;
        }
        pos = pos.saturating_sub(size);
        pos = pos & !(align.wrapping_sub(1));
        if pos < self.start + POSITION_WORD_BYTES {
            return 0;
        }
        *pos_word = pos;
        pos
    }

    /// Nothing is ever freed.
    pub fn dealloc(&self, _ptr: usize, _size: usize, _align: usize) {
    }
}

proof fn lemma_round_down(x: usize, a: usize)
    requires
        is_power_of_two(a),
    ensures
        x & !((a - 1) as usize) <= x,
        (x & !((a - 1) as usize)) & ((a - 1) as usize) == 0,
{
    assert(x & !((a - 1) as usize) <= x) by (bit_vector);
    assert((x & !((a - 1) as usize)) & ((a - 1) as usize) == 0) by (bit_vector);
}

/// A block that the allocator hands out is aligned as asked (its low bits
/// below the alignment are clear), lies above the
/// position word, and ends at or below the position it was taken from; so
/// every block lies below all blocks handed out before it.
pub proof fn lemma_blocks_below_position(start: usize, len: usize, pos: usize, size: usize, align: usize)
    requires
        start + len <= usize::MAX,
        is_power_of_two(align),
        next_block(start, len, pos, size, align) >= start + POSITION_WORD_BYTES,
    ensures
        next_block(start, len, pos, size, align) & ((align - 1) as usize) == 0,
        next_block(start, len, pos, size, align) + size <= current_top(start, len, pos),
{
    let top = current_top(start, len, pos);
    let below: usize = if top >= size {
        (top - size) as usize
    } else {
        0usize
    };
    lemma_round_down(below, align);
}

/// The errors a program can return; the runtime sees each as a code in the
/// upper 32 bits of the return value.
#[derive(Debug, Clone, Copy, PartialEq, Eq, Structural)]
pub enum ProgramError {
    DefaultError,
    CalculationError,
}

/// Builtin return values occupy the upper 32 bits.
pub const BUILTIN_BIT_SHIFT: u64 = 32;

pub const DEFAULT_ERROR: u64 = 4294967296;

pub const CALCULATION_ERROR: u64 = 8589934592;

impl From<ProgramError> for u64 {
    fn from(error: ProgramError) -> (res: u64) {
        match error {
            ProgramError::DefaultError => DEFAULT_ERROR,
            ProgramError::CalculationError => CALCULATION_ERROR,
        }
    }
}

impl vstd::std_specs::convert::FromSpecImpl<ProgramError> for u64 {
    open spec fn obeys_from_spec() -> bool {
        true
    }

    open spec fn from_spec(error: ProgramError) -> u64 {
        match error {
            ProgramError::DefaultError => DEFAULT_ERROR,
            ProgramError::CalculationError => CALCULATION_ERROR,
        }
    }
}

/// The error codes are 1 and 2 shifted into the upper 32 bits.
pub proof fn lemma_error_codes()
    ensures
        DEFAULT_ERROR == 1u64 << BUILTIN_BIT_SHIFT,
        CALCULATION_ERROR == 2u64 << BUILTIN_BIT_SHIFT,
{
    assert(4294967296u64 == 1u64 << 32u64) by (bit_vector);
    assert(8589934592u64 == 2u64 << 32u64) by (bit_vector);
}

} // verus!
