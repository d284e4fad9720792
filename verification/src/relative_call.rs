//! A small program whose entrypoint calls two helper functions: one that
//! writes through a reference into its caller's stack, and one that adds.
use vstd::prelude::*;

verus! {

/// Writes 2 into the first slot of `stack` and reads it back.
pub fn function_stack_ref(stack: &mut [u64]) -> (res: u64)
    requires
        old(stack)@.len() > 0,
    ensures
        final(stack)@ == old(stack)@.update(0, 2u64),
        res == 2,
{
    stack[0] = 2;
    stack[0]
}

pub fn function_sum(x: u64, y: u64) -> (res: u64)
    requires
        x + y <= u64::MAX,
    ensures
        res == x + y,
{
    x + y
}

/// Stores 2 through `x`, passes it through a stack slot and through
/// `function_stack_ref`, and returns the sum of the two: 4.
pub fn entrypoint(x: &mut u8) -> (res: u64)
    ensures
        *final(x) == 2,
        res == 4,
{
    let mut stack = [0u64; 32];
    *x = 2;
    stack[0] = *x as u64;
    let y = function_stack_ref(&mut stack);
    let z = *x as u64;
    function_sum(y, z)
}

} // verus!
