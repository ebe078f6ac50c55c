//! A function with which a binding into another language is tried out.

use vstd::prelude::*;

verus! {

/// The sum of two numbers that 32 bits can hold.
pub fn add_test_two_numbers(a: u32, b: u32) -> (sum: u32)
    requires
        a + b <= u32::MAX,
    ensures
        sum == a + b,
{
    a + b
}

} // verus!
