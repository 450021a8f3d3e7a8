//! The layout sample: code whose source text is laid out badly. What it
//! computes is unremarkable.

use vstd::prelude::*;

verus! {

/// The sum of the first two arguments; the third is not looked at.
pub fn example_function(arg1: i32, arg2: i32, arg3: String) -> (sum: i32)
    requires
        i32::MIN <= arg1 + arg2 <= i32::MAX,
    ensures
        sum == arg1 + arg2,
{
    arg1 + arg2
}

/// A record of three fields.
#[derive(Debug, PartialEq, Eq)]
pub struct BadlyFormattedStruct {
    /// A number.
    pub field1: i32,
    /// A text.
    pub field2: String,
    /// A flag.
    pub field3: bool,
}

/// The sum that the sample prints: 1 + 2 + 3.
pub fn sum_of_three() -> (sum: i32)
    ensures
        sum == 6,
{
    let x: i32 = 1;
    let y: i32 = 2;
    let z: i32 = 3;
    x + y + z
}

} // verus!
