//! Small arithmetic building blocks.

use vstd::prelude::*;

verus! {

/// The sum of two integers.
pub fn add(a: i32, b: i32) -> (sum: i32)
    requires
        i32::MIN <= a + b <= i32::MAX,
    ensures
        sum == a + b,
{
    a + b
}

/// The sum and the product of two integers.
pub fn calculate(a: i32, b: i32) -> (r: (i32, i32))
    requires
        i32::MIN <= a + b <= i32::MAX,
        i32::MIN <= a * b <= i32::MAX,
    ensures
        r.0 == a + b,
        r.1 == a * b,
{
    (a + b, a * b)
}

} // verus!
