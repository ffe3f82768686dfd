//! Function pointers and disjoint mutable halves of one slice.

use vstd::prelude::*;

verus! {

/// Applies `f` to `arg` twice and adds the two results.
pub fn do_twice<F: Fn(i32) -> i32>(f: F, arg: i32) -> (sum: i32)
    requires
        call_requires(f, (arg,)),
        forall|a: i32, b: i32|
            call_ensures(f, (arg,), a) && call_ensures(f, (arg,), b) ==> i32::MIN <= a + b
                <= i32::MAX,
    ensures
        exists|a: i32, b: i32|
            call_ensures(f, (arg,), a) && call_ensures(f, (arg,), b) && sum == a + b,
{
    let first = f(arg);
    let second = f(arg);
    first + second
}

/// Splits one mutable slice at `mid` into two that do not overlap.
pub fn split_at_mut(slice: &mut [i32], mid: usize) -> (halves: (&mut [i32], &mut [i32]))
    requires
        mid <= old(slice)@.len(),
    ensures
        halves.0@ == old(slice)@.subrange(0, mid as int),
        halves.1@ == old(slice)@.subrange(mid as int, old(slice)@.len() as int),
        final(slice)@ == final(halves.0)@ + final(halves.1)@,
{
    slice.split_at_mut(mid)
}

} // verus!
