//! The largest item of a list or of a pair, for any type with a partial order.

use vstd::prelude::*;
use vstd::std_specs::cmp::{PartialOrdIs, PartialOrdSpec};
use crate::traits_generics::Pair;

verus! {

/// The item that a scan from the left keeps: the first item, replaced by
/// each later item that is greater than the one kept so far.
pub open spec fn greatest<T: PartialOrd>(list: Seq<T>) -> T
    recommends
        list.len() > 0,
    decreases list.len(),
{
    if list.len() <= 1 {
        list[0]
    } else {
        let before = greatest(list.drop_last());
        if list.last().is_gt(&before) {
            list.last()
        } else {
            before
        }
    }
}

/// The largest item of a list that is not empty.
pub fn largest<T: PartialOrd + Copy>(list: &[T]) -> (item: T)
    requires
        list@.len() > 0,
    ensures
        exists|i: int| 0 <= i < list@.len() && item == list@[i],
        T::obeys_partial_cmp_spec() ==> item == greatest(list@),
{
    let mut largest = list[0];
    let mut i: usize = 1;
    let ghost mut seen: int = 1;
    let ghost mut at: int = 0;
    proof {
        assert(list@.take(1).len() == 1);
    }
    while i < list.len()
        invariant
            1 <= seen <= list@.len(),
            seen == i,
            0 <= at < list@.len(),
            largest == list@[at],
            T::obeys_partial_cmp_spec() ==> largest == greatest(list@.take(seen)),
        decreases list@.len() - seen,
    {
        let item = list[i];
        proof {
            let next = list@.take(seen + 1);
            assert(next.drop_last() =~= list@.take(seen));
            assert(next.last() == item);
        }
        if item > largest {
            largest = item;
            proof {
                at = seen;
            }
        }
        i = i + 1;
        proof {
            seen = seen + 1;
        }
    }
    proof {
        assert(list@.take(seen) =~= list@);
    }
    largest
}

impl<T: PartialOrd> Pair<T> {
    /// Whether the first member is the largest: it is greater than the
    /// second or equal to it.
    pub fn largest_is_x(&self) -> (first: bool)
        ensures
            T::obeys_partial_cmp_spec() ==> first == self.x.is_ge(&self.y),
    {
        self.x >= self.y
    }
}

/// For whole numbers the item kept is the maximum: it is in the list, and no
/// item of the list is greater.
pub proof fn lemma_greatest_is_maximum(list: Seq<i32>)
    requires
        list.len() > 0,
    ensures
        exists|i: int| 0 <= i < list.len() && greatest(list) == list[i],
        forall|i: int| 0 <= i < list.len() ==> list[i] <= greatest(list),
    decreases list.len(),
{
    if list.len() > 1 {
        let rest = list.drop_last();
        lemma_greatest_is_maximum(rest);
        let i = choose|i: int| 0 <= i < rest.len() && greatest(rest) == rest[i];
        assert(rest[i] == list[i]);
        assert forall|j: int| 0 <= j < list.len() implies list[j] <= greatest(list) by {
            if j < rest.len() {
                assert(rest[j] == list[j]);
            }
        }
        if list.last().is_gt(&greatest(rest)) {
            assert(greatest(list) == list[list.len() - 1]);
        } else {
            assert(greatest(list) == list[i]);
        }
    } else {
        assert(greatest(list) == list[0]);
    }
}

} // verus!
