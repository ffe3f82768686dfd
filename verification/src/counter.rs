//! An integer accumulator for many workers.
//!
//! Each operation is one atomic step. A host that shares a counter between
//! threads keeps it behind a lock and takes one step per acquisition, so that
//! the steps of all workers form one sequence; the laws below say what every
//! such sequence adds up to.
//!
//! A holder of the lock that ends abnormally leaves the counter poisoned:
//! the host reports that with `poison`. From then on `try_increment` and
//! `try_read` fail with `LockUnavailable` instead of handing out a value
//! that may be half-written, and the operations that cannot fail must not be
//! called.

use vstd::prelude::*;
use crate::job::DispatchError;

verus! {

/// An integer that is changed only by `increment`.
pub struct SharedCounter {
    value: i64,
    poisoned: bool,
}

/// The sum of a sequence of deltas.
pub open spec fn sum_of(deltas: Seq<int>) -> int
    decreases deltas.len(),
{
    if deltas.len() == 0 {
        0
    } else {
        sum_of(deltas.drop_last()) + deltas.last()
    }
}

/// The value of a counter that started at `start` after the increments
/// `deltas` were applied one after the other.
pub open spec fn after_increments(start: int, deltas: Seq<int>) -> int
    decreases deltas.len(),
{
    if deltas.len() == 0 {
        start
    } else {
        after_increments(start, deltas.drop_last()) + deltas.last()
    }
}

impl SharedCounter {
    /// The current value.
    pub closed spec fn view(&self) -> int {
        self.value as int
    }

    /// Whether a holder of the counter's lock has ended abnormally.
    pub closed spec fn poisoned(&self) -> bool {
        self.poisoned
    }

    /// A counter that starts at `initial`, with a sound lock.
    pub fn new(initial: i64) -> (c: SharedCounter)
        ensures
            c@ == initial,
            !c.poisoned(),
    {
        SharedCounter { value: initial, poisoned: false }
    }

    /// Records what the host saw: a holder of the counter's lock ended
    /// abnormally. The value stays as it is, and the counter is poisoned for
    /// good.
    pub fn poison(&mut self)
        ensures
            final(self).poisoned(),
            final(self)@ == old(self)@,
    {
        self.poisoned = true;
    }

    /// Whether the counter is poisoned.
    pub fn is_poisoned(&self) -> (poisoned: bool)
        ensures
            poisoned == self.poisoned(),
    {
        self.poisoned
    }

    /// Adds `delta` and returns the new value, unless the counter is
    /// poisoned: then it fails with `LockUnavailable` and changes nothing.
    pub fn try_increment(&mut self, delta: i64) -> (r: Result<i64, DispatchError>)
        requires
            !old(self).poisoned() ==> i64::MIN <= old(self)@ + delta <= i64::MAX,
        ensures
            final(self).poisoned() == old(self).poisoned(),
            old(self).poisoned() ==> r == Err::<i64, DispatchError>(DispatchError::LockUnavailable)
                && final(self)@ == old(self)@,
            !old(self).poisoned() ==> r == Ok::<i64, DispatchError>((old(self)@ + delta) as i64)
                && final(self)@ == old(self)@ + delta,
    {
        if self.poisoned {
            Err(DispatchError::LockUnavailable)
        } else {
            self.value = self.value + delta;
            Ok(self.value)
        }
    }

    /// The value at the instant of the call, unless the counter is
    /// poisoned: then the call fails with `LockUnavailable`.
    pub fn try_read(&self) -> (r: Result<i64, DispatchError>)
        ensures
            self.poisoned() ==> r == Err::<i64, DispatchError>(DispatchError::LockUnavailable),
            !self.poisoned() ==> r == Ok::<i64, DispatchError>(self@ as i64),
    {
        if self.poisoned {
            Err(DispatchError::LockUnavailable)
        } else {
            Ok(self.value)
        }
    }

    /// Adds `delta` and returns the new value. The counter must not be poisoned.
    pub fn increment(&mut self, delta: i64) -> (value: i64)
        requires
            !old(self).poisoned(),
            i64::MIN <= old(self)@ + delta <= i64::MAX,
        ensures
            !final(self).poisoned(),
            final(self)@ == old(self)@ + delta,
            value == final(self)@,
    {
        self.value = self.value + delta;
        self.value
    }

    /// Adds `delta` and returns the new value, unless the sum does not fit:
    /// then the counter keeps its value and `None` is returned. The counter
    /// must not be poisoned.
    pub fn checked_increment(&mut self, delta: i64) -> (value: Option<i64>)
        requires
            !old(self).poisoned(),
        ensures
            !final(self).poisoned(),
            i64::MIN <= old(self)@ + delta <= i64::MAX ==> final(self)@ == old(self)@ + delta
                && value == Some((old(self)@ + delta) as i64),
            !(i64::MIN <= old(self)@ + delta <= i64::MAX) ==> final(self)@ == old(self)@
                && value.is_none(),
    {
        match self.value.checked_add(delta) {
            Some(sum) => {
                self.value = sum;
                Some(sum)
            },
            None => None,
        }
    }

    /// The value at the instant of the call. The counter must not be poisoned.
    pub fn read(&self) -> (value: i64)
        requires
            !self.poisoned(),
        ensures
            value == self@,
    {
        self.value
    }
}

/// A sequence of increments adds the sum of its deltas to the starting value.
pub proof fn lemma_increments_add_their_sum(start: int, deltas: Seq<int>)
    ensures
        after_increments(start, deltas) == start + sum_of(deltas),
    decreases deltas.len(),
{
    if deltas.len() > 0 {
        lemma_increments_add_their_sum(start, deltas.drop_last());
    }
}

/// `count` increments by one, from any starting value, leave the counter at
/// that value plus `count`: no update is lost and none is applied twice.
pub proof fn lemma_unit_increments(start: int, deltas: Seq<int>)
    requires
        forall|i: int| 0 <= i < deltas.len() ==> deltas[i] == 1,
    ensures
        after_increments(start, deltas) == start + deltas.len(),
    decreases deltas.len(),
{
    if deltas.len() > 0 {
        lemma_unit_increments(start, deltas.drop_last());
    }
}

/// Taking one delta out of a sequence lowers the sum by that delta.
proof fn lemma_sum_remove(deltas: Seq<int>, i: int)
    requires
        0 <= i < deltas.len(),
    ensures
        sum_of(deltas) == sum_of(deltas.remove(i)) + deltas[i],
    decreases deltas.len(),
{
    if i == deltas.len() - 1 {
        assert(deltas.remove(i) =~= deltas.drop_last());
    } else {
        lemma_sum_remove(deltas.drop_last(), i);
        assert(deltas.remove(i).drop_last() =~= deltas.drop_last().remove(i));
        assert(deltas.remove(i).last() == deltas.last());
    }
}

/// The final value does not depend on the order in which concurrent
/// increments are applied: two sequences that hold the same deltas, each as
/// often as the other, lead from one starting value to one final value.
pub proof fn lemma_increment_order_is_irrelevant(start: int, first: Seq<int>, second: Seq<int>)
    requires
        first.to_multiset() == second.to_multiset(),
    ensures
        after_increments(start, first) == after_increments(start, second),
    decreases first.len(),
{
    broadcast use vstd::seq_lib::group_to_multiset_ensures;

    lemma_increments_add_their_sum(start, first);
    lemma_increments_add_their_sum(start, second);
    assert(first.len() == first.to_multiset().len());
    assert(second.len() == second.to_multiset().len());
    if first.len() > 0 {
        let x = first.last();
        assert(first.contains(x));
        assert(second.to_multiset().count(x) > 0);
        assert(second.contains(x));
        let j = choose|j: int| 0 <= j < second.len() && second[j] == x;
        let rest = second.remove(j);
        assert(first.drop_last() =~= first.remove(first.len() - 1));
        assert(first.drop_last().to_multiset() =~= rest.to_multiset());
        lemma_increment_order_is_irrelevant(start, first.drop_last(), rest);
        lemma_increments_add_their_sum(start, first.drop_last());
        lemma_increments_add_their_sum(start, rest);
        lemma_sum_remove(second, j);
    } else {
        assert(second.len() == 0);
    }
}

} // verus!
