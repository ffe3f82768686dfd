//! Functions as values, and a sequence that counts to a hundred.

use vstd::prelude::*;

verus! {

/// Calls `f` once and uses it up.
pub fn call_once<F: FnOnce()>(f: F)
    requires
        call_requires(f, ()),
    ensures
        call_ensures(f, (), ()),
{
    f();
}

/// Calls `f` through a mutable borrow.
pub fn call_mut<F: FnMut()>(f: &mut F)
    requires
        call_requires(*old(f), ()),
    ensures
        call_ensures(*old(f), (), ()),
{
    f();
}

/// Calls `f` through a shared borrow.
pub fn call_fn<F: Fn()>(f: &F)
    requires
        call_requires(*f, ()),
    ensures
        call_ensures(*f, (), ()),
{
    f();
}

/// Counts from one to a hundred, then stops for good.
pub struct Counter {
    count: u32,
}

impl Counter {
    /// The number that was handed out last; zero before the first.
    pub closed spec fn view(&self) -> nat {
        self.count as nat
    }

    /// The counter never passes one more than a hundred.
    pub closed spec fn wf(&self) -> bool {
        self.count <= 101
    }

    /// A counter that has handed out nothing yet.
    pub fn new() -> (c: Counter)
        ensures
            c.wf(),
            c@ == 0,
    {
        Counter { count: 0 }
    }

    /// The next number, or `None` once a hundred has been handed out.
    pub fn next(&mut self) -> (item: Option<u32>)
        requires
            old(self).wf(),
        ensures
            final(self).wf(),
            old(self)@ < 100 ==> item == Some((old(self)@ + 1) as u32) && final(self)@ == old(self)@
                + 1,
            old(self)@ >= 100 ==> item.is_none() && final(self)@ == 101,
    {
        if self.count <= 100 {
            self.count += 1;
        }
        if self.count <= 100 {
            Some(self.count)
        } else {
            None
        }
    }

    /// How many numbers the counter can still hand out.
    pub open spec fn room(&self) -> nat {
        if self@ >= 100 {
            0
        } else {
            (100 - self@) as nat
        }
    }

    /// The next `limit` numbers, or all that are left where those are fewer.
    pub fn take(&mut self, limit: usize) -> (items: Vec<u32>)
        requires
            old(self).wf(),
        ensures
            final(self).wf(),
            items@.len() == if limit <= old(self).room() {
                limit as nat
            } else {
                old(self).room()
            },
            forall|i: int| 0 <= i < items@.len() ==> items@[i] == old(self)@ + 1 + i,
            final(self)@ == if limit <= old(self).room() {
                old(self)@ + limit
            } else {
                101
            },
    {
        let mut items: Vec<u32> = Vec::new();
        while items.len() < limit
            invariant
                self.wf(),
                old(self).wf(),
                items@.len() <= limit,
                items@.len() <= old(self).room(),
                self@ == old(self)@ + items@.len(),
                forall|i: int| 0 <= i < items@.len() ==> items@[i] == old(self)@ + 1 + i,
            decreases limit - items@.len(),
        {
            match self.next() {
                Some(item) => {
                    items.push(item);
                },
                None => {
                    return items;
                },
            }
        }
        items
    }
}

} // verus!
