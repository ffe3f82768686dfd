//! A scope for tasks: it cannot be left while one of its tasks still runs.
//!
//! Tasks that are registered in a region may read what their caller owns,
//! since the caller stays inside the region until each of them has
//! completed. Leaving is one step that either succeeds or says that the
//! caller has to wait.

use vstd::prelude::*;

verus! {

/// A region and the tasks registered in it.
pub struct Region {
    registered: usize,
    completed: usize,
}

/// What a region is, as a mathematical value.
pub struct RegionView {
    /// The number of tasks registered so far.
    pub registered: nat,
    /// The number of those that have completed.
    pub completed: nat,
}

impl Region {
    /// The region as a mathematical value.
    pub closed spec fn view(&self) -> RegionView {
        RegionView { registered: self.registered as nat, completed: self.completed as nat }
    }

    /// No more tasks have completed than were registered.
    pub open spec fn wf(&self) -> bool {
        self@.completed <= self@.registered
    }

    /// Enters a region without tasks.
    pub fn enter() -> (region: Region)
        ensures
            region.wf(),
            region@ == (RegionView { registered: 0, completed: 0 }),
    {
        Region { registered: 0, completed: 0 }
    }

    /// Registers one more task and returns its number, counted from zero;
    /// `None`, and no change, where the count of tasks cannot grow.
    pub fn register(&mut self) -> (task: Option<usize>)
        requires
            old(self).wf(),
        ensures
            final(self).wf(),
            old(self)@.registered < usize::MAX ==> task == Some(old(self)@.registered as usize)
                && final(self)@ == (RegionView {
                registered: old(self)@.registered + 1,
                ..old(self)@
            }),
            old(self)@.registered >= usize::MAX ==> task.is_none() && final(self)@ == old(self)@,
    {
        if self.registered < usize::MAX {
            let task = self.registered;
            self.registered = self.registered + 1;
            Some(task)
        } else {
            None
        }
    }

    /// Records that one task has completed. Returns whether a task was
    /// still running; if none was, nothing changes.
    pub fn complete(&mut self) -> (recorded: bool)
        requires
            old(self).wf(),
        ensures
            final(self).wf(),
            recorded == (old(self)@.completed < old(self)@.registered),
            recorded ==> final(self)@ == (RegionView {
                completed: old(self)@.completed + 1,
                ..old(self)@
            }),
            !recorded ==> final(self)@ == old(self)@,
    {
        if self.completed < self.registered {
            self.completed = self.completed + 1;
            true
        } else {
            false
        }
    }

    /// The number of tasks that still run.
    pub fn outstanding(&self) -> (n: usize)
        requires
            self.wf(),
        ensures
            n == self@.registered - self@.completed,
    {
        self.registered - self.completed
    }

    /// Whether the region can be left now: every task registered in it has
    /// completed. Where it cannot, the caller waits and asks again.
    pub fn try_exit(&self) -> (may_leave: bool)
        requires
            self.wf(),
        ensures
            may_leave == (self@.completed == self@.registered),
    {
        self.completed == self.registered
    }
}

} // verus!
