//! The one order in which several locks are taken.
//!
//! Every lock-protected resource has a key, and the keys are totally
//! ordered. A worker that needs several locks at once takes them in
//! ascending order of their keys, and never asks for a lock whose key does
//! not come after the key of every lock that it holds. [`LockTable`] keeps
//! the holders and refuses a request that breaks the order; a request for a
//! lock that another worker holds is refused too, so that the caller backs
//! off instead of waiting. [`acquisition_plan`] puts the keys that a worker
//! needs in order, and [`LockTable::acquire_all`] takes all of them or none. [`lemma_no_deadlock`] shows that workers that keep
//! to the order are never all stuck.

use vstd::prelude::*;
use crate::job::DispatchError;

verus! {

/// The two keys in the order in which their locks are taken: ascending.
pub fn acquisition_order(a: usize, b: usize) -> (order: (usize, usize))
    ensures
        order.0 <= order.1,
        order == (a, b) || order == (b, a),
{
    if a <= b {
        (a, b)
    } else {
        (b, a)
    }
}

/// Whether `keys` ascend strictly.
pub open spec fn ascending(keys: Seq<nat>) -> bool {
    forall|i: int, j: int| 0 <= i < j < keys.len() ==> keys[i] < keys[j]
}

/// Whether the keys of a plan ascend strictly.
pub open spec fn ascending_keys(plan: Seq<usize>) -> bool {
    forall|i: int, j: int| 0 <= i < j < plan.len() ==> plan[i] < plan[j]
}

/// The order in which a worker takes the locks that it needs: each key of
/// `needs` once, in ascending order.
pub fn acquisition_plan(needs: &Vec<usize>) -> (plan: Vec<usize>)
    ensures
        ascending_keys(plan@),
        forall|key: usize| plan@.contains(key) <==> needs@.contains(key),
{
    let mut plan: Vec<usize> = Vec::new();
    let mut n: usize = 0;
    while n < needs.len()
        invariant
            n <= needs@.len(),
            ascending_keys(plan@),
            forall|key: usize| plan@.contains(key) <==> needs@.take(n as int).contains(key),
        decreases needs@.len() - n,
    {
        let key = needs[n];
        let mut at: usize = 0;
        while at < plan.len() && plan[at] < key
            invariant
                at <= plan@.len(),
                forall|i: int| 0 <= i < at ==> plan@[i] < key,
            decreases plan@.len() - at,
        {
            at = at + 1;
        }
        let ghost before = plan@;
        let ghost seen = needs@.take(n as int);
        let ghost next = needs@.take(n + 1);
        proof {
            assert(next =~= seen.push(key));
            assert forall|other: usize| next.contains(other) <==> (seen.contains(other) || other
                == key) by {
                if seen.contains(other) {
                    let i = choose|i: int| 0 <= i < seen.len() && seen[i] == other;
                    assert(next[i] == other);
                }
                if other == key {
                    assert(next[n as int] == key);
                }
            }
        }
        if at < plan.len() && plan[at] == key {
            proof {
                assert(before[at as int] == key);
                assert(before.contains(key));
                assert forall|other: usize| plan@.contains(other) <==> next.contains(other) by {
                    assert(before.contains(other) <==> seen.contains(other));
                }
            }
        } else {
            plan.insert(at, key);
            proof {
                assert(plan@ =~= before.insert(at as int, key));
                assert forall|i: int, j: int| 0 <= i < j < plan@.len() implies plan@[i] < plan@[j] by {
                    if j < at {
                        assert(plan@[i] == before[i] && plan@[j] == before[j]);
                    } else if j == at {
                        assert(plan@[i] == before[i]);
                    } else if i < at {
                        assert(plan@[i] == before[i] && plan@[j] == before[j - 1]);
                        assert(before[at as int] <= before[j - 1]) by {
                            if at < j - 1 {
                                assert(before[at as int] < before[j - 1]);
                            }
                        }
                    } else if i == at {
                        assert(plan@[j] == before[j - 1]);
                        if at < j - 1 {
                            assert(before[at as int] < before[j - 1]);
                        }
                    } else {
                        assert(plan@[i] == before[i - 1] && plan@[j] == before[j - 1]);
                    }
                }
                assert forall|other: usize| plan@.contains(other) <==> (before.contains(other)
                    || other == key) by {
                    if plan@.contains(other) {
                        let i = choose|i: int| 0 <= i < plan@.len() && plan@[i] == other;
                        if i < at {
                            assert(before[i] == other);
                        } else if i > at {
                            assert(before[i - 1] == other);
                        }
                    }
                    if before.contains(other) {
                        let i = choose|i: int| 0 <= i < before.len() && before[i] == other;
                        if i < at {
                            assert(plan@[i] == other);
                        } else {
                            assert(plan@[i + 1] == other);
                        }
                    }
                    if other == key {
                        assert(plan@[at as int] == key);
                    }
                }
                assert forall|other: usize| plan@.contains(other) <==> next.contains(other) by {
                    assert(before.contains(other) <==> seen.contains(other));
                }
            }
        }
        n = n + 1;
    }
    proof {
        assert(needs@.take(n as int) =~= needs@);
    }
    plan
}

/// Whether worker `worker` may ask for the lock `key`: it holds no lock
/// with that key or a higher one.
pub open spec fn respects_order(holders: Seq<Option<nat>>, worker: nat, key: int) -> bool {
    forall|k: int| key <= k < holders.len() ==> holders[k] != Some(worker)
}

/// Who holds which lock. The locks' keys are `0`, `1`, and so on.
pub struct LockTable {
    holders: Vec<Option<usize>>,
}

impl LockTable {
    /// The holder of each lock, by key.
    pub closed spec fn view(&self) -> Seq<Option<nat>> {
        Seq::new(
            self.holders@.len(),
            |k: int|
                match self.holders@[k] {
                    Some(w) => Some(w as nat),
                    None => None,
                },
        )
    }

    /// A table of `lock_count` free locks.
    pub fn new(lock_count: usize) -> (table: LockTable)
        ensures
            table@ == Seq::new(lock_count as nat, |k: int| None::<nat>),
    {
        let mut holders: Vec<Option<usize>> = Vec::new();
        let mut k: usize = 0;
        while k < lock_count
            invariant
                k <= lock_count,
                holders@.len() == k,
                forall|i: int| 0 <= i < k ==> holders@[i].is_none(),
            decreases lock_count - k,
        {
            holders.push(None);
            k = k + 1;
        }
        let table = LockTable { holders };
        assert(table@ =~= Seq::new(lock_count as nat, |k: int| None::<nat>));
        table
    }

    /// The number of locks.
    pub fn lock_count(&self) -> (n: usize)
        ensures
            n == self@.len(),
    {
        self.holders.len()
    }

    /// The worker that holds the lock `key`, if any.
    pub fn holder(&self, key: usize) -> (holder: Option<usize>)
        requires
            key < self@.len(),
        ensures
            holder.is_some() == self@[key as int].is_some(),
            holder matches Some(w) ==> self@[key as int] == Some(w as nat),
    {
        self.holders[key]
    }

    /// One attempt of `worker` to take the lock `key`, without waiting.
    ///
    /// Fails with `LockOrderViolation`, and changes nothing, if the worker
    /// holds that lock or one with a higher key; fails with
    /// `LockUnavailable`, and changes nothing, if another worker holds the
    /// lock; else the worker holds the lock from now on.
    pub fn try_acquire(&mut self, worker: usize, key: usize) -> (r: Result<(), DispatchError>)
        requires
            key < old(self)@.len(),
        ensures
            !respects_order(old(self)@, worker as nat, key as int) ==> r == Err::<
                (),
                DispatchError,
            >(DispatchError::LockOrderViolation),
            respects_order(old(self)@, worker as nat, key as int) && old(self)@[key as int].is_some()
                ==> r == Err::<(), DispatchError>(DispatchError::LockUnavailable),
            respects_order(old(self)@, worker as nat, key as int) && old(self)@[key as int].is_none()
                ==> r == Ok::<(), DispatchError>(()),
            r is Ok ==> final(self)@ == old(self)@.update(key as int, Some(worker as nat)),
            r is Err ==> final(self)@ == old(self)@,
    {
        let mut k: usize = key;
        while k < self.holders.len()
            invariant
                key <= k <= self.holders@.len(),
                *self == *old(self),
                forall|i: int| key <= i < k ==> self@[i] != Some(worker as nat),
            decreases self.holders@.len() - k,
        {
            match self.holders[k] {
                Some(w) => {
                    if w == worker {
                        assert(self@[k as int] == Some(worker as nat));
                        return Err(DispatchError::LockOrderViolation);
                    }
                },
                None => {},
            }
            k = k + 1;
        }
        match self.holders[key] {
            Some(_) => Err(DispatchError::LockUnavailable),
            None => {
                self.holders[key] = Some(worker);
                assert(self@ =~= old(self)@.update(key as int, Some(worker as nat)));
                Ok(())
            },
        }
    }

    /// Gives the lock `key` back. Returns whether `worker` held it; if not,
    /// nothing changes.
    pub fn release(&mut self, worker: usize, key: usize) -> (released: bool)
        requires
            key < old(self)@.len(),
        ensures
            released == (old(self)@[key as int] == Some(worker as nat)),
            released ==> final(self)@ == old(self)@.update(key as int, None),
            !released ==> final(self)@ == old(self)@,
    {
        match self.holders[key] {
            Some(w) => {
                if w == worker {
                    self.holders[key] = None;
                    assert(self@ =~= old(self)@.update(key as int, None));
                    true
                } else {
                    false
                }
            },
            None => false,
        }
    }
}

/// Whether `key` is among the first `upto` keys of `plan`.
pub open spec fn planned(plan: Seq<usize>, upto: int, key: int) -> bool {
    exists|j: int| 0 <= j < upto && #[trigger] plan[j] == key
}

/// The table in which `worker` holds the first `upto` locks of `plan` on
/// top of what `holders` says.
pub open spec fn with_locks(holders: Seq<Option<nat>>, worker: nat, plan: Seq<usize>, upto: int) -> Seq<
    Option<nat>,
> {
    Seq::new(
        holders.len(),
        |k: int|
            if planned(plan, upto, k) {
                Some(worker)
            } else {
                holders[k]
            },
    )
}

/// Whether one of the locks of `plan` is held.
pub open spec fn any_held(holders: Seq<Option<nat>>, plan: Seq<usize>) -> bool {
    exists|j: int| 0 <= j < plan.len() && (#[trigger] holders[plan[j] as int]).is_some()
}

impl LockTable {
    /// Takes every lock of `plan` for `worker`, in the plan's order, or none.
    ///
    /// Fails with `LockOrderViolation` if the worker holds a lock whose key
    /// does not come before the plan's first key, and with `LockUnavailable`
    /// if one of the plan's locks is held: the worker then backs off, giving
    /// back what it took in this attempt, so that the table is as before.
    pub fn acquire_all(&mut self, worker: usize, plan: &Vec<usize>) -> (r: Result<(), DispatchError>)
        requires
            ascending_keys(plan@),
            forall|j: int| 0 <= j < plan@.len() ==> plan@[j] < old(self)@.len(),
        ensures
            plan@.len() > 0 && !respects_order(old(self)@, worker as nat, plan@[0] as int) ==> r
                == Err::<(), DispatchError>(DispatchError::LockOrderViolation),
            (plan@.len() > 0 ==> respects_order(old(self)@, worker as nat, plan@[0] as int))
                && any_held(old(self)@, plan@) ==> r == Err::<(), DispatchError>(
                DispatchError::LockUnavailable,
            ),
            (plan@.len() > 0 ==> respects_order(old(self)@, worker as nat, plan@[0] as int))
                && !any_held(old(self)@, plan@) ==> r == Ok::<(), DispatchError>(()),
            r is Ok ==> final(self)@ == with_locks(
                old(self)@,
                worker as nat,
                plan@,
                plan@.len() as int,
            ),
            r is Err ==> final(self)@ == old(self)@,
    {
        let ghost start = self@;
        let mut taken: usize = 0;
        proof {
            assert(self@ =~= with_locks(start, worker as nat, plan@, 0));
        }
        while taken < plan.len()
            invariant
                taken <= plan@.len(),
                ascending_keys(plan@),
                start == old(self)@,
                forall|j: int| 0 <= j < plan@.len() ==> plan@[j] < start.len(),
                self@ == with_locks(start, worker as nat, plan@, taken as int),
                forall|j: int| 0 <= j < taken ==> (#[trigger] start[plan@[j] as int]).is_none(),
                taken > 0 ==> respects_order(start, worker as nat, plan@[0] as int),
            decreases plan@.len() - taken,
        {
            let key = plan[taken];
            let ghost before = self@;
            proof {
                assert(!planned(plan@, taken as int, key as int)) by {
                    if planned(plan@, taken as int, key as int) {
                        let j = choose|j: int| 0 <= j < taken && #[trigger] plan@[j] == key;
                        assert(plan@[j] < plan@[taken as int]);
                    }
                }
                assert(before[key as int] == start[key as int]);
                if taken > 0 {
                    assert forall|k: int| key <= k < before.len() implies before[k] != Some(
                        worker as nat,
                    ) by {
                        if planned(plan@, taken as int, k) {
                            let j = choose|j: int| 0 <= j < taken && #[trigger] plan@[j] == k;
                            assert(plan@[j] < plan@[taken as int]);
                        }
                        assert(plan@[0] < plan@[taken as int]);
                        assert(start[k] != Some(worker as nat));
                    }
                    assert(respects_order(before, worker as nat, key as int));
                } else {
                    assert(before =~= start);
                }
            }
            match self.try_acquire(worker, key) {
                Ok(()) => {
                    proof {
                        assert(self@ =~= with_locks(start, worker as nat, plan@, taken + 1)) by {
                            assert forall|k: int| 0 <= k < start.len() implies self@[k] == with_locks(
                                start,
                                worker as nat,
                                plan@,
                                taken + 1,
                            )[k] by {
                                if k == key {
                                    assert(plan@[taken as int] == k);
                                    assert(planned(plan@, taken + 1, k));
                                } else if planned(plan@, taken as int, k) {
                                    let j = choose|j: int| 0 <= j < taken && #[trigger] plan@[j] == k;
                                    assert(planned(plan@, taken + 1, k));
                                } else {
                                    if planned(plan@, taken + 1, k) {
                                        let j = choose|j: int|
                                            0 <= j < taken + 1 && #[trigger] plan@[j] == k;
                                        assert(j < taken);
                                    }
                                }
                            }
                        }
                    }
                    taken = taken + 1;
                },
                Err(error) => {
                    proof {
                        if taken == 0 {
                            if error == DispatchError::LockUnavailable {
                                assert(start[plan@[0] as int].is_some());
                            }
                        } else {
                            assert(error == DispatchError::LockUnavailable);
                            assert(start[plan@[taken as int] as int].is_some());
                        }
                    }
                    while taken > 0
                        invariant
                            taken <= plan@.len(),
                            ascending_keys(plan@),
                            forall|j: int| 0 <= j < plan@.len() ==> plan@[j] < start.len(),
                            self@ == with_locks(start, worker as nat, plan@, taken as int),
                            forall|j: int|
                                0 <= j < taken ==> (#[trigger] start[plan@[j] as int]).is_none(),
                        decreases taken,
                    {
                        let last = plan[taken - 1];
                        let ghost held = self@;
                        proof {
                            assert(planned(plan@, taken as int, last as int));
                        }
                        let released = self.release(worker, last);
                        proof {
                            assert(released);
                            assert forall|k: int| 0 <= k < start.len() implies self@[k] == with_locks(
                                start,
                                worker as nat,
                                plan@,
                                taken - 1,
                            )[k] by {
                                if k == last {
                                    if planned(plan@, taken - 1, k) {
                                        let j = choose|j: int|
                                            0 <= j < taken - 1 && #[trigger] plan@[j] == k;
                                        assert(plan@[j] < plan@[taken - 1]);
                                    }
                                    assert(start[plan@[taken - 1] as int].is_none());
                                } else if planned(plan@, taken as int, k) {
                                    let j = choose|j: int| 0 <= j < taken && #[trigger] plan@[j] == k;
                                    assert(j < taken - 1);
                                    assert(planned(plan@, taken - 1, k));
                                } else {
                                    if planned(plan@, taken - 1, k) {
                                        let j = choose|j: int|
                                            0 <= j < taken - 1 && #[trigger] plan@[j] == k;
                                        assert(planned(plan@, taken as int, k));
                                    }
                                }
                            }
                            assert(self@ =~= with_locks(start, worker as nat, plan@, taken - 1));
                        }
                        taken = taken - 1;
                    }
                    proof {
                        assert(self@ =~= start);
                    }
                    return Err(error);
                },
            }
        }
        proof {
            if any_held(start, plan@) {
                let j = choose|j: int|
                    0 <= j < plan@.len() && (#[trigger] start[plan@[j] as int]).is_some();
                assert(start[plan@[j] as int].is_none());
            }
        }
        Ok(())
    }

    /// Gives back every lock of `plan` that `worker` holds, the last one
    /// first. Locks of the plan that the worker does not hold stay as they are.
    pub fn release_all(&mut self, worker: usize, plan: &Vec<usize>)
        requires
            forall|j: int| 0 <= j < plan@.len() ==> plan@[j] < old(self)@.len(),
        ensures
            final(self)@.len() == old(self)@.len(),
            forall|k: int|
                0 <= k < old(self)@.len() ==> final(self)@[k] == if planned(
                    plan@,
                    plan@.len() as int,
                    k,
                ) && old(self)@[k] == Some(worker as nat) {
                    None
                } else {
                    old(self)@[k]
                },
    {
        let mut left: usize = plan.len();
        while left > 0
            invariant
                left <= plan@.len(),
                self@.len() == old(self)@.len(),
                forall|j: int| 0 <= j < plan@.len() ==> plan@[j] < old(self)@.len(),
                forall|k: int|
                    0 <= k < old(self)@.len() ==> self@[k] == if (exists|j: int|
                        left <= j < plan@.len() && #[trigger] plan@[j] == k) && old(self)@[k] == Some(
                        worker as nat,
                    ) {
                        None
                    } else {
                        old(self)@[k]
                    },
            decreases left,
        {
            let key = plan[left - 1];
            let ghost before = self@;
            let released = self.release(worker, key);
            proof {
                assert forall|k: int| 0 <= k < old(self)@.len() implies self@[k] == if (exists|j: int|
                    left - 1 <= j < plan@.len() && #[trigger] plan@[j] == k) && old(self)@[k] == Some(
                    worker as nat,
                ) {
                    None
                } else {
                    old(self)@[k]
                } by {
                    if k == key {
                        assert(plan@[left - 1] == k);
                    } else {
                        if exists|j: int| left - 1 <= j < plan@.len() && #[trigger] plan@[j] == k {
                            let j = choose|j: int| left - 1 <= j < plan@.len() && #[trigger] plan@[j] == k;
                            assert(left <= j);
                        }
                    }
                }
            }
            left = left - 1;
        }
    }
}

/// Workers that take locks by plan: worker `w` needs the locks `plans[w]`,
/// and has taken the first `progress[w]` of them.
pub struct Locking {
    /// The holder of each lock, by key.
    pub holders: Seq<Option<nat>>,
    /// The keys that each worker needs, in the order in which it takes them.
    pub plans: Seq<Seq<nat>>,
    /// How many locks of its plan each worker holds.
    pub progress: Seq<nat>,
}

impl Locking {
    /// Every worker follows the agreed order, and the table says who holds
    /// what: each plan ascends, and a lock is held by a worker exactly if it
    /// is among those that the worker has taken so far.
    pub open spec fn consistent(self) -> bool {
        &&& self.plans.len() == self.progress.len()
        &&& forall|w: int| 0 <= w < self.plans.len() ==> #[trigger] self.progress[w] <= self.plans[w].len()
        &&& forall|w: int| 0 <= w < self.plans.len() ==> ascending(#[trigger] self.plans[w])
        &&& forall|w: int, i: int|
            0 <= w < self.plans.len() && 0 <= i < self.plans[w].len() ==> #[trigger] self.plans[w][i]
                < self.holders.len()
        &&& forall|k: int, w: nat|
            0 <= k < self.holders.len() && #[trigger] self.holds(w, k) ==> w < self.plans.len()
                && exists|i: int|
                0 <= i < self.progress[w as int] && #[trigger] self.plans[w as int][i] == k
        &&& forall|w: int, i: int|
            0 <= w < self.plans.len() && 0 <= i < self.progress[w] ==> self.holders[
                #[trigger] self.plans[w][i] as int
            ] == Some(w as nat)
    }

    /// Whether worker `w` holds the lock `key`.
    pub open spec fn holds(self, w: nat, key: int) -> bool {
        self.holders[key] == Some(w)
    }

    /// Whether worker `w` is stuck: it needs one more lock, and that lock is held.
    pub open spec fn blocked(self, w: int) -> bool {
        self.progress[w] < self.plans[w].len() && self.holders[self.plans[w][
            self.progress[w] as int
        ] as int].is_some()
    }

    /// Whether worker `w` can take its next step: the next lock of its plan
    /// is free, or it holds every lock of its plan, which is not empty.
    pub open spec fn enabled(self, w: int) -> bool {
        if self.progress[w] < self.plans[w].len() {
            self.holders[self.plans[w][self.progress[w] as int] as int].is_none()
        } else {
            self.plans[w].len() > 0
        }
    }

    /// The state in which no lock is held: there are `lock_count` locks, and
    /// the workers have the plans `plans`.
    pub open spec fn start(plans: Seq<Seq<nat>>, lock_count: nat) -> Locking {
        Locking {
            holders: Seq::new(lock_count, |k: int| None::<nat>),
            plans,
            progress: Seq::new(plans.len(), |w: int| 0nat),
        }
    }

    /// The state after worker `w`, which holds every lock of its plan, has
    /// done its work and released them all. It needs no lock from now on.
    pub open spec fn after_finish(self, w: int) -> Locking {
        Locking {
            holders: Seq::new(
                self.holders.len(),
                |k: int|
                    if self.holders[k] == Some(w as nat) {
                        None
                    } else {
                        self.holders[k]
                    },
            ),
            plans: self.plans.update(w, Seq::empty()),
            progress: self.progress.update(w, 0),
        }
    }

    /// The state after worker `w` has taken the next lock of its plan.
    pub open spec fn after_acquire(self, w: int) -> Locking {
        Locking {
            holders: self.holders.update(
                self.plans[w][self.progress[w] as int] as int,
                Some(w as nat),
            ),
            progress: self.progress.update(w, self.progress[w] + 1),
            ..self
        }
    }
}

/// The highest key of a held lock, or `-1` if no lock is held.
pub open spec fn highest_held(holders: Seq<Option<nat>>) -> int
    decreases holders.len(),
{
    if holders.len() == 0 {
        -1
    } else if holders.last().is_some() {
        holders.len() - 1
    } else {
        highest_held(holders.drop_last())
    }
}

/// What `highest_held` finds: a held lock, above which no lock is held.
proof fn lemma_highest_held(holders: Seq<Option<nat>>)
    ensures
        -1 <= highest_held(holders) < holders.len(),
        highest_held(holders) >= 0 ==> holders[highest_held(holders)].is_some(),
        forall|k: int| highest_held(holders) < k < holders.len() ==> holders[k].is_none(),
    decreases holders.len(),
{
    if holders.len() > 0 && holders.last().is_none() {
        lemma_highest_held(holders.drop_last());
        assert forall|k: int| highest_held(holders) < k < holders.len() implies holders[k].is_none() by {
            if k < holders.len() - 1 {
                assert(holders.drop_last()[k] == holders[k]);
            }
        }
    }
}

/// A worker that keeps to its plan never breaks the order: the next lock of
/// its plan comes after every lock that it holds.
pub proof fn lemma_plan_respects_order(s: Locking, w: int)
    requires
        s.consistent(),
        0 <= w < s.plans.len(),
        s.progress[w] < s.plans[w].len(),
    ensures
        respects_order(s.holders, w as nat, s.plans[w][s.progress[w] as int] as int),
{
    let next = s.plans[w][s.progress[w] as int];
    assert forall|k: int| next <= k < s.holders.len() implies s.holders[k] != Some(w as nat) by {
        if s.holders[k] == Some(w as nat) {
            assert(s.holds(w as nat, k));
            let i = choose|i: int| 0 <= i < s.progress[w] && #[trigger] s.plans[w][i] == k;
            assert(ascending(s.plans[w]));
            assert(s.plans[w][i] < s.plans[w][s.progress[w] as int]);
        }
    }
}

/// No deadlock: while some worker still has a plan, some worker can take
/// its next step. Either the next lock of its plan is free, or it holds
/// every lock of its plan and goes on to release them. So workers that take
/// their locks in the agreed order are never all stuck, whatever the
/// schedule.
pub proof fn lemma_no_deadlock(s: Locking)
    requires
        s.consistent(),
        exists|u: int| 0 <= u < s.plans.len() && s.plans[u].len() > 0,
    ensures
        exists|w: int| 0 <= w < s.plans.len() && s.enabled(w),
{
    lemma_highest_held(s.holders);
    let h = highest_held(s.holders);
    if h < 0 {
        let u = choose|u: int| 0 <= u < s.plans.len() && s.plans[u].len() > 0;
        if s.progress[u] > 0 {
            assert(s.holders[s.plans[u][0] as int] == Some(u as nat));
        }
        let next = s.plans[u][s.progress[u] as int];
        assert(next < s.holders.len());
        assert(s.enabled(u));
    } else {
        let x = s.holders[h].unwrap();
        assert(s.holds(x, h));
        let i = choose|i: int| 0 <= i < s.progress[x as int] && #[trigger] s.plans[x as int][i] == h;
        if s.progress[x as int] < s.plans[x as int].len() {
            let next = s.plans[x as int][s.progress[x as int] as int];
            assert(ascending(s.plans[x as int]));
            assert(s.plans[x as int][i] < next);
            assert(next < s.holders.len());
            assert(s.holders[next as int].is_none());
        }
        assert(s.enabled(x as int));
    }
}

/// Before any lock is taken the state is consistent, if each plan ascends
/// and names locks that exist.
pub proof fn lemma_start_is_consistent(plans: Seq<Seq<nat>>, lock_count: nat)
    requires
        forall|w: int| 0 <= w < plans.len() ==> ascending(#[trigger] plans[w]),
        forall|w: int, i: int|
            0 <= w < plans.len() && 0 <= i < plans[w].len() ==> #[trigger] plans[w][i] < lock_count,
    ensures
        Locking::start(plans, lock_count).consistent(),
{
    let s = Locking::start(plans, lock_count);
    assert forall|k: int, w: nat| 0 <= k < s.holders.len() && #[trigger] s.holds(w, k) implies w
        < s.plans.len() && exists|i: int|
        0 <= i < s.progress[w as int] && #[trigger] s.plans[w as int][i] == k by {
        assert(s.holders[k].is_none());
    }
}

/// Releasing every lock of a completed plan keeps the state consistent.
pub proof fn lemma_finish_keeps_consistency(s: Locking, w: int)
    requires
        s.consistent(),
        0 <= w < s.plans.len(),
        s.progress[w] == s.plans[w].len(),
    ensures
        s.after_finish(w).consistent(),
{
    let t = s.after_finish(w);
    assert forall|k: int, u: nat| 0 <= k < t.holders.len() && #[trigger] t.holds(u, k) implies u
        < t.plans.len() && exists|i: int|
        0 <= i < t.progress[u as int] && #[trigger] t.plans[u as int][i] == k by {
        assert(s.holds(u, k));
        assert(u != w);
        let i = choose|i: int| 0 <= i < s.progress[u as int] && #[trigger] s.plans[u as int][i] == k;
        assert(t.plans[u as int][i] == k);
    }
    assert forall|u: int, i: int| 0 <= u < t.plans.len() && 0 <= i < t.progress[u] implies t.holders[
        #[trigger] t.plans[u][i] as int
    ] == Some(u as nat) by {
        assert(u != w);
        assert(s.holders[s.plans[u][i] as int] == Some(u as nat));
    }
    assert forall|u: int| 0 <= u < t.plans.len() implies ascending(#[trigger] t.plans[u]) by {
        if u != w {
            assert(ascending(s.plans[u]));
        }
    }
}

/// Taking the next lock of a plan, when it is free, keeps the state consistent.
pub proof fn lemma_acquire_keeps_consistency(s: Locking, w: int)
    requires
        s.consistent(),
        0 <= w < s.plans.len(),
        s.progress[w] < s.plans[w].len(),
        !s.blocked(w),
    ensures
        s.after_acquire(w).consistent(),
{
    let t = s.after_acquire(w);
    let p = s.progress[w] as int;
    let key = s.plans[w][p] as int;
    assert(ascending(s.plans[w]));
    assert forall|k: int, u: nat|
        0 <= k < t.holders.len() && #[trigger] t.holds(u, k) implies u < t.plans.len()
        && exists|i: int| 0 <= i < t.progress[u as int] && #[trigger] t.plans[u as int][i] == k by {
        if k == key {
            assert(u == w);
            assert(t.plans[u as int][p] == k);
        } else {
            assert(s.holds(u, k));
            let i = choose|i: int| 0 <= i < s.progress[u as int] && #[trigger] s.plans[u as int][i] == k;
            assert(t.plans[u as int][i] == k);
        }
    }
    assert forall|u: int, i: int| 0 <= u < t.plans.len() && 0 <= i < t.progress[u] implies t.holders[
        #[trigger] t.plans[u][i] as int
    ] == Some(u as nat) by {
        if u == w && i == p {
        } else {
            assert(s.holders[s.plans[u][i] as int] == Some(u as nat));
            assert(s.plans[u][i] != key);
        }
    }
}

} // verus!
