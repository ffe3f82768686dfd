//! A FIFO queue of jobs with explicit close semantics.

use std::collections::VecDeque;
use vstd::prelude::*;
use crate::job::{DispatchError, Job};

verus! {

/// What a channel is, as a mathematical value.
pub struct ChannelView {
    /// The buffered jobs, oldest first.
    pub pending: Seq<Job>,
    /// Whether the channel has been closed.
    pub closed: bool,
    /// The bound on the number of buffered jobs, if there is one.
    pub capacity: Option<nat>,
    /// The number of live producer handles.
    pub senders: nat,
}

/// What one attempt to receive gives.
#[derive(Clone, Copy, Debug, PartialEq, Eq, Structural)]
pub enum Received {
    /// The job at the head of the queue, now owned by the receiver.
    Job(Job),
    /// Nothing is buffered and the channel is still open: the receiver has to wait.
    Empty,
    /// The channel is closed and its backlog is exhausted.
    Closed,
}

/// The queue that connects producers to workers.
pub struct Channel {
    queue: VecDeque<Job>,
    closed: bool,
    capacity: Option<usize>,
    senders: usize,
}

/// The channel after one receive.
pub open spec fn after_receive(c: ChannelView) -> ChannelView {
    if c.pending.len() > 0 {
        ChannelView { pending: c.pending.subrange(1, c.pending.len() as int), ..c }
    } else {
        c
    }
}

/// What one receive gives on a channel.
pub open spec fn receive_outcome(c: ChannelView) -> Received {
    if c.pending.len() > 0 {
        Received::Job(c.pending[0])
    } else if c.closed {
        Received::Closed
    } else {
        Received::Empty
    }
}

/// The channel after `n` receives in a row.
pub open spec fn after_receives(c: ChannelView, n: nat) -> ChannelView
    decreases n,
{
    if n == 0 {
        c
    } else {
        after_receives(after_receive(c), (n - 1) as nat)
    }
}

/// The channel after `job` was enqueued at the tail.
pub open spec fn after_send(c: ChannelView, job: Job) -> ChannelView {
    ChannelView { pending: c.pending.push(job), ..c }
}

/// Whether a channel has room for one more job.
pub open spec fn has_room(c: ChannelView) -> bool {
    match c.capacity {
        Some(bound) => c.pending.len() < bound,
        None => true,
    }
}

impl Channel {
    /// The channel as a mathematical value.
    pub closed spec fn view(&self) -> ChannelView {
        ChannelView {
            pending: self.queue@,
            closed: self.closed,
            capacity: match self.capacity {
                Some(bound) => Some(bound as nat),
                None => None,
            },
            senders: self.senders as nat,
        }
    }

    /// A channel without producer handles is closed, and a bounded channel
    /// never holds more jobs than its capacity.
    pub open spec fn wf(&self) -> bool {
        &&& self@.senders == 0 ==> self@.closed
        &&& self@.capacity matches Some(bound) ==> self@.pending.len() <= bound
    }

    /// Opens an empty channel with one producer handle. Without a capacity the
    /// queue is unbounded; with one, a send is refused as full once the queue
    /// holds that many jobs.
    pub fn open(capacity: Option<usize>) -> (c: Channel)
        ensures
            c.wf(),
            c@.pending == Seq::<Job>::empty(),
            !c@.closed,
            c@.senders == 1,
            c@.capacity == match capacity {
                Some(bound) => Some(bound as nat),
                None => None::<nat>,
            },
    {
        Channel { queue: VecDeque::new(), closed: false, capacity, senders: 1 }
    }

    /// Enqueues `job` at the tail. Fails with `ChannelClosed` once the channel
    /// is closed, and with `ChannelFull` while an open bounded channel holds as
    /// many jobs as its capacity: the producer waits and sends again.
    pub fn send(&mut self, job: Job) -> (r: Result<(), DispatchError>)
        requires
            old(self).wf(),
        ensures
            final(self).wf(),
            old(self)@.closed ==> r == Err::<(), DispatchError>(DispatchError::ChannelClosed),
            !old(self)@.closed && !has_room(old(self)@) ==> r == Err::<(), DispatchError>(
                DispatchError::ChannelFull,
            ),
            !old(self)@.closed && has_room(old(self)@) ==> r == Ok::<(), DispatchError>(()),
            r is Ok ==> final(self)@ == after_send(old(self)@, job),
            r is Err ==> final(self)@ == old(self)@,
    {
        if self.closed {
            return Err(DispatchError::ChannelClosed);
        }
        let full = match self.capacity {
            Some(bound) => self.queue.len() >= bound,
            None => false,
        };
        if full {
            return Err(DispatchError::ChannelFull);
        }
        self.queue.push_back(job);
        Ok(())
    }

    /// Takes the job at the head of the queue. On an empty queue it reports
    /// `Closed` if the channel is closed and `Empty` if it is still open.
    pub fn receive(&mut self) -> (r: Received)
        requires
            old(self).wf(),
        ensures
            final(self).wf(),
            r == receive_outcome(old(self)@),
            final(self)@ == after_receive(old(self)@),
    {
        match self.queue.pop_front() {
            Some(job) => Received::Job(job),
            None => {
                if self.closed {
                    Received::Closed
                } else {
                    Received::Empty
                }
            },
        }
    }

    /// Closes the channel. The buffered jobs stay where they are.
    pub fn close(&mut self)
        requires
            old(self).wf(),
        ensures
            final(self).wf(),
            final(self)@ == (ChannelView { closed: true, ..old(self)@ }),
    {
        self.closed = true;
    }

    /// Registers one more producer handle, cloned from a live one. Returns
    /// whether there was a live handle to clone and the count could grow.
    pub fn add_sender(&mut self) -> (added: bool)
        requires
            old(self).wf(),
        ensures
            final(self).wf(),
            added == (0 < old(self)@.senders < usize::MAX),
            added ==> final(self)@ == (ChannelView {
                senders: old(self)@.senders + 1,
                ..old(self)@
            }),
            !added ==> final(self)@ == old(self)@,
    {
        if self.senders > 0 && self.senders < usize::MAX {
            self.senders = self.senders + 1;
            true
        } else {
            false
        }
    }

    /// Drops one producer handle. Dropping the last one closes the channel.
    pub fn drop_sender(&mut self)
        requires
            old(self).wf(),
        ensures
            final(self).wf(),
            final(self)@ == (ChannelView {
                senders: if old(self)@.senders > 0 {
                    (old(self)@.senders - 1) as nat
                } else {
                    0
                },
                closed: old(self)@.closed || old(self)@.senders <= 1,
                ..old(self)@
            }),
    {
        if self.senders > 0 {
            self.senders = self.senders - 1;
        }
        if self.senders == 0 {
            self.closed = true;
        }
    }

    /// Takes up to `limit` jobs from the head of the queue, oldest first,
    /// and stops early where the queue runs empty.
    pub fn receive_up_to(&mut self, limit: usize) -> (jobs: Vec<Job>)
        requires
            old(self).wf(),
        ensures
            final(self).wf(),
            jobs@.len() == if limit <= old(self)@.pending.len() {
                limit as int
            } else {
                old(self)@.pending.len() as int
            },
            jobs@ == old(self)@.pending.take(jobs@.len() as int),
            final(self)@ == (ChannelView {
                pending: old(self)@.pending.skip(jobs@.len() as int),
                ..old(self)@
            }),
    {
        let mut jobs: Vec<Job> = Vec::new();
        proof {
            assert(old(self)@.pending.skip(0) =~= old(self)@.pending);
            assert(jobs@ =~= old(self)@.pending.take(0));
        }
        while jobs.len() < limit && self.queue.len() > 0
            invariant
                self.wf(),
                jobs@.len() <= limit,
                jobs@.len() <= old(self)@.pending.len(),
                jobs@ == old(self)@.pending.take(jobs@.len() as int),
                self@ == (ChannelView {
                    pending: old(self)@.pending.skip(jobs@.len() as int),
                    ..old(self)@
                }),
            decreases self@.pending.len(),
        {
            let ghost taken = jobs@.len() as int;
            match self.queue.pop_front() {
                Some(job) => {
                    jobs.push(job);
                    proof {
                        assert(jobs@ =~= old(self)@.pending.take(taken + 1));
                        assert(self.queue@ =~= old(self)@.pending.skip(taken + 1));
                    }
                },
                None => {},
            }
        }
        jobs
    }

    /// Takes every buffered job, oldest first: what a consumer gets that
    /// receives until the channel has nothing more to give.
    pub fn drain(&mut self) -> (jobs: Vec<Job>)
        requires
            old(self).wf(),
        ensures
            final(self).wf(),
            jobs@ == old(self)@.pending,
            final(self)@ == (ChannelView { pending: Seq::<Job>::empty(), ..old(self)@ }),
    {
        let backlog = self.queue.len();
        let jobs = self.receive_up_to(backlog);
        proof {
            assert(jobs@ =~= old(self)@.pending);
            assert(self@.pending =~= Seq::<Job>::empty());
        }
        jobs
    }

    /// Whether the channel has been closed.
    pub fn is_closed(&self) -> (b: bool)
        ensures
            b == self@.closed,
    {
        self.closed
    }

    /// The number of buffered jobs.
    pub fn len(&self) -> (n: usize)
        ensures
            n == self@.pending.len(),
    {
        self.queue.len()
    }

    /// Whether no job is buffered.
    pub fn is_empty(&self) -> (b: bool)
        ensures
            b == (self@.pending.len() == 0),
    {
        self.queue.len() == 0
    }

    /// The bound on the number of buffered jobs, if there is one.
    pub fn capacity(&self) -> (bound: Option<usize>)
        ensures
            bound.is_some() == self@.capacity.is_some(),
            bound matches Some(b) ==> self@.capacity == Some(b as nat),
    {
        self.capacity
    }

    /// The number of live producer handles.
    pub fn sender_count(&self) -> (n: usize)
        ensures
            n == self@.senders,
    {
        self.senders
    }
}

/// Closing discards nothing: a channel that holds `k` jobs hands out exactly
/// those jobs, oldest first, in its next `k` receives, closed or not, and a
/// closed one reports `Closed` only from the receive after them on.
pub proof fn lemma_backlog_is_delivered_before_closed(c: ChannelView, i: nat)
    ensures
        i < c.pending.len() ==> receive_outcome(after_receives(c, i)) == Received::Job(
            c.pending[i as int],
        ),
        i <= c.pending.len() ==> after_receives(c, i).pending == c.pending.subrange(
            i as int,
            c.pending.len() as int,
        ),
        after_receives(c, i).closed == c.closed,
        i >= c.pending.len() && c.closed ==> receive_outcome(after_receives(c, i))
            == Received::Closed,
    decreases i,
{
    if i == 0 {
        assert(c.pending.subrange(0, c.pending.len() as int) =~= c.pending);
    } else {
        let d = after_receive(c);
        lemma_backlog_is_delivered_before_closed(d, (i - 1) as nat);
        if c.pending.len() > 0 {
            if i <= c.pending.len() {
                assert(d.pending.subrange(i - 1, d.pending.len() as int) =~= c.pending.subrange(
                    i as int,
                    c.pending.len() as int,
                ));
            }
        }
    }
}

/// First in, first out: a job that is sent to a channel leaves it after
/// exactly the jobs that were buffered before it, so each producer's jobs
/// leave in the order in which that producer sent them.
pub proof fn lemma_sent_job_leaves_after_the_backlog(c: ChannelView, job: Job)
    ensures
        receive_outcome(after_receives(after_send(c, job), c.pending.len())) == Received::Job(job),
        forall|i: nat|
            i < c.pending.len() ==> receive_outcome(#[trigger] after_receives(after_send(c, job), i))
                == Received::Job(c.pending[i as int]),
{
    let d = after_send(c, job);
    lemma_backlog_is_delivered_before_closed(d, c.pending.len());
    assert forall|i: nat| i < c.pending.len() implies receive_outcome(
        #[trigger] after_receives(d, i),
    ) == Received::Job(c.pending[i as int]) by {
        lemma_backlog_is_delivered_before_closed(d, i);
    }
}

} // verus!
