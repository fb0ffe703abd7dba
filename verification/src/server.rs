//! The producer/consumer pipeline, as bookkeeping the runner drives.
//!
//! The producer supervisor starts one task per strategy; each task walks the
//! fixed page range in order. The supervisor counts finished tasks and may
//! close the hand-off queue only once every task has finished. The consumer
//! decides one step at a time what a received queue event leads to.

use vstd::prelude::*;

use crate::proxy::Proxy;

verus! {

/// The last page every strategy's task fetches; paging starts at one.
pub const PAGE_LIMIT: u16 = 5;

/// Slots of the bounded hand-off queue between producers and the consumer.
pub const CHANNEL_CAPACITY: usize = 1024;

/// Seconds a task pauses between two pages.
pub const PAGE_DELAY_SECS: u64 = 1;

/// Seconds the consumer waits before an idle tick.
pub const IDLE_TIMEOUT_SECS: u64 = 5;

/// Seconds a probe request may take in all.
pub const VISIT_TIMEOUT_SECS: u64 = 10;

/// The pages one strategy's task fetches, in the order it fetches them:
/// one through the page limit, one fetch call per page.
pub fn pages() -> (r: Vec<u16>)
    ensures
        r@ == seq![1u16, 2, 3, 4, 5],
        r@.len() == PAGE_LIMIT as int,
{
    let mut v: Vec<u16> = Vec::new();
    let mut p: u16 = 1;
    while p <= PAGE_LIMIT
        invariant
            1 <= p <= PAGE_LIMIT + 1,
            v@.len() == p - 1,
            forall|k: int| 0 <= k < v@.len() ==> v@[k] == k + 1,
        decreases PAGE_LIMIT + 1 - p,
    {
        v.push(p);
        p += 1;
    }
    proof {
        assert(v@ =~= seq![1u16, 2, 3, 4, 5]);
    }
    v
}

/// Counts the producer tasks and gates the closing of the hand-off queue:
/// the queue may be closed only once every task has finished.
pub struct Supervisor {
    total: usize,
    finished: usize,
    closed: bool,
}

impl Supervisor {
    /// How many tasks the supervisor started.
    pub closed spec fn task_count(self) -> int {
        self.total as int
    }

    /// How many tasks have finished.
    pub closed spec fn finished_count(self) -> int {
        self.finished as int
    }

    /// The hand-off queue has been closed.
    pub closed spec fn is_closed(self) -> bool {
        self.closed
    }

    /// What every reachable supervisor state satisfies.
    pub open spec fn inv(self) -> bool {
        &&& 0 <= self.finished_count() <= self.task_count()
        &&& (self.is_closed() ==> self.finished_count() == self.task_count())
    }

    /// Starts supervising `total` tasks: none finished, queue open.
    pub fn new(total: usize) -> (s: Supervisor)
        ensures
            s.inv(),
            s.task_count() == total,
            s.finished_count() == 0,
            !s.is_closed(),
    {
        Supervisor { total, finished: 0, closed: false }
    }

    /// Records that one more task has finished, successfully or not.
    pub fn record_task_done(&mut self)
        requires
            old(self).inv(),
            old(self).finished_count() < old(self).task_count(),
        ensures
            final(self).inv(),
            final(self).task_count() == old(self).task_count(),
            final(self).finished_count() == old(self).finished_count() + 1,
            final(self).is_closed() == old(self).is_closed(),
    {
        self.finished = self.finished + 1;
    }

    /// Have all tasks finished?
    pub fn all_finished(&self) -> (r: bool)
        ensures
            r == (self.finished_count() == self.task_count()),
    {
        self.finished == self.total
    }

    /// Closes the hand-off queue; owed only once every task has finished.
    pub fn close(&mut self)
        requires
            old(self).inv(),
            old(self).finished_count() == old(self).task_count(),
        ensures
            final(self).inv(),
            final(self).is_closed(),
            final(self).task_count() == old(self).task_count(),
            final(self).finished_count() == old(self).finished_count(),
    {
        self.closed = true;
    }
}

/// The queue is closed only once every strategy's task has finished.
pub proof fn lemma_closed_means_all_finished(s: Supervisor)
    requires
        s.inv(),
        s.is_closed(),
    ensures
        s.finished_count() == s.task_count(),
{
}

/// What one turn of the consumer loop observes.
#[derive(Debug, Clone, Copy, PartialEq, Eq, Structural)]
pub enum ConsumerEvent {
    /// A record arrived on the queue.
    Received(Proxy),
    /// The queue is closed and empty: nothing more will ever arrive.
    Closed,
    /// Nothing arrived within the idle timeout.
    Idle,
}

/// What the consumer does next.
#[derive(Debug, Clone, Copy, PartialEq, Eq, Structural)]
pub enum ConsumerAction {
    /// Probe this record against the target.
    Visit(Proxy),
    /// Keep waiting for the next event.
    Wait,
    /// Leave the loop.
    Exit,
}

/// One decision of the consumer loop: a received record is visited, closure
/// ends the loop, and an idle tick alone never does.
pub fn consumer_step(event: ConsumerEvent) -> (a: ConsumerAction)
    ensures
        event matches ConsumerEvent::Received(p) ==> a == ConsumerAction::Visit(p),
        event matches ConsumerEvent::Closed ==> a == ConsumerAction::Exit,
        event matches ConsumerEvent::Idle ==> a == ConsumerAction::Wait,
{
    match event {
        ConsumerEvent::Received(p) => ConsumerAction::Visit(p),
        ConsumerEvent::Closed => ConsumerAction::Exit,
        ConsumerEvent::Idle => ConsumerAction::Wait,
    }
}

} // verus!
