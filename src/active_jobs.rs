//! A worker's active buffer: the jobs drained from its queue, waiting to
//! run in order while the queue takes new work.

use crate::ring_queue::{JobRingQueue, QUEUE_CAPACITY};
use vstd::prelude::*;

verus! {

pub struct ActiveJobs<J> {
    work: Vec<J>,
}

impl<J> View for ActiveJobs<J> {
    type V = Seq<J>;

    /// The jobs waiting to run, in order.
    closed spec fn view(&self) -> Seq<J> {
        self.work@
    }
}

impl<J> ActiveJobs<J> {
    pub fn new() -> (r: Self)
        ensures
            r@ == Seq::<J>::empty(),
    {
        ActiveJobs { work: Vec::with_capacity(QUEUE_CAPACITY) }
    }

    /// Number of jobs waiting to run.
    pub fn len(&self) -> (r: usize)
        ensures
            r as nat == self@.len(),
    {
        self.work.len()
    }

    /// Moves every queued job, in order, behind the jobs already here, and
    /// leaves the queue empty.
    pub fn collect_jobs(&mut self, queue: &mut JobRingQueue<J>)
        requires
            old(queue).wf(),
            old(self)@.len() + old(queue)@.len() <= QUEUE_CAPACITY,
        ensures
            final(queue).wf(),
            final(queue)@ == Seq::<J>::empty(),
            final(self)@ == old(self)@ + old(queue)@,
    {
        queue.drain_into(&mut self.work);
    }

    /// Hands out the waiting jobs in the order they are to run, leaving
    /// none behind.
    pub fn take_jobs(&mut self) -> (r: Vec<J>)
        ensures
            r@ == old(self)@,
            final(self)@ == Seq::<J>::empty(),
    {
        let mut jobs: Vec<J> = Vec::new();
        core::mem::swap(&mut self.work, &mut jobs);
        jobs
    }
}

} // verus!
