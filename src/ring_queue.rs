//! A worker's bounded queue of jobs: a ring of slots with a read and a
//! write position. Jobs leave it only all at once, by draining.

use vstd::prelude::*;

verus! {

/// Slots in a worker's queue and in its active buffer.
pub const QUEUE_CAPACITY: usize = 8192;

/// Position of the `k`-th queued job in a ring read from `read`.
pub open spec fn ring_slot(read: int, k: int) -> int {
    if read + k < QUEUE_CAPACITY {
        read + k
    } else {
        read + k - QUEUE_CAPACITY
    }
}

pub struct JobRingQueue<J> {
    buffer: Vec<Option<J>>,
    length: usize,
    read_index: usize,
    write_index: usize,
}

impl<J> View for JobRingQueue<J> {
    type V = Seq<J>;

    /// The queued jobs, oldest first.
    closed spec fn view(&self) -> Seq<J> {
        Seq::new(
            self.length as nat,
            |k: int| self.buffer@[ring_slot(self.read_index as int, k)]->Some_0,
        )
    }
}

impl<J> JobRingQueue<J> {
    /// The queue's invariant: the queued jobs fill the slots from the read
    /// position on, the write position follows them, and every other slot
    /// is empty, so no job lingers outside the queued range.
    pub closed spec fn wf(&self) -> bool {
        &&& self.buffer@.len() == QUEUE_CAPACITY
        &&& self.length <= QUEUE_CAPACITY
        &&& self.read_index < QUEUE_CAPACITY
        &&& self.write_index == ring_slot(self.read_index as int, self.length as int) || (
        self.length == QUEUE_CAPACITY && self.write_index == self.read_index)
        &&& self.write_index < QUEUE_CAPACITY
        &&& forall|k: int|
            0 <= k < self.length ==> (#[trigger] self.buffer@[ring_slot(
                self.read_index as int,
                k,
            )]) is Some
        &&& forall|k: int|
            self.length <= k < QUEUE_CAPACITY ==> (#[trigger] self.buffer@[ring_slot(
                self.read_index as int,
                k,
            )]) is None
    }

    /// An empty queue with every slot free.
    pub fn new() -> (r: Self)
        ensures
            r.wf(),
            r@ == Seq::<J>::empty(),
    {
        let mut buffer: Vec<Option<J>> = Vec::with_capacity(QUEUE_CAPACITY);
        let mut i: usize = 0;
        while i < QUEUE_CAPACITY
            invariant
                i <= QUEUE_CAPACITY,
                buffer@.len() == i,
                forall|k: int| 0 <= k < i ==> (#[trigger] buffer@[k]) is None,
            decreases QUEUE_CAPACITY - i,
        {
            buffer.push(None);
            i += 1;
        }
        let r = JobRingQueue { buffer, length: 0, read_index: 0, write_index: 0 };
        assert(r@ =~= Seq::<J>::empty());
        r
    }

    /// Number of queued jobs.
    pub fn len(&self) -> (r: usize)
        ensures
            r as nat == self@.len(),
    {
        self.length
    }

    pub fn is_full(&self) -> (r: bool)
        ensures
            r == (self@.len() == QUEUE_CAPACITY),
    {
        self.length == QUEUE_CAPACITY
    }

    /// Queues `job` behind the others.
    pub fn push(&mut self, job: J)
        requires
            old(self).wf(),
            old(self)@.len() < QUEUE_CAPACITY,
        ensures
            final(self).wf(),
            final(self)@ == old(self)@.push(job),
    {
        let ghost read = self.read_index as int;
        let ghost before = self@;
        let w = self.write_index;
        self.buffer.set(w, Some(job));
        self.write_index = if w + 1 == QUEUE_CAPACITY {
            0
        } else {
            w + 1
        };
        self.length = self.length + 1;
        assert forall|k: int| 0 <= k < self.length implies (#[trigger] self.buffer@[ring_slot(
            read,
            k,
        )]) is Some by {
            if k < self.length - 1 {
                assert(ring_slot(read, k) != w);
            }
        }
        assert forall|k: int| self.length <= k < QUEUE_CAPACITY implies (
        #[trigger] self.buffer@[ring_slot(read, k)]) is None by {
            assert(ring_slot(read, k) != w);
        }
        assert(self@ =~= before.push(job)) by {
            assert forall|k: int| 0 <= k < before.len() implies self@[k] == before[k] by {
                assert(ring_slot(read, k) != w);
            }
        }
    }

    /// Moves every queued job, oldest first, out of the queue and onto the
    /// end of `dest`. The queue is left empty with its positions at the
    /// start.
    pub fn drain_into(&mut self, dest: &mut Vec<J>)
        requires
            old(self).wf(),
        ensures
            final(self).wf(),
            final(self)@ == Seq::<J>::empty(),
            final(dest)@ == old(dest)@ + old(self)@,
    {
        let ghost jobs = self@;
        let ghost start = old(dest)@;
        let ghost read = self.read_index as int;
        let n = self.length;
        let mut k: usize = 0;
        while k < n
            invariant
                self.buffer@.len() == QUEUE_CAPACITY,
                self.read_index as int == read,
                read < QUEUE_CAPACITY,
                n <= QUEUE_CAPACITY,
                n == jobs.len(),
                k <= n,
                dest@ == start + jobs.subrange(0, k as int),
                forall|i: int|
                    k <= i < n ==> (#[trigger] self.buffer@[ring_slot(read, i)]) == Some(jobs[i]),
                forall|i: int|
                    0 <= i < k ==> (#[trigger] self.buffer@[ring_slot(read, i)]) is None,
                forall|i: int|
                    n <= i < QUEUE_CAPACITY ==> (#[trigger] self.buffer@[ring_slot(read, i)]) is None,
            decreases n - k,
        {
            let slot = if self.read_index + k < QUEUE_CAPACITY {
                self.read_index + k
            } else {
                self.read_index + k - QUEUE_CAPACITY
            };
            assert(slot == ring_slot(read, k as int));
            assert(self.buffer@[slot as int] == Some(jobs[k as int]));
            let mut taken: Option<J> = None;
            let ghost buf_before = self.buffer@;
            core::mem::swap(&mut self.buffer[slot], &mut taken);
            assert(self.buffer@ == buf_before.update(slot as int, None::<J>));
            assert forall|i: int| k + 1 <= i < n implies (#[trigger] self.buffer@[ring_slot(
                read,
                i,
            )]) == Some(jobs[i]) by {
                assert(ring_slot(read, i) != slot);
            }
            assert forall|i: int| n <= i < QUEUE_CAPACITY implies (#[trigger] self.buffer@[ring_slot(
                read,
                i,
            )]) is None by {
                assert(ring_slot(read, i) != slot);
            }
            match taken {
                Some(job) => {
                    dest.push(job);
                },
                None => {},
            }
            assert(dest@ =~= start + jobs.subrange(0, k + 1));
            k += 1;
        }
        assert forall|i: int| 0 <= i < QUEUE_CAPACITY implies (#[trigger] self.buffer@[i]) is None by {
            let j = if i >= read {
                i - read
            } else {
                i + QUEUE_CAPACITY - read
            };
            assert(ring_slot(read, j) == i);
        }
        self.length = 0;
        self.read_index = 0;
        self.write_index = 0;
        assert(jobs.subrange(0, n as int) =~= jobs);
        assert(self@ =~= Seq::<J>::empty());
    }
}

} // verus!
