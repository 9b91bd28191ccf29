//! Decisions of the job system: which worker takes a new job, the
//! dispatcher state that outlives single submissions, and what a worker
//! does next.

use vstd::prelude::*;

verus! {

/// Worker `a` is a better candidate than worker `b`: idle beats executing,
/// then fewer queued jobs beats more.
pub open spec fn better_worker(executing: Seq<bool>, queued: Seq<usize>, a: int, b: int) -> bool {
    (!executing[a] && executing[b]) || (executing[a] == executing[b] && queued[a] < queued[b])
}

/// The worker seen `t` steps after `start` in a cyclic sweep of `n` workers.
pub open spec fn sweep_at(start: int, t: int, n: int) -> int {
    (start + t) % n
}

/// `idx`, reached `o` steps into the sweep from `start`, is what the
/// selection picks: no worker is a better candidate, and every worker seen
/// before it is a worse one (ties go to the first seen).
pub open spec fn is_selected(
    executing: Seq<bool>,
    queued: Seq<usize>,
    start: int,
    o: int,
    idx: int,
) -> bool {
    let n = executing.len() as int;
    &&& 0 <= o < n
    &&& idx == sweep_at(start, o, n)
    &&& forall|t: int|
        0 <= t < n ==> !better_worker(executing, queued, #[trigger] sweep_at(start, t, n), idx)
    &&& forall|t: int|
        0 <= t < o ==> better_worker(executing, queued, idx, #[trigger] sweep_at(start, t, n))
}

/// The index after `i` among `n`, wrapping to zero.
fn next_index(i: usize, n: usize) -> (r: usize)
    requires
        i < n,
    ensures
        r == (i + 1) % n as int,
{
    if i + 1 == n {
        assert((n as int) % (n as int) == 0) by {
            vstd::arithmetic::div_mod::lemma_mod_self_0(n as int);
        }
        0
    } else {
        assert((i + 1) % (n as int) == i + 1) by {
            vstd::arithmetic::div_mod::lemma_small_mod((i + 1) as nat, n as nat);
        }
        i + 1
    }
}

/// Picks the worker for a new job from a snapshot of the workers' states,
/// sweeping cyclically from the round-robin hint. An idle worker with an
/// empty queue is taken at once. Returns the worker and the next hint,
/// the worker after it.
pub fn select_worker(executing: &Vec<bool>, queued: &Vec<usize>, hint: usize) -> (r: (
    usize,
    usize,
))
    requires
        executing@.len() == queued@.len(),
        executing@.len() > 0,
    ensures
        exists|o: int|
            #[trigger] is_selected(
                executing@,
                queued@,
                (hint as int) % (executing@.len() as int),
                o,
                r.0 as int,
            ),
        r.0 < executing@.len(),
        r.1 == (r.0 + 1) % executing@.len() as int,
{
    let n = executing.len();
    let start = hint % n;
    let ghost s0: int = (hint as int) % (executing@.len() as int);
    assert(start as int == s0);
    let mut best = start;
    let ghost mut best_o: int = 0;
    let mut t: usize = 1;
    assert(sweep_at(s0, 0, n as int) == start) by {
        vstd::arithmetic::div_mod::lemma_small_mod(start as nat, n as nat);
    }
    if !executing[start] && queued[start] == 0 {
        let r = (start, next_index(start, n));
        assert(is_selected(executing@, queued@, s0, 0, r.0 as int));
        return r;
    }
    while t < n
        invariant
            n == executing@.len(),
            n == queued@.len(),
            start < n,
            s0 == start as int,
            s0 == (hint as int) % (executing@.len() as int),
            1 <= t <= n,
            0 <= best_o < t,
            best < n,
            best == sweep_at(s0, best_o, n as int),
            forall|u: int|
                0 <= u < t ==> !better_worker(
                    executing@,
                    queued@,
                    #[trigger] sweep_at(s0, u, n as int),
                    best as int,
                ),
            forall|u: int|
                0 <= u < best_o ==> better_worker(
                    executing@,
                    queued@,
                    best as int,
                    #[trigger] sweep_at(s0, u, n as int),
                ),
            executing@[best as int] || queued@[best as int] > 0,
        decreases n - t,
    {
        let j = if t < n - start {
            start + t
        } else {
            t - (n - start)
        };
        assert(j == sweep_at(s0, t as int, n as int)) by {
            if t < n - start {
                vstd::arithmetic::div_mod::lemma_small_mod(j as nat, n as nat);
            } else {
                vstd::arithmetic::div_mod::lemma_mod_sub_multiples_vanish(
                    (start + t) as int,
                    n as int,
                );
                vstd::arithmetic::div_mod::lemma_small_mod(j as nat, n as nat);
            }
        }
        let j_better = (!executing[j] && executing[best]) || (executing[j] == executing[best]
            && queued[j] < queued[best]);
        if j_better {
            let ghost prev = best;
            assert forall|u: int| 0 <= u < t implies better_worker(
                executing@,
                queued@,
                j as int,
                #[trigger] sweep_at(s0, u, n as int),
            ) by {
                assert(!better_worker(
                    executing@,
                    queued@,
                    sweep_at(s0, u, n as int),
                    prev as int,
                ));
            }
            best = j;
            proof {
                best_o = t as int;
            }
            if !executing[j] && queued[j] == 0 {
                assert forall|u: int| 0 <= u < n implies !better_worker(
                    executing@,
                    queued@,
                    #[trigger] sweep_at(s0, u, n as int),
                    j as int,
                ) by {
                    let a = sweep_at(s0, u, n as int);
                    vstd::arithmetic::div_mod::lemma_mod_bound(start + u, n as int);
                    assert(0 <= a < n);
                }
                let r = (j, next_index(j, n));
                assert(is_selected(executing@, queued@, s0, best_o, r.0 as int));
                return r;
            }
        }
        t += 1;
    }
    let r = (best, next_index(best, n));
    assert(is_selected(executing@, queued@, s0, best_o, r.0 as int));
    r
}

/// The dispatcher state of a job system: whether it has workers yet, how
/// many, and the round-robin hint where the next selection starts.
pub struct Dispatcher {
    initialized: bool,
    worker_count: usize,
    next_candidate: usize,
}

impl Dispatcher {
    pub closed spec fn spec_initialized(&self) -> bool {
        self.initialized
    }

    pub closed spec fn spec_worker_count(&self) -> nat {
        self.worker_count as nat
    }

    pub closed spec fn spec_next_candidate(&self) -> nat {
        self.next_candidate as nat
    }

    /// Workers exist once initialized, and the hint names one of them.
    pub closed spec fn wf(&self) -> bool {
        self.initialized ==> self.worker_count >= 1 && self.next_candidate < self.worker_count
    }

    /// A dispatcher whose workers are not made yet.
    pub fn new_deferred() -> (r: Dispatcher)
        ensures
            r.wf(),
            !r.spec_initialized(),
    {
        Dispatcher { initialized: false, worker_count: 0, next_candidate: 0 }
    }

    /// A dispatcher for `worker_count` workers, the hint on the first.
    pub fn new_with_workers(worker_count: usize) -> (r: Dispatcher)
        requires
            worker_count >= 1,
        ensures
            r.wf(),
            r.spec_initialized(),
            r.spec_worker_count() == worker_count,
            r.spec_next_candidate() == 0,
    {
        Dispatcher { initialized: true, worker_count, next_candidate: 0 }
    }

    /// Gives a deferred dispatcher its `worker_count` workers.
    pub fn initialize(&mut self, worker_count: usize)
        requires
            !old(self).spec_initialized(),
            worker_count >= 1,
        ensures
            final(self).wf(),
            final(self).spec_initialized(),
            final(self).spec_worker_count() == worker_count,
            final(self).spec_next_candidate() == 0,
    {
        self.initialized = true;
        self.worker_count = worker_count;
        self.next_candidate = 0;
    }

    /// Replaces the workers by `worker_count` fresh ones and resets the hint.
    pub fn reconfigure(&mut self, worker_count: usize)
        requires
            old(self).spec_initialized(),
            worker_count >= 1,
        ensures
            final(self).wf(),
            final(self).spec_initialized(),
            final(self).spec_worker_count() == worker_count,
            final(self).spec_next_candidate() == 0,
    {
        self.worker_count = worker_count;
        self.next_candidate = 0;
    }

    pub fn is_initialized(&self) -> (r: bool)
        ensures
            r == self.spec_initialized(),
    {
        self.initialized
    }

    pub fn worker_count(&self) -> (r: usize)
        requires
            self.spec_initialized(),
        ensures
            r as nat == self.spec_worker_count(),
    {
        self.worker_count
    }

    /// Chooses the worker for a new job from a snapshot of whether each
    /// worker is executing and how many jobs it has queued, and moves the
    /// hint to the worker after it.
    pub fn choose_worker(&mut self, executing: &Vec<bool>, queued: &Vec<usize>) -> (r: usize)
        requires
            old(self).wf(),
            old(self).spec_initialized(),
            executing@.len() == old(self).spec_worker_count(),
            queued@.len() == old(self).spec_worker_count(),
        ensures
            final(self).wf(),
            final(self).spec_initialized(),
            final(self).spec_worker_count() == old(self).spec_worker_count(),
            exists|o: int|
                #[trigger] is_selected(
                    executing@,
                    queued@,
                    old(self).spec_next_candidate() as int,
                    o,
                    r as int,
                ),
            final(self).spec_next_candidate() == (r + 1) % old(self).spec_worker_count() as int,
    {
        let (selected, next) = select_worker(executing, queued, self.next_candidate);
        proof {
            vstd::arithmetic::div_mod::lemma_small_mod(
                self.next_candidate as nat,
                self.worker_count as nat,
            );
            vstd::arithmetic::div_mod::lemma_mod_bound((selected + 1) as int, self.worker_count as int);
            let h = self.next_candidate as int;
            let o = choose|o: int|
                #[trigger] is_selected(
                    executing@,
                    queued@,
                    h % (executing@.len() as int),
                    o,
                    selected as int,
                );
            assert(is_selected(
                executing@,
                queued@,
                self.spec_next_candidate() as int,
                o,
                selected as int,
            ));
        }
        self.next_candidate = next;
        selected
    }
}

/// What a worker does next in its loop.
#[derive(Debug, Clone, Copy, PartialEq, Eq, Structural)]
pub enum WorkerStep {
    /// Leave the loop: the worker is being torn down.
    Exit,
    /// Move the queued jobs to the active buffer and run them.
    Drain,
    /// Clear the executing flag and sleep until execution is requested,
    /// then drain.
    Sleep,
}

/// The worker loop's decision: stop once killed, drain while jobs are
/// queued, else sleep.
pub fn worker_step(pending_kill: bool, queue_length: usize) -> (r: WorkerStep)
    ensures
        r == (if pending_kill {
            WorkerStep::Exit
        } else if queue_length > 0 {
            WorkerStep::Drain
        } else {
            WorkerStep::Sleep
        }),
{
    if pending_kill {
        WorkerStep::Exit
    } else if queue_length > 0 {
        WorkerStep::Drain
    } else {
        WorkerStep::Sleep
    }
}

/// Whether a request to execute has to wake the worker: only when it is
/// not executing already.
pub fn needs_wake(is_executing: bool) -> (r: bool)
    ensures
        r == !is_executing,
{
    !is_executing
}

} // verus!
