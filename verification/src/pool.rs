//! The worker pool's job accounting: a fixed pool size, a queue of
//! pending jobs, the jobs in flight, and the jobs completed. Every job
//! submitted is in exactly one of the three places, so draining the pool
//! completes each submitted job exactly once. That the workers do keep
//! draining the queue is a property of the threads that call these
//! operations, not of this accounting.
use vstd::multiset::Multiset;
use vstd::prelude::*;

verus! {

broadcast use vstd::seq_lib::group_to_multiset_ensures, vstd::multiset::group_multiset_axioms;

/// Mathematical content of the pool: its size and the four job records.
pub struct PoolView {
    pub size: nat,
    pub queue: Seq<u64>,
    pub running: Seq<u64>,
    pub completed: Seq<u64>,
    pub submitted: Seq<u64>,
}

/// The job accounting of a fixed-size worker pool. Jobs are named by
/// opaque identifiers; the work they stand for is run by the callers
/// that drain the queue.
pub struct WorkerPool {
    size: usize,
    queue: Vec<u64>,
    running: Vec<u64>,
    completed: Vec<u64>,
    submitted: Ghost<Seq<u64>>,
}

impl View for WorkerPool {
    type V = PoolView;

    closed spec fn view(&self) -> PoolView {
        PoolView {
            size: self.size as nat,
            queue: self.queue@,
            running: self.running@,
            completed: self.completed@,
            submitted: self.submitted@,
        }
    }
}

impl WorkerPool {
    /// Every submitted job is pending, in flight or completed — in
    /// exactly one of the three, counting multiplicity — and the pool
    /// has at least one worker.
    pub open spec fn wf(&self) -> bool {
        &&& self@.size >= 1
        &&& self@.submitted.to_multiset() == self@.queue.to_multiset().add(
            self@.running.to_multiset(),
        ).add(self@.completed.to_multiset())
    }

    /// A pool of `n` workers with no job yet.
    pub fn new(n: usize) -> (p: WorkerPool)
        requires
            n >= 1,
        ensures
            p.wf(),
            p@.size == n,
            p@.queue.len() == 0,
            p@.running.len() == 0,
            p@.completed.len() == 0,
            p@.submitted.len() == 0,
    {
        let p = WorkerPool {
            size: n,
            queue: Vec::new(),
            running: Vec::new(),
            completed: Vec::new(),
            submitted: Ghost(Seq::empty()),
        };
        proof {
            assert(p@.submitted.to_multiset() =~= p@.queue.to_multiset().add(
                p@.running.to_multiset(),
            ).add(p@.completed.to_multiset()));
        }
        p
    }

    /// Number of workers, fixed at construction.
    pub fn size(&self) -> (n: usize)
        ensures
            n == self@.size,
    {
        self.size
    }

    /// Number of jobs waiting in the queue.
    pub fn pending(&self) -> (n: usize)
        ensures
            n == self@.queue.len(),
    {
        self.queue.len()
    }

    /// Number of jobs completed so far.
    pub fn completed_count(&self) -> (n: usize)
        ensures
            n == self@.completed.len(),
    {
        self.completed.len()
    }

    /// Submit a job: it joins the end of the queue without blocking the
    /// caller.
    pub fn execute(&mut self, job: u64)
        requires
            old(self).wf(),
        ensures
            final(self).wf(),
            final(self)@.size == old(self)@.size,
            final(self)@.queue == old(self)@.queue.push(job),
            final(self)@.running == old(self)@.running,
            final(self)@.completed == old(self)@.completed,
            final(self)@.submitted == old(self)@.submitted.push(job),
    {
        self.queue.push(job);
        proof {
            self.submitted@ = self.submitted@.push(job);
            assert(self@.submitted.to_multiset() =~= self@.queue.to_multiset().add(
                self@.running.to_multiset(),
            ).add(self@.completed.to_multiset()));
        }
    }

    /// Hand the front job of the queue to a worker: it moves from the
    /// queue to the jobs in flight. Yields nothing when the queue is
    /// empty.
    pub fn take(&mut self) -> (r: Option<u64>)
        requires
            old(self).wf(),
        ensures
            final(self).wf(),
            final(self)@.size == old(self)@.size,
            final(self)@.submitted == old(self)@.submitted,
            final(self)@.completed == old(self)@.completed,
            match r {
                None => old(self)@.queue.len() == 0 && final(self)@ == old(self)@,
                Some(j) => {
                    &&& old(self)@.queue.len() > 0
                    &&& j == old(self)@.queue[0]
                    &&& final(self)@.queue == old(self)@.queue.drop_first()
                    &&& final(self)@.running == old(self)@.running.push(j)
                },
            },
    {
        if self.queue.len() == 0 {
            return None;
        }
        let job = self.queue.remove(0);
        self.running.push(job);
        proof {
            assert(old(self)@.queue.remove(0) =~= old(self)@.queue.drop_first());
            assert(self@.submitted.to_multiset() =~= self@.queue.to_multiset().add(
                self@.running.to_multiset(),
            ).add(self@.completed.to_multiset())) by {
                assert(old(self)@.queue.to_multiset().remove(old(self)@.queue[0]).insert(
                    old(self)@.queue[0],
                ) =~= old(self)@.queue.to_multiset());
            }
        }
        Some(job)
    }

    /// Record that a worker finished `job`: it moves from the jobs in
    /// flight to the completed ones. Reports whether `job` was in
    /// flight at all; a job never taken, or finished twice, changes
    /// nothing.
    #[verifier::loop_isolation(false)]
    pub fn complete(&mut self, job: u64) -> (r: bool)
        requires
            old(self).wf(),
        ensures
            final(self).wf(),
            final(self)@.size == old(self)@.size,
            final(self)@.submitted == old(self)@.submitted,
            final(self)@.queue == old(self)@.queue,
            r == old(self)@.running.contains(job),
            !r ==> final(self)@ == old(self)@,
            r ==> final(self)@.running.to_multiset() == old(self)@.running.to_multiset().remove(
                job,
            ) && final(self)@.completed == old(self)@.completed.push(job),
    {
        let mut i: usize = 0;
        while i < self.running.len()
            invariant
                0 <= i <= self.running.len(),
                forall|k: int| 0 <= k < i ==> self.running@[k] != job,
                *self == *old(self),
            decreases self.running.len() - i,
        {
            if self.running[i] == job {
                self.running.remove(i);
                self.completed.push(job);
                proof {
                    assert(old(self)@.running.contains(job)) by {
                        assert(old(self)@.running[i as int] == job);
                    }
                    old(self)@.running.to_multiset_ensures();
                    old(self)@.completed.to_multiset_ensures();
                    assert(self@.running == old(self)@.running.remove(i as int));
                    assert(self@.running.to_multiset() == old(self)@.running.to_multiset().remove(
                        job,
                    ));
                    assert(self@.completed.to_multiset() == old(
                        self,
                    )@.completed.to_multiset().insert(job));
                    assert(old(self)@.running.to_multiset().count(job) > 0);
                    assert(self@.submitted.to_multiset() =~= self@.queue.to_multiset().add(
                        self@.running.to_multiset(),
                    ).add(self@.completed.to_multiset()));
                }
                return true;
            }
            i = i + 1;
        }
        proof {
            assert(!old(self)@.running.contains(job));
        }
        false
    }
}

/// With nothing pending and nothing in flight, the completed jobs are
/// exactly the submitted ones, with multiplicity: as many completions as
/// submissions, no job completed more often than it was submitted, none
/// dropped.
pub proof fn lemma_pool_drained(p: &WorkerPool)
    requires
        p.wf(),
        p@.queue.len() == 0,
        p@.running.len() == 0,
    ensures
        p@.completed.to_multiset() == p@.submitted.to_multiset(),
        p@.completed.len() == p@.submitted.len(),
        forall|j: u64|
            p@.completed.to_multiset().count(j) == p@.submitted.to_multiset().count(j),
{
    assert(p@.queue =~= Seq::<u64>::empty());
    assert(p@.running =~= Seq::<u64>::empty());
    assert(Seq::<u64>::empty().to_multiset() =~= Multiset::<u64>::empty());
    assert(p@.completed.to_multiset() =~= p@.submitted.to_multiset());
    p@.completed.to_multiset_ensures();
    p@.submitted.to_multiset_ensures();
}

} // verus!
