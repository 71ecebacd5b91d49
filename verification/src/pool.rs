//! A verified model of the worker pool's bookkeeping. Jobs are identified
//! by the order of their submission; the pool tracks which are queued,
//! which a worker is running, and which have completed. The invariant
//! pins the concurrency bound — never more jobs running than workers —
//! and that every submitted job is in exactly one of the three states,
//! so none is lost and none runs twice. The threads that drive this
//! bookkeeping live outside, as does the I/O the jobs perform.
use vstd::prelude::*;

verus! {

/// How many times `x` occurs in `s`.
pub open spec fn count(s: Seq<u64>, x: u64) -> nat
    decreases s.len(),
{
    if s.len() == 0 {
        0
    } else {
        count(s.drop_last(), x) + (if s.last() == x {
            1nat
        } else {
            0nat
        })
    }
}

proof fn lemma_count_concat(a: Seq<u64>, b: Seq<u64>, x: u64)
    ensures
        count(a + b, x) == count(a, x) + count(b, x),
    decreases b.len(),
{
    if b.len() == 0 {
        assert(a + b =~= a);
    } else {
        assert((a + b).drop_last() =~= a + b.drop_last());
        assert((a + b).last() == b.last());
        lemma_count_concat(a, b.drop_last(), x);
    }
}

proof fn lemma_count_singleton(y: u64, x: u64)
    ensures
        count(seq![y], x) == (if x == y {
            1nat
        } else {
            0nat
        }),
{
    assert(count(Seq::<u64>::empty(), x) == 0);
    assert(seq![y].drop_last() =~= Seq::<u64>::empty());
    assert(seq![y].len() == 1);
    assert(seq![y].last() == y);
}

proof fn lemma_count_contains(s: Seq<u64>, x: u64)
    ensures
        s.contains(x) <==> count(s, x) > 0,
    decreases s.len(),
{
    if s.len() > 0 {
        lemma_count_contains(s.drop_last(), x);
        if s.last() == x {
            assert(s.contains(x));
        } else {
            if s.contains(x) {
                let i = choose|i: int| 0 <= i < s.len() && s[i] == x;
                assert(s.drop_last()[i] == x);
                assert(s.drop_last().contains(x));
            }
            if s.drop_last().contains(x) {
                let i = choose|i: int| 0 <= i < s.len() - 1 && s.drop_last()[i] == x;
                assert(s[i] == x);
            }
        }
    }
}

/// The pool's bookkeeping: a fixed worker count, whether submissions are
/// still accepted, and each submitted job's state. Job identifiers are
/// assigned in submission order.
pub struct WorkerPool {
    pub size: usize,
    pub accepting: bool,
    pub queued: Vec<u64>,
    pub running: Vec<u64>,
    pub completed: Vec<u64>,
    pub next_job: u64,
}

impl WorkerPool {
    /// The pool invariant: at least one worker; never more running jobs
    /// than workers; the queue holds jobs in submission order; and every
    /// identifier below `next_job` — and no other — is queued, running or
    /// completed exactly once.
    pub open spec fn wf(self) -> bool {
        &&& self.size >= 1
        &&& self.running@.len() <= self.size
        &&& forall|i: int, j: int|
            0 <= i < j < self.queued@.len() ==> #[trigger] self.queued@[i]
                < #[trigger] self.queued@[j]
        &&& forall|x: u64|
            x < self.next_job ==> #[trigger] count(self.queued@, x) + count(self.running@, x)
                + count(self.completed@, x) == 1
        &&& forall|x: u64|
            x >= self.next_job ==> #[trigger] count(self.queued@, x) + count(self.running@, x)
                + count(self.completed@, x) == 0
    }

    /// A new pool of `size` workers, idle and accepting submissions.
    pub fn new(size: usize) -> (r: WorkerPool)
        requires
            size >= 1,
        ensures
            r.wf(),
            r.size == size,
            r.accepting,
            r.queued@.len() == 0,
            r.running@.len() == 0,
            r.completed@.len() == 0,
            r.next_job == 0,
    {
        WorkerPool {
            size,
            accepting: true,
            queued: Vec::new(),
            running: Vec::new(),
            completed: Vec::new(),
            next_job: 0,
        }
    }

    /// Submit one job: it is appended to the queue — FIFO for a single
    /// submitter — and its fresh identifier is returned. Valid only while
    /// the pool accepts submissions.
    pub fn execute(&mut self) -> (job: u64)
        requires
            old(self).wf(),
            old(self).accepting,
            old(self).next_job < u64::MAX,
        ensures
            final(self).wf(),
            job == old(self).next_job,
            final(self).queued@ == old(self).queued@.push(job),
            final(self).running == old(self).running,
            final(self).completed == old(self).completed,
            final(self).next_job == old(self).next_job + 1,
            final(self).size == old(self).size,
            final(self).accepting,
    {
        let job = self.next_job;
        self.queued.push(job);
        self.next_job = self.next_job + 1;
        proof {
            let q = self.queued@;
            let oldq = old(self).queued@;
            assert(q.drop_last() =~= oldq);
            assert(forall|x: u64| #[trigger]
                count(q, x) == count(oldq, x) + (if x == job {
                    1nat
                } else {
                    0nat
                }));
            assert forall|i: int, j: int| 0 <= i < j < q.len() implies #[trigger] q[i]
                < #[trigger] q[j] by {
                if j == q.len() - 1 {
                    lemma_count_contains(oldq, oldq[i]);
                    assert(count(oldq, oldq[i]) > 0);
                    assert(oldq[i] < job);
                }
            }
        }
        job
    }

    /// Let an idle worker claim the oldest queued job, when there is one
    /// and a worker is free; the claimed job moves to the running state.
    pub fn claim(&mut self) -> (r: Option<u64>)
        requires
            old(self).wf(),
        ensures
            final(self).wf(),
            r is Some <==> old(self).queued@.len() > 0 && old(self).running@.len() < old(
                self,
            ).size,
            r matches Some(job) ==> {
                &&& job == old(self).queued@[0]
                &&& final(self).queued@ == old(self).queued@.drop_first()
                &&& final(self).running@ == old(self).running@.push(job)
                &&& final(self).completed == old(self).completed
            },
            r is None ==> *final(self) == *old(self),
            final(self).size == old(self).size,
            final(self).accepting == old(self).accepting,
            final(self).next_job == old(self).next_job,
            final(self).running@.len() <= final(self).size,
    {
        if self.queued.len() == 0 || self.running.len() >= self.size {
            return None;
        }
        let job = self.queued.remove(0);
        self.running.push(job);
        proof {
            let oldq = old(self).queued@;
            let oldr = old(self).running@;
            assert(self.queued@ =~= oldq.drop_first());
            assert(oldq =~= seq![oldq[0]] + oldq.drop_first());
            assert forall|x: u64| true implies #[trigger] count(oldq.drop_first(), x) + (if x
                == job {
                1nat
            } else {
                0nat
            }) == count(oldq, x) by {
                lemma_count_concat(seq![oldq[0]], oldq.drop_first(), x);
                lemma_count_singleton(oldq[0], x);
            }
            assert(self.running@.drop_last() =~= oldr);
            assert(forall|x: u64| #[trigger]
                count(self.running@, x) == count(oldr, x) + (if x == job {
                    1nat
                } else {
                    0nat
                }));
        }
        Some(job)
    }

    /// Record that a worker finished the given running job: it moves from
    /// the running state to the completed list.
    pub fn complete(&mut self, job: u64) -> (done: bool)
        requires
            old(self).wf(),
        ensures
            final(self).wf(),
            done <==> old(self).running@.contains(job),
            done ==> {
                &&& final(self).completed@ == old(self).completed@.push(job)
                &&& final(self).running@.len() == old(self).running@.len() - 1
                &&& count(final(self).running@, job) == count(old(self).running@, job) - 1
                &&& forall|x: u64|
                    x != job ==> #[trigger] count(final(self).running@, x) == count(
                        old(self).running@,
                        x,
                    )
                &&& final(self).queued == old(self).queued
            },
            !done ==> *final(self) == *old(self),
            final(self).size == old(self).size,
            final(self).accepting == old(self).accepting,
            final(self).next_job == old(self).next_job,
    {
        let mut k: usize = 0;
        while k < self.running.len()
            invariant
                *self == *old(self),
                old(self).wf(),
                k <= self.running@.len(),
                forall|i: int| 0 <= i < k ==> self.running@[i] != job,
            decreases self.running@.len() - k,
        {
            if self.running[k] == job {
                let ghost oldr = self.running@;
                let ghost oldc = self.completed@;
                self.running.remove(k);
                self.completed.push(job);
                proof {
                    assert(oldr[k as int] == job);
                    assert(oldr.contains(job));
                    let left = oldr.take(k as int);
                    let right = oldr.skip(k + 1);
                    assert(oldr =~= left + (seq![job] + right));
                    assert(self.running@ =~= left + right);
                    assert forall|x: u64| true implies #[trigger] count(oldr, x) == count(
                        self.running@,
                        x,
                    ) + (if x == job {
                        1nat
                    } else {
                        0nat
                    }) by {
                        lemma_count_concat(left, seq![job] + right, x);
                        lemma_count_concat(seq![job], right, x);
                        lemma_count_singleton(job, x);
                        lemma_count_concat(left, right, x);
                    }
                    assert(self.completed@.drop_last() =~= oldc);
                    assert(forall|x: u64| #[trigger]
                        count(self.completed@, x) == count(oldc, x) + (if x == job {
                            1nat
                        } else {
                            0nat
                        }));
                }
                return true;
            }
            k += 1;
        }
        proof {
            if self.running@.contains(job) {
                let i = choose|i: int| 0 <= i < self.running@.len() && self.running@[i] == job;
                assert(false);
            }
        }
        false
    }

    /// Stop accepting submissions; nothing already queued or running is
    /// affected.
    pub fn shutdown(&mut self)
        requires
            old(self).wf(),
        ensures
            final(self).wf(),
            !final(self).accepting,
            final(self).queued == old(self).queued,
            final(self).running == old(self).running,
            final(self).completed == old(self).completed,
            final(self).next_job == old(self).next_job,
            final(self).size == old(self).size,
    {
        self.accepting = false;
    }

    /// How many times `job` appears in the completed list.
    pub fn completed_count(&self, job: u64) -> (n: usize)
        ensures
            n == count(self.completed@, job),
    {
        let mut n: usize = 0;
        let mut i: usize = 0;
        proof {
            assert(self.completed@.take(0) =~= Seq::<u64>::empty());
        }
        while i < self.completed.len()
            invariant
                i <= self.completed@.len(),
                n <= i,
                n == count(self.completed@.take(i as int), job),
            decreases self.completed@.len() - i,
        {
            proof {
                assert(self.completed@.take(i + 1).drop_last() =~= self.completed@.take(i as int));
            }
            if self.completed[i] == job {
                n += 1;
            }
            i += 1;
        }
        proof {
            assert(self.completed@.take(self.completed@.len() as int) =~= self.completed@);
        }
        n
    }
}

/// The counts of the identifiers below `n`, added up.
spec fn sum_counts(s: Seq<u64>, n: nat) -> nat
    decreases n,
{
    if n == 0 {
        0
    } else {
        sum_counts(s, (n - 1) as nat) + count(s, (n - 1) as u64)
    }
}

proof fn lemma_sum_counts_empty(n: nat)
    ensures
        sum_counts(Seq::<u64>::empty(), n) == 0,
    decreases n,
{
    if n > 0 {
        lemma_sum_counts_empty((n - 1) as nat);
    }
}

proof fn lemma_sum_counts_push(s: Seq<u64>, y: u64, n: nat)
    requires
        n <= u64::MAX as nat + 1,
    ensures
        sum_counts(s.push(y), n) == sum_counts(s, n) + (if (y as nat) < n {
            1nat
        } else {
            0nat
        }),
    decreases n,
{
    if n > 0 {
        lemma_sum_counts_push(s, y, (n - 1) as nat);
        assert(s.push(y).drop_last() =~= s);
        assert(count(s.push(y), (n - 1) as u64) == count(s, (n - 1) as u64) + (if y == (n
            - 1) as u64 {
            1nat
        } else {
            0nat
        }));
    }
}

proof fn lemma_len_from_counts(s: Seq<u64>, n: nat)
    requires
        n <= u64::MAX as nat + 1,
        forall|x: u64| (x as nat) >= n ==> #[trigger] count(s, x) == 0,
    ensures
        s.len() == sum_counts(s, n),
    decreases s.len(),
{
    if s.len() == 0 {
        assert(s =~= Seq::<u64>::empty());
        lemma_sum_counts_empty(n);
    } else {
        let y = s.last();
        let t = s.drop_last();
        assert(s =~= t.push(y));
        assert forall|x: u64| (x as nat) >= n implies #[trigger] count(t, x) == 0 by {
            assert(count(s, x) == count(t, x) + (if y == x {
                1nat
            } else {
                0nat
            }));
        }
        assert(count(s, y) > 0);
        assert((y as nat) < n);
        lemma_len_from_counts(t, n);
        lemma_sum_counts_push(t, y, n);
    }
}

proof fn lemma_sum_counts_all_one(s: Seq<u64>, n: nat)
    requires
        n <= u64::MAX as nat + 1,
        forall|x: u64| (x as nat) < n ==> #[trigger] count(s, x) == 1,
    ensures
        sum_counts(s, n) == n,
    decreases n,
{
    if n > 0 {
        lemma_sum_counts_all_one(s, (n - 1) as nat);
        assert(count(s, (n - 1) as u64) == 1);
    }
}

/// Law: once the queue is empty and no worker is running — all submitted
/// work has drained — every job that was ever submitted has completed
/// exactly once, and no unsubmitted identifier appears at all. Together
/// with the invariant bound `running.len() <= size`, this is the pool's
/// guarantee: K submitted jobs complete exactly once each, with at most
/// `size` of them running at any instant.
pub proof fn lemma_pool_drained(p: WorkerPool)
    requires
        p.wf(),
        p.queued@.len() == 0,
        p.running@.len() == 0,
    ensures
        forall|x: u64| x < p.next_job ==> #[trigger] count(p.completed@, x) == 1,
        forall|x: u64| x >= p.next_job ==> #[trigger] count(p.completed@, x) == 0,
        p.completed@.len() == p.next_job,
{
    assert forall|x: u64| x < p.next_job implies #[trigger] count(p.completed@, x) == 1 by {
        assert(count(p.queued@, x) == 0);
        assert(count(p.running@, x) == 0);
        assert(count(p.queued@, x) + count(p.running@, x) + count(p.completed@, x) == 1);
    }
    assert forall|x: u64| x >= p.next_job implies #[trigger] count(p.completed@, x) == 0 by {
        assert(count(p.queued@, x) == 0);
        assert(count(p.running@, x) == 0);
        assert(count(p.queued@, x) + count(p.running@, x) + count(p.completed@, x) == 0);
    }
    lemma_len_from_counts(p.completed@, p.next_job as nat);
    lemma_sum_counts_all_one(p.completed@, p.next_job as nat);
}

} // verus!
