use vstd::prelude::*;
use vstd::multiset::Multiset;

use crate::error::PoolCreationError;

verus! {

broadcast use {
    vstd::multiset::group_multiset_axioms,
    vstd::multiset::lemma_multiset_empty_len,
    vstd::seq_lib::group_to_multiset_ensures,
};

/// Where a worker stands in its dequeue-execute loop.
///
/// `Idle` is a worker between jobs, trying to acquire the shared consumer
/// guard. `Receiving` holds the guard and waits on a dequeue; the guard is
/// released the moment the dequeue returns. `Executing(j)` runs job `j` with
/// the guard already released, so other workers can dequeue meanwhile.
/// `Terminated` is the one terminal state, reached only when a dequeue
/// reports that the queue is closed and drained.
#[derive(Clone, Copy, Debug, PartialEq, Eq, Structural)]
pub enum WorkerPhase {
    Idle,
    Receiving,
    Executing(u64),
    Terminated,
}

/// One worker: a stable id, the phase of its loop, and a take-once join
/// handle (present until shutdown joins the worker's thread).
#[derive(Clone, Copy)]
struct Worker {
    id: usize,
    phase: WorkerPhase,
    handle: Option<usize>,
}

/// The job a worker holds mid-execution, as a multiset: one element while the
/// worker is executing, none otherwise.
spec fn held_job(w: Worker) -> Multiset<u64> {
    match w.phase {
        WorkerPhase::Executing(j) => Multiset::empty().insert(j),
        _ => Multiset::empty(),
    }
}

/// All jobs currently held by executing workers.
spec fn in_flight(ws: Seq<Worker>) -> Multiset<u64>
    decreases ws.len(),
{
    if ws.len() == 0 {
        Multiset::empty()
    } else {
        in_flight(ws.drop_last()).add(held_job(ws.last()))
    }
}

/// A fixed-size worker pool over one shared, unbounded job queue.
///
/// Jobs are opaque to the pool and are carried as `u64` identifiers; the
/// runtime that owns the real closures keys them by these identifiers. The
/// pool records the full history of submissions and completions, so that the
/// accounting invariant — every submitted job is queued, in flight, or
/// executed, with multiplicity — can be stated and preserved.
pub struct ThreadPool {
    workers: Vec<Worker>,
    sender_live: bool,
    queued_jobs: Vec<u64>,
    submitted_jobs: Vec<u64>,
    executed_jobs: Vec<u64>,
}

impl ThreadPool {
    /// How many workers the pool owns.
    pub closed spec fn num_workers(self) -> int {
        self.workers@.len() as int
    }

    /// The phase of worker `i`'s loop.
    pub closed spec fn phase(self, i: int) -> WorkerPhase {
        self.workers@[i].phase
    }

    /// Whether worker `i`'s join handle has not been taken yet.
    pub closed spec fn handle_present(self, i: int) -> bool {
        self.workers@[i].handle is Some
    }

    /// Whether the producer handle is still held, i.e. the queue is open.
    pub closed spec fn sender_present(self) -> bool {
        self.sender_live
    }

    /// The jobs sitting in the shared queue, oldest first.
    pub closed spec fn queued(self) -> Seq<u64> {
        self.queued_jobs@
    }

    /// Every job ever submitted, in submission order.
    pub closed spec fn submitted(self) -> Seq<u64> {
        self.submitted_jobs@
    }

    /// Every job that finished executing, in completion order.
    pub closed spec fn executed(self) -> Seq<u64> {
        self.executed_jobs@
    }

    /// Worker `i` holds the dequeue guard.
    pub open spec fn holds_guard(self, i: int) -> bool {
        self.phase(i) == WorkerPhase::Receiving
    }

    /// Worker `i` has exited its loop.
    pub open spec fn terminated(self, i: int) -> bool {
        self.phase(i) == WorkerPhase::Terminated
    }

    /// Every worker has exited its loop.
    pub open spec fn all_terminated(self) -> bool {
        forall|i: int| 0 <= i < self.num_workers() ==> self.terminated(i)
    }

    /// Shutdown has completed: the producer handle is gone and every worker
    /// has exited.
    pub open spec fn shutdown_complete(self) -> bool {
        &&& !self.sender_present()
        &&& self.all_terminated()
    }

    /// The invariants every operation preserves: the pool has at least one
    /// worker; ids are the positions; at most one worker holds the dequeue
    /// guard; a terminated worker means the queue was closed and drained; and
    /// the accounting holds — the submitted jobs are exactly the queued, the
    /// in-flight and the executed ones together.
    pub closed spec fn wf(self) -> bool {
        &&& self.workers@.len() >= 1
        &&& forall|i: int|
            0 <= i < self.workers@.len() ==> (#[trigger] self.workers@[i]).id == i
        &&& forall|i: int, j: int|
            0 <= i < self.workers@.len() && 0 <= j < self.workers@.len() && i != j ==> !((
            #[trigger] self.workers@[i]).phase == WorkerPhase::Receiving && (
            #[trigger] self.workers@[j]).phase == WorkerPhase::Receiving)
        &&& forall|i: int|
            0 <= i < self.workers@.len() && (#[trigger] self.workers@[i]).phase
                == WorkerPhase::Terminated ==> !self.sender_live && self.queued_jobs@.len() == 0
        &&& self.submitted_jobs@.to_multiset() == self.queued_jobs@.to_multiset().add(
            in_flight(self.workers@),
        ).add(self.executed_jobs@.to_multiset())
    }
}

/// If no worker is executing, nothing is in flight.
proof fn lemma_in_flight_no_executing(ws: Seq<Worker>)
    requires
        forall|i: int|
            0 <= i < ws.len() ==> !((#[trigger] ws[i]).phase is Executing),
    ensures
        in_flight(ws) =~= Multiset::<u64>::empty(),
    decreases ws.len(),
{
    if ws.len() > 0 {
        assert(!(ws[ws.len() - 1].phase is Executing));
        lemma_in_flight_no_executing(ws.drop_last());
    }
}

/// Replacing one worker exchanges its held job for the new one's in the
/// in-flight multiset and leaves every other worker's share alone.
proof fn lemma_in_flight_update(ws: Seq<Worker>, i: int, w: Worker)
    requires
        0 <= i < ws.len(),
    ensures
        in_flight(ws.update(i, w)).add(held_job(ws[i])) =~= in_flight(ws).add(held_job(w)),
    decreases ws.len(),
{
    let ws2 = ws.update(i, w);
    if i == ws.len() - 1 {
        assert(ws2.drop_last() =~= ws.drop_last());
        assert(ws2.last() == w);
    } else {
        assert(ws2.drop_last() =~= ws.drop_last().update(i, w));
        assert(ws2.last() == ws.last());
        lemma_in_flight_update(ws.drop_last(), i, w);
        assert forall|x: u64|
            in_flight(ws2).add(held_job(ws[i])).count(x) == in_flight(ws).add(
                held_job(w),
            ).count(x) by {
            assert(in_flight(ws.drop_last().update(i, w)).add(held_job(ws.drop_last()[i])).count(x)
                == in_flight(ws.drop_last()).add(held_job(w)).count(x));
        }
    }
}

impl Worker {
    /// A fresh worker: idle, with its join handle present.
    fn new(id: usize) -> (w: Worker)
        ensures
            w.id == id,
            w.phase == WorkerPhase::Idle,
            w.handle == Some(id),
    {
        Worker { id, phase: WorkerPhase::Idle, handle: Some(id) }
    }
}

/// Builds the pool's workers: ids `0..size`, all idle, handles present.
fn create_workers(size: usize) -> (ws: Vec<Worker>)
    ensures
        ws@.len() == size,
        forall|i: int|
            0 <= i < size ==> (#[trigger] ws@[i]).id == i && ws@[i].phase == WorkerPhase::Idle
                && ws@[i].handle == Some(i as usize),
{
    let mut ws: Vec<Worker> = Vec::new();
    let mut id: usize = 0;
    while id < size
        invariant
            id <= size,
            ws@.len() == id,
            forall|i: int|
                0 <= i < id ==> (#[trigger] ws@[i]).id == i && ws@[i].phase == WorkerPhase::Idle
                    && ws@[i].handle == Some(i as usize),
        decreases size - id,
    {
        ws.push(Worker::new(id));
        id = id + 1;
    }
    ws
}

impl ThreadPool {
    /// Creates a pool of `size` workers, all idle, over a fresh open queue.
    ///
    /// The size must be positive; `build` is the checked form for callers
    /// that cannot promise that.
    pub fn new(size: usize) -> (p: ThreadPool)
        requires
            size >= 1,
        ensures
            p.wf(),
            p.num_workers() == size,
            p.sender_present(),
            p.queued() == Seq::<u64>::empty(),
            p.submitted() == Seq::<u64>::empty(),
            p.executed() == Seq::<u64>::empty(),
            forall|i: int| 0 <= i < size ==> p.phase(i) == WorkerPhase::Idle,
            forall|i: int| 0 <= i < size ==> p.handle_present(i),
    {
        let workers = create_workers(size);
        let p = ThreadPool {
            workers,
            sender_live: true,
            queued_jobs: Vec::new(),
            submitted_jobs: Vec::new(),
            executed_jobs: Vec::new(),
        };
        proof {
            lemma_in_flight_no_executing(p.workers@);
            assert(p.submitted_jobs@.to_multiset() =~= p.queued_jobs@.to_multiset().add(
                in_flight(p.workers@),
            ).add(p.executed_jobs@.to_multiset()));
        }
        p
    }

    /// Checked construction: a usable pool for every positive size, a
    /// `PoolCreationError` for size zero. The size is validated before any
    /// worker is made.
    pub fn build(size: usize) -> (r: Result<ThreadPool, PoolCreationError>)
        ensures
            size >= 1 <==> r is Ok,
            match r {
                Ok(p) => {
                    &&& p.wf()
                    &&& p.num_workers() == size
                    &&& p.sender_present()
                    &&& p.queued() == Seq::<u64>::empty()
                    &&& p.submitted() == Seq::<u64>::empty()
                    &&& p.executed() == Seq::<u64>::empty()
                    &&& forall|i: int|
                        0 <= i < size ==> p.phase(i) == WorkerPhase::Idle && p.handle_present(i)
                },
                Err(_) => size == 0,
            },
    {
        if size == 0 {
            Err(PoolCreationError)
        } else {
            Ok(ThreadPool::new(size))
        }
    }

    /// Submits a job: enqueues it on the shared, unbounded queue, so the call
    /// never blocks. Submission goes through the producer handle, so none is
    /// accepted once shutdown has begun.
    pub fn execute(&mut self, job: u64)
        requires
            old(self).wf(),
            old(self).sender_present(),
        ensures
            final(self).wf(),
            final(self).queued() == old(self).queued().push(job),
            final(self).submitted() == old(self).submitted().push(job),
            final(self).executed() == old(self).executed(),
            final(self).sender_present(),
            final(self).num_workers() == old(self).num_workers(),
            forall|i: int|
                0 <= i < old(self).num_workers() ==> final(self).phase(i) == old(self).phase(i)
                    && final(self).handle_present(i) == old(self).handle_present(i),
    {
        self.queued_jobs.push(job);
        self.submitted_jobs.push(job);
        proof {
            let q0 = old(self).queued_jobs@;
            let s0 = old(self).submitted_jobs@;
            assert(self.submitted_jobs@.to_multiset() =~= s0.to_multiset().insert(job));
            assert(self.queued_jobs@.to_multiset() =~= q0.to_multiset().insert(job));
            assert(self.submitted_jobs@.to_multiset() =~= self.queued_jobs@.to_multiset().add(
                in_flight(self.workers@),
            ).add(self.executed_jobs@.to_multiset()));
        }
    }

    /// Worker `w` acquires the shared consumer guard. Mutual exclusion means
    /// this step is enabled only while no worker holds the guard; a real
    /// worker blocks until then.
    pub fn acquire_guard(&mut self, w: usize)
        requires
            old(self).wf(),
            w < old(self).num_workers(),
            old(self).phase(w as int) == WorkerPhase::Idle,
            forall|i: int| 0 <= i < old(self).num_workers() ==> !old(self).holds_guard(i),
        ensures
            final(self).wf(),
            final(self).phase(w as int) == WorkerPhase::Receiving,
            final(self).queued() == old(self).queued(),
            final(self).submitted() == old(self).submitted(),
            final(self).executed() == old(self).executed(),
            final(self).sender_present() == old(self).sender_present(),
            final(self).num_workers() == old(self).num_workers(),
            forall|i: int|
                0 <= i < old(self).num_workers() && i != w ==> final(self).phase(i) == old(
                    self,
                ).phase(i),
            forall|i: int|
                0 <= i < old(self).num_workers() ==> final(self).handle_present(i) == old(
                    self,
                ).handle_present(i),
    {
        let mut wk = self.workers[w];
        wk.phase = WorkerPhase::Receiving;
        self.workers.set(w, wk);
        proof {
            let ws0 = old(self).workers@;
            assert forall|i: int, j: int|
                0 <= i < self.workers@.len() && 0 <= j < self.workers@.len() && i
                    != j implies !(self.workers@[i].phase == WorkerPhase::Receiving
                && self.workers@[j].phase == WorkerPhase::Receiving) by {
                if i != w as int {
                    assert(!old(self).holds_guard(i));
                }
                if j != w as int {
                    assert(!old(self).holds_guard(j));
                }
            }
            lemma_in_flight_update(ws0, w as int, wk);
            assert forall|x: u64| in_flight(self.workers@).count(x) == in_flight(ws0).count(x) by {
                assert(in_flight(self.workers@).add(held_job(ws0[w as int])).count(x) == in_flight(
                    ws0,
                ).add(held_job(wk)).count(x));
            }
            assert(in_flight(self.workers@) =~= in_flight(ws0));
        }
    }

    /// Worker `w`, holding the guard, dequeues the oldest job and moves to
    /// executing it. The guard is released as the dequeue returns, so other
    /// workers can contend for the next job while this one runs.
    pub fn recv_job(&mut self, w: usize) -> (job: u64)
        requires
            old(self).wf(),
            w < old(self).num_workers(),
            old(self).holds_guard(w as int),
            old(self).queued().len() > 0,
        ensures
            final(self).wf(),
            job == old(self).queued()[0],
            final(self).queued() == old(self).queued().drop_first(),
            final(self).phase(w as int) == WorkerPhase::Executing(job),
            final(self).submitted() == old(self).submitted(),
            final(self).executed() == old(self).executed(),
            final(self).sender_present() == old(self).sender_present(),
            final(self).num_workers() == old(self).num_workers(),
            forall|i: int|
                0 <= i < old(self).num_workers() && i != w ==> final(self).phase(i) == old(
                    self,
                ).phase(i),
            forall|i: int|
                0 <= i < old(self).num_workers() ==> final(self).handle_present(i) == old(
                    self,
                ).handle_present(i),
    {
        let job = self.queued_jobs.remove(0);
        let mut wk = self.workers[w];
        wk.phase = WorkerPhase::Executing(job);
        self.workers.set(w, wk);
        proof {
            let ws0 = old(self).workers@;
            let q0 = old(self).queued_jobs@;
            lemma_in_flight_update(ws0, w as int, wk);
            assert(self.queued_jobs@ =~= q0.drop_first());
            assert(q0.contains(q0[0]));
            assert(q0.remove(0).to_multiset() =~= q0.to_multiset().remove(q0[0]));
            assert forall|x: u64|
                self.submitted_jobs@.to_multiset().count(x) == self.queued_jobs@.to_multiset().add(
                    in_flight(self.workers@),
                ).add(self.executed_jobs@.to_multiset()).count(x) by {
                assert(in_flight(self.workers@).add(held_job(ws0[w as int])).count(x) == in_flight(
                    ws0,
                ).add(held_job(wk)).count(x));
            }
            assert(self.submitted_jobs@.to_multiset() =~= self.queued_jobs@.to_multiset().add(
                in_flight(self.workers@),
            ).add(self.executed_jobs@.to_multiset()));
        }
        job
    }

    /// Worker `w`, holding the guard, sees the permanent closure signal — the
    /// producer handle is gone and the queue has drained — and terminates.
    /// This is the only way a worker's loop ends.
    pub fn recv_closed(&mut self, w: usize)
        requires
            old(self).wf(),
            w < old(self).num_workers(),
            old(self).holds_guard(w as int),
            !old(self).sender_present(),
            old(self).queued().len() == 0,
        ensures
            final(self).wf(),
            final(self).phase(w as int) == WorkerPhase::Terminated,
            final(self).queued() == old(self).queued(),
            final(self).submitted() == old(self).submitted(),
            final(self).executed() == old(self).executed(),
            final(self).sender_present() == old(self).sender_present(),
            final(self).num_workers() == old(self).num_workers(),
            forall|i: int|
                0 <= i < old(self).num_workers() && i != w ==> final(self).phase(i) == old(
                    self,
                ).phase(i),
            forall|i: int|
                0 <= i < old(self).num_workers() ==> final(self).handle_present(i) == old(
                    self,
                ).handle_present(i),
    {
        let mut wk = self.workers[w];
        wk.phase = WorkerPhase::Terminated;
        self.workers.set(w, wk);
        proof {
            let ws0 = old(self).workers@;
            lemma_in_flight_update(ws0, w as int, wk);
            assert forall|x: u64| in_flight(self.workers@).count(x) == in_flight(ws0).count(x) by {
                assert(in_flight(self.workers@).add(held_job(ws0[w as int])).count(x) == in_flight(
                    ws0,
                ).add(held_job(wk)).count(x));
            }
            assert(in_flight(self.workers@) =~= in_flight(ws0));
        }
    }

    /// Worker `w` finishes the job it was executing, records it, and returns
    /// to idle. The job's identifier is returned.
    pub fn finish_job(&mut self, w: usize) -> (job: u64)
        requires
            old(self).wf(),
            w < old(self).num_workers(),
            old(self).phase(w as int) is Executing,
        ensures
            final(self).wf(),
            old(self).phase(w as int) == WorkerPhase::Executing(job),
            final(self).phase(w as int) == WorkerPhase::Idle,
            final(self).executed() == old(self).executed().push(job),
            final(self).queued() == old(self).queued(),
            final(self).submitted() == old(self).submitted(),
            final(self).sender_present() == old(self).sender_present(),
            final(self).num_workers() == old(self).num_workers(),
            forall|i: int|
                0 <= i < old(self).num_workers() && i != w ==> final(self).phase(i) == old(
                    self,
                ).phase(i),
            forall|i: int|
                0 <= i < old(self).num_workers() ==> final(self).handle_present(i) == old(
                    self,
                ).handle_present(i),
    {
        let mut wk = self.workers[w];
        let job = match wk.phase {
            WorkerPhase::Executing(j) => j,
            _ => 0,
        };
        wk.phase = WorkerPhase::Idle;
        self.workers.set(w, wk);
        self.executed_jobs.push(job);
        proof {
            let ws0 = old(self).workers@;
            let e0 = old(self).executed_jobs@;
            lemma_in_flight_update(ws0, w as int, wk);
            assert(self.executed_jobs@.to_multiset() =~= e0.to_multiset().insert(job));
            assert forall|x: u64|
                self.submitted_jobs@.to_multiset().count(x) == self.queued_jobs@.to_multiset().add(
                    in_flight(self.workers@),
                ).add(self.executed_jobs@.to_multiset()).count(x) by {
                assert(in_flight(self.workers@).add(held_job(ws0[w as int])).count(x) == in_flight(
                    ws0,
                ).add(held_job(wk)).count(x));
            }
            assert(self.submitted_jobs@.to_multiset() =~= self.queued_jobs@.to_multiset().add(
                in_flight(self.workers@),
            ).add(self.executed_jobs@.to_multiset()));
        }
        job
    }

    /// The first half of shutdown: takes and drops the producer handle. This
    /// is the signal that closes the queue: once it has drained, every
    /// blocked or future dequeue reports permanent closure. Taking an
    /// already-taken handle is a no-op.
    pub fn begin_shutdown(&mut self)
        requires
            old(self).wf(),
        ensures
            final(self).wf(),
            !final(self).sender_present(),
            final(self).queued() == old(self).queued(),
            final(self).submitted() == old(self).submitted(),
            final(self).executed() == old(self).executed(),
            final(self).num_workers() == old(self).num_workers(),
            forall|i: int|
                0 <= i < old(self).num_workers() ==> final(self).phase(i) == old(self).phase(i)
                    && final(self).handle_present(i) == old(self).handle_present(i),
    {
        self.sender_live = false;
    }

    /// The second half of shutdown, one worker at a time: takes the worker's
    /// join handle, if still present, and blocks until that thread has fully
    /// exited — so a join with a live handle returns only once the worker has
    /// terminated. Taking an already-empty handle is a no-op, not an error.
    /// Returns whether the handle was present.
    pub fn join_worker(&mut self, w: usize) -> (had: bool)
        requires
            old(self).wf(),
            w < old(self).num_workers(),
            old(self).handle_present(w as int) ==> old(self).terminated(w as int),
        ensures
            final(self).wf(),
            had == old(self).handle_present(w as int),
            !final(self).handle_present(w as int),
            final(self).queued() == old(self).queued(),
            final(self).submitted() == old(self).submitted(),
            final(self).executed() == old(self).executed(),
            final(self).sender_present() == old(self).sender_present(),
            final(self).num_workers() == old(self).num_workers(),
            forall|i: int|
                0 <= i < old(self).num_workers() ==> final(self).phase(i) == old(self).phase(i),
            forall|i: int|
                0 <= i < old(self).num_workers() && i != w ==> final(self).handle_present(i) == old(
                    self,
                ).handle_present(i),
    {
        let mut wk = self.workers[w];
        let had = wk.handle.is_some();
        wk.handle = None;
        self.workers.set(w, wk);
        proof {
            let ws0 = old(self).workers@;
            lemma_in_flight_update(ws0, w as int, wk);
            assert forall|x: u64| in_flight(self.workers@).count(x) == in_flight(ws0).count(x) by {
                assert(in_flight(self.workers@).add(held_job(ws0[w as int])).count(x) == in_flight(
                    ws0,
                ).add(held_job(wk)).count(x));
            }
            assert(in_flight(self.workers@) =~= in_flight(ws0));
        }
        had
    }
}

/// Law: once shutdown has completed — the producer handle is gone and every
/// worker has terminated — the executed jobs are exactly the submitted jobs,
/// with multiplicity: no job is lost and none runs twice; in particular, as
/// many jobs executed as were submitted.
pub proof fn lemma_shutdown_executes_all(p: ThreadPool)
    requires
        p.wf(),
        p.shutdown_complete(),
    ensures
        p.executed().to_multiset() == p.submitted().to_multiset(),
        p.executed().len() == p.submitted().len(),
{
    assert forall|i: int|
        0 <= i < p.workers@.len() implies !((#[trigger] p.workers@[i]).phase is Executing) by {
        assert(p.terminated(i));
    }
    lemma_in_flight_no_executing(p.workers@);
    assert(p.terminated(0));
    assert((p.workers@[0]).phase == WorkerPhase::Terminated);
    assert(p.queued_jobs@.len() == 0);
    assert(p.queued_jobs@.to_multiset() =~= Multiset::<u64>::empty());
    assert(p.executed().to_multiset() =~= p.submitted().to_multiset());
    assert(p.executed().to_multiset().len() == p.submitted().to_multiset().len());
}

/// Law: mutual exclusion on the shared consumer — two distinct workers never
/// hold the dequeue guard at the same time.
pub proof fn lemma_guard_mutual_exclusion(p: ThreadPool, i: int, j: int)
    requires
        p.wf(),
        0 <= i < p.num_workers(),
        0 <= j < p.num_workers(),
        i != j,
    ensures
        !(p.holds_guard(i) && p.holds_guard(j)),
{
}

/// Law: a worker terminates only after shutdown has begun and the queue has
/// drained — a terminated worker means the producer handle is gone (so no
/// further submission is possible) and no job is still queued.
pub proof fn lemma_termination_follows_closure(p: ThreadPool, i: int)
    requires
        p.wf(),
        0 <= i < p.num_workers(),
        p.terminated(i),
    ensures
        !p.sender_present(),
        p.queued().len() == 0,
{
}

impl ThreadPool {
    /// How many workers the pool owns.
    pub fn worker_count(&self) -> (n: usize)
        ensures
            n == self.num_workers(),
    {
        self.workers.len()
    }

    /// How many jobs sit in the shared queue.
    pub fn queued_len(&self) -> (n: usize)
        ensures
            n == self.queued().len(),
    {
        self.queued_jobs.len()
    }

    /// How many jobs were ever submitted.
    pub fn submitted_len(&self) -> (n: usize)
        ensures
            n == self.submitted().len(),
    {
        self.submitted_jobs.len()
    }

    /// How many jobs finished executing.
    pub fn executed_len(&self) -> (n: usize)
        ensures
            n == self.executed().len(),
    {
        self.executed_jobs.len()
    }

    /// The jobs that finished executing, in completion order.
    pub fn executed_log(&self) -> (v: &Vec<u64>)
        ensures
            v@ == self.executed(),
    {
        &self.executed_jobs
    }

    /// Whether the producer handle is still held.
    pub fn has_sender(&self) -> (b: bool)
        ensures
            b == self.sender_present(),
    {
        self.sender_live
    }

    /// The phase of worker `w`'s loop.
    pub fn worker_phase(&self, w: usize) -> (p: WorkerPhase)
        requires
            w < self.num_workers(),
        ensures
            p == self.phase(w as int),
    {
        self.workers[w].phase
    }

    /// Whether worker `w`'s join handle has not been taken yet.
    pub fn worker_has_handle(&self, w: usize) -> (b: bool)
        requires
            w < self.num_workers(),
        ensures
            b == self.handle_present(w as int),
    {
        self.workers[w].handle.is_some()
    }

    /// Whether every worker has exited its loop.
    pub fn all_workers_terminated(&self) -> (b: bool)
        ensures
            b == self.all_terminated(),
    {
        let mut i: usize = 0;
        while i < self.workers.len()
            invariant
                i <= self.workers@.len(),
                forall|k: int| 0 <= k < i ==> self.terminated(k),
            decreases self.workers@.len() - i,
        {
            if !(self.workers[i].phase == WorkerPhase::Terminated) {
                proof {
                    assert(!self.terminated(i as int));
                }
                return false;
            }
            i = i + 1;
        }
        true
    }

    /// Instrumentation for the mutual-exclusion claim: counts the workers
    /// currently holding the dequeue guard. In a well-formed pool the count
    /// never exceeds one.
    pub fn guard_holder_count(&self) -> (n: usize)
        requires
            self.wf(),
        ensures
            n <= 1,
            (n == 1) == (exists|i: int| 0 <= i < self.num_workers() && self.holds_guard(i)),
    {
        let mut n: usize = 0;
        let ghost mut witness: int = 0;
        let mut i: usize = 0;
        while i < self.workers.len()
            invariant
                self.wf(),
                i <= self.workers@.len(),
                n <= 1,
                n == 1 ==> 0 <= witness < i as int && self.holds_guard(witness),
                n == 0 ==> forall|k: int| 0 <= k < i ==> !self.holds_guard(k),
            decreases self.workers@.len() - i,
        {
            if self.workers[i].phase == WorkerPhase::Receiving {
                proof {
                    if n == 1 {
                        assert(self.workers@[witness].phase == WorkerPhase::Receiving);
                        assert(self.workers@[i as int].phase == WorkerPhase::Receiving);
                        assert(false);
                    }
                    witness = i as int;
                }
                n = n + 1;
            }
            i = i + 1;
        }
        n
    }
}

} // verus!
