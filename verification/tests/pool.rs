use worker_pool::error::PoolCreationError;
use worker_pool::pool::{ThreadPool, WorkerPhase};

#[test]
fn build_positive_sizes_usable() {
    for size in [1usize, 2, 4, 16] {
        let mut pool = ThreadPool::build(size).unwrap();
        assert_eq!(pool.worker_count(), size);
        assert!(pool.has_sender());
        pool.execute(42);
        assert_eq!(pool.queued_len(), 1);
    }
}

#[test]
fn build_zero_is_error() {
    match ThreadPool::build(0) {
        Ok(_) => panic!("a pool of size zero must be refused"),
        Err(err) => {
            let err: PoolCreationError = err;
            assert_eq!(err.message(), "PoolCreationError");
        }
    }
}

#[test]
fn new_constructs_pool() {
    let pool = ThreadPool::new(3);
    assert_eq!(pool.worker_count(), 3);
    assert!(pool.has_sender());
    assert_eq!(pool.queued_len(), 0);
    assert_eq!(pool.submitted_len(), 0);
    assert_eq!(pool.executed_len(), 0);
}

/// Drives one worker through a full dequeue-execute round.
fn run_one(pool: &mut ThreadPool, w: usize) -> u64 {
    pool.acquire_guard(w);
    pool.recv_job(w);
    pool.finish_job(w)
}

#[test]
fn pool_of_four_drains_hundred_jobs() {
    let mut pool = ThreadPool::build(4).unwrap();
    for job in 0..100u64 {
        pool.execute(job);
    }
    assert_eq!(pool.queued_len(), 100);

    // destruction begins: the producer handle is dropped first
    pool.begin_shutdown();
    assert!(!pool.has_sender());

    // the workers, taking turns, drain what was already queued
    let mut turn = 0usize;
    while pool.queued_len() > 0 {
        run_one(&mut pool, turn % 4);
        turn += 1;
    }

    // with the queue closed and drained, each worker observes closure
    for w in 0..4usize {
        pool.acquire_guard(w);
        pool.recv_closed(w);
        assert!(pool.join_worker(w));
    }

    assert_eq!(pool.executed_len(), 100);
    assert!(pool.all_workers_terminated());
    for w in 0..4usize {
        assert_eq!(pool.worker_phase(w), WorkerPhase::Terminated);
        assert!(!pool.worker_has_handle(w));
    }
}

#[test]
fn single_worker_runs_jobs_in_order() {
    let mut pool = ThreadPool::new(1);
    pool.execute(10);
    pool.execute(20);
    pool.execute(30);
    assert_eq!(run_one(&mut pool, 0), 10);
    assert_eq!(run_one(&mut pool, 0), 20);
    assert_eq!(run_one(&mut pool, 0), 30);
    assert_eq!(pool.executed_log().as_slice(), &[10, 20, 30]);
}

#[test]
fn interleaved_submissions_all_executed() {
    let mut pool = ThreadPool::new(2);
    let mut submitted: Vec<u64> = Vec::new();
    for job in [3u64, 1, 4, 1, 5] {
        pool.execute(job);
        submitted.push(job);
    }
    // worker 0 takes a job and holds it mid-execution
    pool.acquire_guard(0);
    let held = pool.recv_job(0);
    assert_eq!(held, 3);
    // worker 1 dequeues meanwhile: the guard was released with the dequeue
    assert_eq!(run_one(&mut pool, 1), 1);
    // more submissions while a job is in flight
    for job in [9u64, 2] {
        pool.execute(job);
        submitted.push(job);
    }
    pool.finish_job(0);
    pool.begin_shutdown();
    while pool.queued_len() > 0 {
        run_one(&mut pool, 0);
    }
    for w in 0..2usize {
        pool.acquire_guard(w);
        pool.recv_closed(w);
        pool.join_worker(w);
    }
    assert_eq!(pool.executed_len(), submitted.len());
    let mut executed = pool.executed_log().clone();
    executed.sort();
    submitted.sort();
    assert_eq!(executed, submitted);
}

#[test]
fn shutdown_waits_for_queued_job() {
    // a job is already queued when destruction begins; the worker must still
    // run it to completion before it can observe closure and be joined
    let mut pool = ThreadPool::new(1);
    pool.execute(77);
    pool.begin_shutdown();
    assert_eq!(pool.worker_phase(0), WorkerPhase::Idle);
    assert_eq!(run_one(&mut pool, 0), 77);
    pool.acquire_guard(0);
    pool.recv_closed(0);
    assert!(pool.join_worker(0));
    assert_eq!(pool.executed_len(), 1);
    assert!(pool.all_workers_terminated());
}

#[test]
fn join_handle_taken_once() {
    let mut pool = ThreadPool::new(1);
    pool.begin_shutdown();
    pool.acquire_guard(0);
    pool.recv_closed(0);
    assert!(pool.worker_has_handle(0));
    assert!(pool.join_worker(0));
    assert!(!pool.worker_has_handle(0));
    // taking an already-empty handle is a no-op guard, not an error
    assert!(!pool.join_worker(0));
}

#[test]
fn guard_held_by_at_most_one_worker() {
    let mut pool = ThreadPool::new(3);
    pool.execute(5);
    assert_eq!(pool.guard_holder_count(), 0);
    pool.acquire_guard(1);
    assert_eq!(pool.guard_holder_count(), 1);
    assert_eq!(pool.worker_phase(1), WorkerPhase::Receiving);
    // the dequeue returns: the guard is released while the job executes
    pool.recv_job(1);
    assert_eq!(pool.guard_holder_count(), 0);
    assert_eq!(pool.worker_phase(1), WorkerPhase::Executing(5));
    pool.acquire_guard(2);
    assert_eq!(pool.guard_holder_count(), 1);
}
