use ehttpd::error::ErrorKind;
use ehttpd::threadpool::counter::{Counter, GuardOp};
use ehttpd::threadpool::state::{
    idle_exit_allowed, spawn_opportunistic, spawn_required, worker_step, PoolState, WorkerAction,
    WorkerEvent,
};
use ehttpd::threadpool::{Executable, Threadpool};

/// A job for the queue tests.
struct Job(u32);

impl Executable for Job {
    fn exec(self) {}
}

/// Checks the pool invariant at an observation point.
fn assert_invariant(pool: &PoolState) {
    assert!(pool.idle <= pool.total);
    assert!(pool.total <= pool.max);
    assert!(pool.queued <= pool.max);
}

/// Submitting more jobs than the maximum never creates more than the
/// maximum of workers, and the dispatch that finds the queue full fails
/// with a congestion error rather than blocking.
#[test]
fn dispatch_bounds_workers_and_fails_fast() {
    let mut pool = PoolState::new(2).expect("a positive maximum is valid");
    pool.dispatch().expect("the first dispatch fits");
    assert_invariant(&pool);
    pool.dispatch().expect("the second dispatch fits");
    assert_invariant(&pool);
    assert_eq!(pool.queued, 2);
    assert!(pool.total <= 2);
    let error = pool.dispatch().expect_err("the queue is full");
    assert_eq!(error.kind, ErrorKind::Congested);
    assert_invariant(&pool);
    assert_eq!(pool.queued, 2);
}

/// The first dispatch into an empty pool spawns the one worker that
/// guarantees forward progress.
#[test]
fn dispatch_spawns_when_empty() {
    let mut pool = PoolState::new(4).expect("a positive maximum is valid");
    assert_eq!(pool.total, 0);
    pool.dispatch().expect("the dispatch fits");
    assert_eq!(pool.total, 1);
    assert_eq!(pool.queued, 1);
}

/// The worker-count invariant holds at every observation point of a
/// job's life, a failing job included.
#[test]
fn invariant_survives_a_failing_job() {
    let mut pool = PoolState::new(2).expect("a positive maximum is valid");
    pool.dispatch().expect("the dispatch fits");
    assert_invariant(&pool);
    pool.take_job();
    assert_invariant(&pool);
    pool.finish_job(true);
    assert_invariant(&pool);
    assert_eq!(pool.idle, 1);
    assert_eq!(pool.total, 1);
}

/// A zero-capacity pool is a configuration error, refused at
/// construction.
#[test]
fn zero_capacity_is_refused() {
    let error = PoolState::new(0).expect_err("a pool that can never work is refused");
    assert_eq!(error.kind, ErrorKind::WorkerLimit);
}

/// Spawning past the configured maximum is refused with a worker-limit
/// error.
#[test]
fn spawn_respects_the_limit() {
    let mut pool = PoolState::new(1).expect("a positive maximum is valid");
    pool.spawn().expect("the first worker fits");
    let error = pool.spawn().expect_err("the maximum is reached");
    assert_eq!(error.kind, ErrorKind::WorkerLimit);
    assert_eq!(pool.total, 1);
}

/// An idle worker may exit only while another worker remains.
#[test]
fn idle_exit_never_empties_the_pool() {
    let mut pool = PoolState::new(2).expect("a positive maximum is valid");
    pool.spawn().expect("the first worker fits");
    pool.spawn().expect("the second worker fits");
    assert!(pool.idle_exit());
    assert_eq!(pool.total, 1);
    assert!(!pool.idle_exit());
    assert_eq!(pool.total, 1);
}

/// The dispatch decisions: a mandatory spawn only on an empty pool, an
/// opportunistic one only when the queue outgrows the idle workers, and a
/// timeout exit only while another worker remains.
#[test]
fn decision_helpers() {
    assert!(spawn_required(0));
    assert!(!spawn_required(1));
    assert!(spawn_opportunistic(2, 1));
    assert!(!spawn_opportunistic(1, 1));
    assert!(!idle_exit_allowed(1));
    assert!(idle_exit_allowed(2));
    assert_eq!(worker_step(WorkerEvent::Job, 1), WorkerAction::Run);
    assert_eq!(worker_step(WorkerEvent::Timeout, 1), WorkerAction::Wait);
    assert_eq!(worker_step(WorkerEvent::Timeout, 2), WorkerAction::Exit);
    assert_eq!(worker_step(WorkerEvent::Disconnected, 1), WorkerAction::Exit);
}

/// The real bounded queue accepts up to its capacity and then refuses
/// with a congestion error, handing nothing to a worker that never ran.
#[test]
fn queue_accepts_capacity_then_congests() {
    let pool: Threadpool<Job> = Threadpool::new(2).expect("a positive maximum is valid");
    pool.try_enqueue(Job(1)).expect("the first job fits");
    pool.try_enqueue(Job(2)).expect("the second job fits");
    let error = pool.try_enqueue(Job(3)).expect_err("the queue is full");
    assert_eq!(error.kind, ErrorKind::Congested);
    assert_eq!(pool.queue_len(), 2);
    assert_eq!(pool.max_workers(), 2);
}

/// Jobs flow through the queue to a receiver handle, each delivered once.
#[test]
fn queue_delivers_to_receiver() {
    let pool: Threadpool<Job> = Threadpool::new(2).expect("a positive maximum is valid");
    let receiver = pool.seed_receiver();
    pool.try_enqueue(Job(7)).expect("the job fits");
    let job = receiver.recv().expect("the job arrives");
    assert_eq!(job.0, 7);
    job.exec();
    pool.try_enqueue(Job(8)).expect("the queue has room again");
    assert_eq!(receiver.recv().expect("the job arrives").0, 8);
}

/// A zero-capacity queue is refused at construction.
#[test]
fn zero_capacity_queue_is_refused() {
    let error = match Threadpool::<Job>::new(0) {
        Err(error) => error,
        Ok(_) => panic!("a queue that can hold nothing must be refused"),
    };
    assert_eq!(error.kind, ErrorKind::WorkerLimit);
}

/// The counter counts, wraps at the type bounds, and its guards undo the
/// adjustment they recorded.
#[test]
fn counter_and_guards() {
    let mut counter = Counter::new(5);
    assert_eq!(counter.get(), 5);
    counter.increment();
    assert_eq!(counter.get(), 6);
    counter.decrement();
    assert_eq!(counter.get(), 5);

    let guard = counter.increment_tmp();
    assert_eq!(counter.get(), 6);
    guard.release(&mut counter);
    assert_eq!(counter.get(), 5);

    let guard = counter.decrement_tmp();
    assert_eq!(counter.get(), 4);
    guard.release(&mut counter);
    assert_eq!(counter.get(), 5);

    let mut top = Counter::new(usize::MAX);
    top.increment();
    assert_eq!(top.get(), 0);
    top.decrement();
    assert_eq!(top.get(), usize::MAX);

    assert_eq!(GuardOp::Decrement, GuardOp::Decrement);
}
