//! The worker pool's bookkeeping model: a state machine over the total,
//! idle and queued counts whose transitions carry the pool's contract —
//! bounded workers, bounded queue, fail-fast dispatch — and whose
//! invariant survives every event, a failing job included.

use vstd::prelude::*;
use crate::error::{Error, ErrorKind};
use crate::bytes::data::Data;

verus! {

/// The pool's bookkeeping: live workers, idle workers, queued jobs, and
/// the configured maximum, which bounds both the workers and the queue.
#[derive(Debug)]
pub struct PoolState {
    /// Live worker threads.
    pub total: usize,
    /// Workers waiting for a job.
    pub idle: usize,
    /// Jobs sitting in the queue.
    pub queued: usize,
    /// The configured maximum worker count; also the queue's capacity.
    pub max: usize,
}

/// One observable event in the pool's life.
pub enum PoolEvent {
    /// A whole dispatch: the mandatory spawn when the pool is empty, the
    /// enqueue, and the opportunistic spawn after it.
    Dispatch,
    /// A worker thread starts and waits for work.
    Spawn,
    /// An idle worker takes a queued job.
    TakeJob,
    /// A worker finishes a job; whether the job failed makes no
    /// difference to the bookkeeping.
    FinishJob {
        /// Whether the job failed instead of returning normally.
        panicked: bool,
    },
    /// An idle worker times out and exits voluntarily.
    IdleExit,
}

impl PoolState {
    /// The pool's invariant: never more idle workers than live ones, never
    /// more live workers than the maximum, never more queued jobs than the
    /// queue holds, and a maximum validated at construction.
    pub open spec fn wf(&self) -> bool {
        &&& self.idle <= self.total <= self.max
        &&& self.queued <= self.max
        &&& self.max >= 1
    }

    /// The state after one worker is spawned.
    pub open spec fn spawn_spec(s: PoolState) -> PoolState {
        PoolState { total: (s.total + 1) as usize, idle: (s.idle + 1) as usize, ..s }
    }

    /// The state after one job is enqueued.
    pub open spec fn enqueue_spec(s: PoolState) -> PoolState {
        PoolState { queued: (s.queued + 1) as usize, ..s }
    }

    /// The state and congestion flag after a whole dispatch: a mandatory
    /// spawn when no worker lives, then the enqueue — refused exactly when
    /// the queue is full — then an opportunistic spawn when the queue has
    /// outgrown the idle workers and room remains.
    pub open spec fn dispatch_spec(s: PoolState) -> (PoolState, bool) {
        let s1 = if s.total == 0 && s.total < s.max {
            Self::spawn_spec(s)
        } else {
            s
        };
        if s1.queued == s1.max {
            (s1, true)
        } else {
            let s2 = Self::enqueue_spec(s1);
            let s3 = if s2.queued > s2.idle && s2.total < s2.max {
                Self::spawn_spec(s2)
            } else {
                s2
            };
            (s3, false)
        }
    }

    /// The state after an event; an event whose guard does not hold
    /// changes nothing.
    pub open spec fn step(s: PoolState, e: PoolEvent) -> PoolState {
        match e {
            PoolEvent::Dispatch => Self::dispatch_spec(s).0,
            PoolEvent::Spawn => if s.total < s.max {
                Self::spawn_spec(s)
            } else {
                s
            },
            PoolEvent::TakeJob => if s.queued > 0 && s.idle > 0 {
                PoolState {
                    queued: (s.queued - 1) as usize,
                    idle: (s.idle - 1) as usize,
                    ..s
                }
            } else {
                s
            },
            PoolEvent::FinishJob { .. } => if s.idle < s.total {
                PoolState { idle: (s.idle + 1) as usize, ..s }
            } else {
                s
            },
            PoolEvent::IdleExit => if s.total > 1 && s.idle > 0 {
                PoolState {
                    total: (s.total - 1) as usize,
                    idle: (s.idle - 1) as usize,
                    ..s
                }
            } else {
                s
            },
        }
    }

    /// The state after a sequence of events.
    pub open spec fn run(s: PoolState, evs: Seq<PoolEvent>) -> PoolState
        decreases evs.len(),
    {
        if evs.len() == 0 {
            s
        } else {
            Self::run(Self::step(s, evs[0]), evs.skip(1))
        }
    }

    /// Creates the bookkeeping for a pool whose maximum worker count is
    /// validated up front: a pool that could never spawn a worker is a
    /// configuration error, refused at construction.
    pub fn new(worker_max: usize) -> (r: Result<PoolState, Error>)
        ensures
            match r {
                Ok(s) => worker_max >= 1 && s.wf() && s.total == 0 && s.idle == 0 && s.queued
                    == 0 && s.max == worker_max,
                Err(e) => worker_max == 0 && e.kind == ErrorKind::WorkerLimit,
            },
    {
        if worker_max == 0 {
            return Err(Error::with_kind(ErrorKind::WorkerLimit, Data::Empty));
        }
        Ok(PoolState { total: 0, idle: 0, queued: 0, max: worker_max })
    }

    /// Records one worker spawn: refused with a worker-limit error exactly
    /// when the configured maximum is already live.
    pub fn spawn(&mut self) -> (r: Result<(), Error>)
        requires
            old(self).wf(),
        ensures
            final(self).wf(),
            match r {
                Ok(()) => old(self).total < old(self).max && *final(self) == Self::spawn_spec(
                    *old(self),
                ),
                Err(e) => old(self).total == old(self).max && e.kind == ErrorKind::WorkerLimit
                    && *final(self) == *old(self),
            },
    {
        if self.total >= self.max {
            return Err(Error::with_kind(ErrorKind::WorkerLimit, Data::Empty));
        }
        self.total = self.total + 1;
        self.idle = self.idle + 1;
        Ok(())
    }

    /// Records one whole dispatch: fails fast with a congestion error
    /// exactly when the queue is already full, and never blocks. A
    /// successful dispatch leaves the queue one job deeper and spawns at
    /// most what the maximum allows.
    pub fn dispatch(&mut self) -> (r: Result<(), Error>)
        requires
            old(self).wf(),
        ensures
            final(self).wf(),
            *final(self) == Self::dispatch_spec(*old(self)).0,
            match r {
                Ok(()) => !Self::dispatch_spec(*old(self)).1 && old(self).queued < old(
                    self,
                ).max && final(self).queued == old(self).queued + 1,
                Err(e) => Self::dispatch_spec(*old(self)).1 && old(self).queued == old(
                    self,
                ).max && e.kind == ErrorKind::Congested,
            },
    {
        if self.total == 0 {
            let spawned = self.spawn();
            proof {
                assert(spawned is Ok);
            }
        }
        if self.queued == self.max {
            return Err(Error::with_kind(ErrorKind::Congested, Data::Empty));
        }
        self.queued = self.queued + 1;
        if self.queued > self.idle && self.total < self.max {
            let opportunistic = self.spawn();
            proof {
                assert(opportunistic is Ok);
            }
        }
        Ok(())
    }

    /// Records an idle worker taking a queued job.
    pub fn take_job(&mut self)
        requires
            old(self).wf(),
            old(self).queued > 0,
            old(self).idle > 0,
        ensures
            final(self).wf(),
            *final(self) == Self::step(*old(self), PoolEvent::TakeJob),
            final(self).queued == old(self).queued - 1,
            final(self).idle == old(self).idle - 1,
            final(self).total == old(self).total,
    {
        self.queued = self.queued - 1;
        self.idle = self.idle - 1;
    }

    /// Records a worker finishing a job and returning to the idle set —
    /// whether the job returned normally or failed: the failure boundary
    /// restores the bookkeeping either way.
    pub fn finish_job(&mut self, panicked: bool)
        requires
            old(self).wf(),
            old(self).idle < old(self).total,
        ensures
            final(self).wf(),
            *final(self) == Self::step(*old(self), PoolEvent::FinishJob { panicked }),
            final(self).idle == old(self).idle + 1,
            final(self).total == old(self).total,
            final(self).queued == old(self).queued,
    {
        self.idle = self.idle + 1;
    }

    /// Records an idle worker's timeout decision: the worker exits only
    /// when another worker would remain, so voluntary timeouts can never
    /// empty the pool.
    pub fn idle_exit(&mut self) -> (r: bool)
        requires
            old(self).wf(),
            old(self).idle > 0,
        ensures
            final(self).wf(),
            *final(self) == Self::step(*old(self), PoolEvent::IdleExit),
            r == (old(self).total > 1),
            r ==> final(self).total == old(self).total - 1 && final(self).total >= 1,
            !r ==> *final(self) == *old(self),
    {
        if self.total > 1 {
            self.total = self.total - 1;
            self.idle = self.idle - 1;
            true
        } else {
            false
        }
    }
}

/// Whether a dispatch must spawn a worker before enqueueing: only an empty
/// pool forces one, to guarantee forward progress.
pub fn spawn_required(total_workers: usize) -> (r: bool)
    ensures
        r == (total_workers == 0),
{
    total_workers == 0
}

/// Whether a dispatch should opportunistically spawn a worker after
/// enqueueing: only when the queue has outgrown the idle workers.
pub fn spawn_opportunistic(queue_depth: usize, idle_workers: usize) -> (r: bool)
    ensures
        r == (queue_depth > idle_workers),
{
    queue_depth > idle_workers
}

/// Whether a worker that timed out waiting for work may exit: only when at
/// least one other worker remains, so the pool never reaches zero workers
/// through voluntary timeouts alone.
pub fn idle_exit_allowed(total_workers: usize) -> (r: bool)
    ensures
        r == (total_workers > 1),
{
    total_workers > 1
}

/// Every event preserves the pool invariant: in any reachable state the
/// counts obey `0 <= idle <= total <= max` and `queued <= max`, and a job
/// that fails inside a worker disturbs them no more than one that returns.
pub proof fn lemma_step_preserves_wf(s: PoolState, e: PoolEvent)
    requires
        s.wf(),
    ensures
        PoolState::step(s, e).wf(),
        PoolState::step(s, e).max == s.max,
{
}

/// Any sequence of events keeps the invariant; in particular no run of
/// dispatches ever pushes the live worker count past the configured
/// maximum.
pub proof fn lemma_run_preserves_wf(s: PoolState, evs: Seq<PoolEvent>)
    requires
        s.wf(),
    ensures
        PoolState::run(s, evs).wf(),
        PoolState::run(s, evs).max == s.max,
        PoolState::run(s, evs).total <= s.max,
    decreases evs.len(),
{
    if evs.len() > 0 {
        lemma_step_preserves_wf(s, evs[0]);
        lemma_run_preserves_wf(PoolState::step(s, evs[0]), evs.skip(1));
    }
}

/// Dispatch is the pool's sole backpressure: it reports congestion exactly
/// when the queue is full, and otherwise deepens the queue by one.
pub proof fn lemma_dispatch_congestion(s: PoolState)
    requires
        s.wf(),
    ensures
        PoolState::dispatch_spec(s).1 == (s.queued == s.max),
        !PoolState::dispatch_spec(s).1 ==> PoolState::dispatch_spec(s).0.queued == s.queued
            + 1,
        PoolState::dispatch_spec(s).0.total <= s.max,
{
}

/// What a worker's wait for work came to.
pub enum WorkerEvent {
    /// A job arrived.
    Job,
    /// The wait timed out with nothing to do.
    Timeout,
    /// The queue's sending side is gone.
    Disconnected,
}

/// What a worker does next.
#[derive(Clone, Copy, Debug, PartialEq, Eq, Structural)]
pub enum WorkerAction {
    /// Run the job inside the failure boundary, then wait again.
    Run,
    /// Keep waiting for work.
    Wait,
    /// Exit the run loop.
    Exit,
}

/// One turn of the worker run loop: a job is always run; a timeout ends
/// the worker only when at least one other worker remains, so voluntary
/// timeouts can never empty the pool; a closed queue always ends it.
pub fn worker_step(event: WorkerEvent, total_workers: usize) -> (r: WorkerAction)
    ensures
        r == (match event {
            WorkerEvent::Job => WorkerAction::Run,
            WorkerEvent::Timeout => if total_workers > 1 {
                WorkerAction::Exit
            } else {
                WorkerAction::Wait
            },
            WorkerEvent::Disconnected => WorkerAction::Exit,
        }),
{
    match event {
        WorkerEvent::Job => WorkerAction::Run,
        WorkerEvent::Timeout => if idle_exit_allowed(total_workers) {
            WorkerAction::Exit
        } else {
            WorkerAction::Wait
        },
        WorkerEvent::Disconnected => WorkerAction::Exit,
    }
}

} // verus!
