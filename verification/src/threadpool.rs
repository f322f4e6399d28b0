//! A bounded job queue for a dynamically sized worker pool. The queue is
//! flume's bounded channel behind trusted wrappers; the decisions around it
//! — when to spawn, when to refuse, when a worker may exit — are the
//! verified model in the state module. Worker threads themselves run
//! outside the verified core and pull jobs through the receiver handle.

pub mod counter;
pub mod state;

pub use crate::threadpool::counter::{Counter, CounterOpGuard};
pub use crate::threadpool::state::{PoolEvent, PoolState};

use vstd::prelude::*;
use crate::error::{Error, ErrorKind};
use crate::bytes::data::Data;

verus! {

/// A unit of work the pool can run, akin to a call of a consuming closure.
pub trait Executable {
    /// Executes `self`.
    fn exec(self);
}

#[verifier::external_type_specification]
#[verifier::external_body]
#[verifier::reject_recursive_types(T)]
/// The sending half of flume's channel, declared so the queue can stand in
/// verified signatures.
pub struct ExSender<T>(flume::Sender<T>);

#[verifier::external_type_specification]
#[verifier::external_body]
#[verifier::reject_recursive_types(T)]
/// The receiving half of flume's channel, declared so worker seeds can
/// stand in verified signatures.
pub struct ExReceiver<T>(flume::Receiver<T>);

/// What a non-blocking send came to: the queue took the job, or it hands
/// the job back because it was full or because every receiver is gone.
pub enum SendOutcome<T> {
    /// The queue accepted the job.
    Accepted,
    /// The queue was full; the job comes back.
    Full(T),
    /// All receivers are gone; the job comes back.
    Disconnected(T),
}

/// Relies on flume::bounded: a channel that holds at most `cap` messages,
/// returned as its two halves. Nothing further is assumed of it.
#[verifier::external_body]
fn new_job_channel<T>(cap: usize) -> (r: (flume::Sender<T>, flume::Receiver<T>)) {
    flume::bounded(cap)
}

/// Relies on flume::Sender::try_send: it never blocks, and on failure —
/// a full queue or no receivers left — the message comes back inside the
/// error, which this wrapper tells apart into the outcome's variants.
#[verifier::external_body]
fn try_send_job<T>(tx: &flume::Sender<T>, job: T) -> (r: SendOutcome<T>)
    ensures
        match r {
            SendOutcome::Accepted => true,
            SendOutcome::Full(j) => j == job,
            SendOutcome::Disconnected(j) => j == job,
        },
{
    match tx.try_send(job) {
        Ok(()) => SendOutcome::Accepted,
        Err(flume::TrySendError::Full(j)) => SendOutcome::Full(j),
        Err(flume::TrySendError::Disconnected(j)) => SendOutcome::Disconnected(j),
    }
}

/// Relies on flume::Sender::len: the number of messages in the channel at
/// some moment; other threads may change it at any time, so nothing is
/// assumed of the value.
#[verifier::external_body]
fn channel_len<T>(tx: &flume::Sender<T>) -> usize {
    tx.len()
}

/// Relies on flume::Receiver::clone: another handle to the same queue,
/// each message still delivered to exactly one receiver.
#[verifier::external_body]
fn clone_receiver<T>(rx: &flume::Receiver<T>) -> flume::Receiver<T> {
    rx.clone()
}

/// The sending side of a worker pool's job queue: a bounded flume channel
/// whose capacity is the configured maximum worker count, plus the
/// receiver seed that new workers are started with.
#[verifier::reject_recursive_types(T)]
pub struct Threadpool<T> {
    /// The job queue's sending half.
    queue_tx: flume::Sender<T>,
    /// The receiving half handed to newly started workers.
    queue_rx_seed: flume::Receiver<T>,
    /// The configured maximum worker count; also the queue's capacity.
    worker_max: usize,
}

impl<T> Threadpool<T> {
    /// The configured maximum worker count.
    pub closed spec fn capacity(&self) -> usize {
        self.worker_max
    }

    /// Creates a new pool queue bounded by `worker_max`; a maximum of zero
    /// is a configuration error, refused here rather than surfaced on the
    /// first dispatch.
    pub fn new(worker_max: usize) -> (r: Result<Self, Error>)
        ensures
            match r {
                Ok(p) => worker_max >= 1 && p.capacity() == worker_max,
                Err(e) => worker_max == 0 && e.kind == ErrorKind::WorkerLimit,
            },
    {
        if worker_max == 0 {
            return Err(Error::with_kind(ErrorKind::WorkerLimit, Data::Empty));
        }
        let (queue_tx, queue_rx_seed) = new_job_channel(worker_max);
        Ok(Self { queue_tx, queue_rx_seed, worker_max })
    }

    /// Offers a job to the queue without blocking. A refusal — the queue
    /// full, or no worker handle left to receive — is a congestion error;
    /// the caller decides whether to shed the work.
    pub fn try_enqueue(&self, job: T) -> (r: Result<(), Error>)
        ensures
            r matches Err(e) ==> e.kind == ErrorKind::Congested,
    {
        match try_send_job(&self.queue_tx, job) {
            SendOutcome::Accepted => Ok(()),
            SendOutcome::Full(_) => Err(Error::with_kind(ErrorKind::Congested, Data::Empty)),
            SendOutcome::Disconnected(_) => Err(
                Error::with_kind(ErrorKind::Congested, Data::Empty),
            ),
        }
    }

    /// The number of jobs sitting in the queue at this moment; advisory
    /// only, since workers drain it concurrently.
    pub fn queue_len(&self) -> usize {
        channel_len(&self.queue_tx)
    }

    /// The configured maximum worker count.
    pub fn max_workers(&self) -> (r: usize)
        ensures
            r == self.capacity(),
    {
        self.worker_max
    }

    /// A receiver handle for one new worker: every handle drains the same
    /// queue, each job delivered to exactly one of them.
    pub fn seed_receiver(&self) -> flume::Receiver<T> {
        clone_receiver(&self.queue_rx_seed)
    }
}

} // verus!
