//! The decisions of the pipeline's three kinds of actor, as transition functions from a phase
//! and the outcome of that phase's one shared-state operation to the next phase.
//!
//! Each phase performs exactly one operation on shared state (a queue push or pop, a read of
//! the shutdown flag, a test of queue emptiness, the alignment call); whoever runs an actor
//! performs that operation and hands its outcome back as the event.
use vstd::prelude::*;

verus! {

/// Where a worker stands. `W` is the unit of work it holds, `R` the result it delivers.
#[derive(Clone, Copy, PartialEq, Eq, Debug)]
pub enum WorkerPhase<W, R> {
    /// About to pop the work queue.
    WaitingForWork,
    /// The last pop found nothing: about to read the shutdown flag.
    CheckingShutdown,
    /// The shutdown flag was seen set: about to test whether the work queue is empty.
    CheckingDrained,
    /// Holding one unit of work: about to invoke the alignment call on it.
    Processing(W),
    /// Holding one result: about to push it onto the result queue.
    Delivering(R),
    /// Done; the worker's thread exits.
    Terminated,
}

/// The outcome of the operation a worker's phase performs.
#[derive(PartialEq, Eq, Debug)]
pub enum WorkerEvent<W, R> {
    /// What a pop of the work queue returned.
    Popped(Option<W>),
    /// The value read from the shutdown flag.
    ShutdownRead(bool),
    /// Whether the work queue was found empty.
    DrainedRead(bool),
    /// The result the alignment call produced.
    Aligned(R),
    /// What a push onto the result queue returned; a refused result comes back.
    Pushed(Result<(), R>),
}

/// The worker's transition. An event that does not belong to the phase leaves it unchanged.
pub open spec fn worker_next_spec<W, R>(phase: WorkerPhase<W, R>, event: WorkerEvent<W, R>) -> WorkerPhase<W, R> {
    match (phase, event) {
        (WorkerPhase::WaitingForWork, WorkerEvent::Popped(Some(w))) => WorkerPhase::Processing(w),
        (WorkerPhase::WaitingForWork, WorkerEvent::Popped(None)) => WorkerPhase::CheckingShutdown,
        (WorkerPhase::CheckingShutdown, WorkerEvent::ShutdownRead(set)) => {
            if set {
                WorkerPhase::CheckingDrained
            } else {
                WorkerPhase::WaitingForWork
            }
        },
        (WorkerPhase::CheckingDrained, WorkerEvent::DrainedRead(empty)) => {
            if empty {
                WorkerPhase::Terminated
            } else {
                WorkerPhase::WaitingForWork
            }
        },
        (WorkerPhase::Processing(_), WorkerEvent::Aligned(r)) => WorkerPhase::Delivering(r),
        (WorkerPhase::Delivering(_), WorkerEvent::Pushed(Ok(()))) => WorkerPhase::WaitingForWork,
        (WorkerPhase::Delivering(_), WorkerEvent::Pushed(Err(r))) => WorkerPhase::Delivering(r),
        _ => phase,
    }
}

/// A worker terminates only after it has seen the shutdown flag set and, after that, an empty
/// work queue; it never drops what it holds; a refused result is retried.
pub fn worker_next<W, R>(phase: WorkerPhase<W, R>, event: WorkerEvent<W, R>) -> (r: WorkerPhase<W, R>)
    ensures
        r == worker_next_spec(phase, event),
{
    match (phase, event) {
        (WorkerPhase::WaitingForWork, WorkerEvent::Popped(Some(w))) => WorkerPhase::Processing(w),
        (WorkerPhase::WaitingForWork, WorkerEvent::Popped(None)) => WorkerPhase::CheckingShutdown,
        (WorkerPhase::CheckingShutdown, WorkerEvent::ShutdownRead(set)) => {
            if set {
                WorkerPhase::CheckingDrained
            } else {
                WorkerPhase::WaitingForWork
            }
        },
        (WorkerPhase::CheckingDrained, WorkerEvent::DrainedRead(empty)) => {
            if empty {
                WorkerPhase::Terminated
            } else {
                WorkerPhase::WaitingForWork
            }
        },
        (WorkerPhase::Processing(_), WorkerEvent::Aligned(r)) => WorkerPhase::Delivering(r),
        (WorkerPhase::Delivering(_), WorkerEvent::Pushed(Ok(()))) => WorkerPhase::WaitingForWork,
        (WorkerPhase::Delivering(_), WorkerEvent::Pushed(Err(r))) => WorkerPhase::Delivering(r),
        (phase, _) => phase,
    }
}

/// Where the producer stands. `W` is the unit of work it submits.
#[derive(Clone, Copy, PartialEq, Eq, Debug)]
pub enum ProducerPhase<W> {
    /// About to read the next record from the source.
    Reading,
    /// Holding one unit of work: about to push it onto the work queue.
    Submitting(W),
    /// The source is exhausted: about to set the shutdown flag.
    Finishing,
    /// The shutdown flag is set; the producer's thread exits.
    Finished,
}

/// The outcome of the operation a producer's phase performs.
#[derive(PartialEq, Eq, Debug)]
pub enum ProducerEvent<W> {
    /// What the record source returned.
    Read(Option<W>),
    /// What a push onto the work queue returned; refused work comes back.
    Pushed(Result<(), W>),
    /// The shutdown flag has been set.
    ShutdownSet,
}

pub open spec fn producer_next_spec<W>(phase: ProducerPhase<W>, event: ProducerEvent<W>) -> ProducerPhase<W> {
    match (phase, event) {
        (ProducerPhase::Reading, ProducerEvent::Read(Some(w))) => ProducerPhase::Submitting(w),
        (ProducerPhase::Reading, ProducerEvent::Read(None)) => ProducerPhase::Finishing,
        (ProducerPhase::Submitting(_), ProducerEvent::Pushed(Ok(()))) => ProducerPhase::Reading,
        (ProducerPhase::Submitting(_), ProducerEvent::Pushed(Err(w))) => ProducerPhase::Submitting(w),
        (ProducerPhase::Finishing, ProducerEvent::ShutdownSet) => ProducerPhase::Finished,
        _ => phase,
    }
}

/// The producer's transition: refused work is retried, never dropped, and the shutdown flag is
/// set only once the source is exhausted.
pub fn producer_next<W>(phase: ProducerPhase<W>, event: ProducerEvent<W>) -> (r: ProducerPhase<W>)
    ensures
        r == producer_next_spec(phase, event),
{
    match (phase, event) {
        (ProducerPhase::Reading, ProducerEvent::Read(Some(w))) => ProducerPhase::Submitting(w),
        (ProducerPhase::Reading, ProducerEvent::Read(None)) => ProducerPhase::Finishing,
        (ProducerPhase::Submitting(_), ProducerEvent::Pushed(Ok(()))) => ProducerPhase::Reading,
        (ProducerPhase::Submitting(_), ProducerEvent::Pushed(Err(w))) => ProducerPhase::Submitting(w),
        (ProducerPhase::Finishing, ProducerEvent::ShutdownSet) => ProducerPhase::Finished,
        (phase, _) => phase,
    }
}

/// Where the collector stands.
#[derive(Clone, Copy, PartialEq, Eq, Debug)]
pub enum CollectorPhase {
    /// About to pop the result queue.
    Polling,
    /// The last pop found nothing: about to check whether every worker has terminated.
    CheckingWorkers,
    /// Every worker has terminated: one more pop confirms the result queue is drained.
    ConfirmingDrained,
    /// The result queue was found empty after every worker terminated.
    Complete,
}

/// The outcome of the operation a collector's phase performs.
#[derive(PartialEq, Eq, Debug)]
pub enum CollectorEvent<R> {
    /// What a pop of the result queue returned.
    Popped(Option<R>),
    /// Whether every worker was found terminated.
    WorkersRead(bool),
}

pub open spec fn collector_next_spec<R>(phase: CollectorPhase, event: CollectorEvent<R>) -> (CollectorPhase, Option<R>) {
    match (phase, event) {
        (CollectorPhase::Polling, CollectorEvent::Popped(Some(r))) => (CollectorPhase::Polling, Some(r)),
        (CollectorPhase::Polling, CollectorEvent::Popped(None)) => (CollectorPhase::CheckingWorkers, None),
        (CollectorPhase::CheckingWorkers, CollectorEvent::WorkersRead(all)) => {
            if all {
                (CollectorPhase::ConfirmingDrained, None)
            } else {
                (CollectorPhase::Polling, None)
            }
        },
        (CollectorPhase::ConfirmingDrained, CollectorEvent::Popped(Some(r))) => (CollectorPhase::Polling, Some(r)),
        (CollectorPhase::ConfirmingDrained, CollectorEvent::Popped(None)) => (CollectorPhase::Complete, None),
        _ => (phase, None),
    }
}

/// The collector's transition; the second component is the result to forward downstream.
/// Completion needs an empty pop after every worker was seen terminated, so a result pushed
/// just before a worker's last check is still collected.
pub fn collector_next<R>(phase: CollectorPhase, event: CollectorEvent<R>) -> (r: (CollectorPhase, Option<R>))
    ensures
        r == collector_next_spec(phase, event),
{
    match (phase, event) {
        (CollectorPhase::Polling, CollectorEvent::Popped(Some(r))) => (CollectorPhase::Polling, Some(r)),
        (CollectorPhase::Polling, CollectorEvent::Popped(None)) => (CollectorPhase::CheckingWorkers, None),
        (CollectorPhase::CheckingWorkers, CollectorEvent::WorkersRead(all)) => {
            if all {
                (CollectorPhase::ConfirmingDrained, None)
            } else {
                (CollectorPhase::Polling, None)
            }
        },
        (CollectorPhase::ConfirmingDrained, CollectorEvent::Popped(Some(r))) => (CollectorPhase::Polling, Some(r)),
        (CollectorPhase::ConfirmingDrained, CollectorEvent::Popped(None)) => (CollectorPhase::Complete, None),
        (phase, _) => (phase, None),
    }
}

} // verus!
