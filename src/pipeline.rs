//! The pipeline: one producer, a pool of workers and one collector around two bounded queues
//! and a shutdown flag, all sharing one read-only index.
//!
//! `Pipeline` holds the shared state. Each `step_*` method is one atomic operation of one
//! actor, so any interleaving of the actors is a sequence of calls; every step keeps
//! `Pipeline::inv`, which says that each submitted record is in exactly one place. `run`
//! drives the actors to completion.
use vstd::multiset::Multiset;
use vstd::prelude::*;

use crate::actors::{
    collector_next, collector_next_spec, producer_next, producer_next_spec, worker_next,
    worker_next_spec, CollectorEvent, CollectorPhase, ProducerEvent, ProducerPhase, WorkerEvent,
    WorkerPhase,
};
use crate::aggregate::lemma_identifiers_preserved;
use crate::index::IndexHandle;
use crate::queue::{BoundedQueue, MAX_QUEUE_CAPACITY};

verus! {

broadcast use vstd::multiset::group_multiset_axioms, vstd::seq_lib::group_to_multiset_ensures;

/// One record to align: its identifier and its sequence.
pub struct WorkItem {
    pub identifier: Vec<u8>,
    pub payload: Vec<u8>,
}

/// Why the alignment call failed on one record.
#[derive(Debug, Clone, PartialEq, Eq)]
pub struct AlignError {
    pub reason: String,
}

/// The outcome for one record, correlated with it by its identifier.
pub struct ResultItem<M> {
    pub identifier: Vec<u8>,
    pub outcome: Result<Vec<M>, AlignError>,
}

/// Pool size and queue capacity, fixed for the pipeline's lifetime.
#[derive(Debug, Clone, Copy, PartialEq, Eq, Structural)]
pub struct PipelineConfig {
    pub thread_count: usize,
    pub queue_capacity: usize,
}

/// Why a configuration was refused before anything started.
#[derive(Debug, Clone, Copy, PartialEq, Eq, Structural)]
pub enum ConfigError {
    NoThreads,
    NoQueueCapacity,
    QueueCapacityTooLarge,
}

pub open spec fn config_check(config: PipelineConfig) -> Result<(), ConfigError> {
    if config.thread_count == 0 {
        Err(ConfigError::NoThreads)
    } else if config.queue_capacity == 0 {
        Err(ConfigError::NoQueueCapacity)
    } else if config.queue_capacity > MAX_QUEUE_CAPACITY {
        Err(ConfigError::QueueCapacityTooLarge)
    } else {
        Ok(())
    }
}

/// A pool without threads or queues without room is refused up front instead of hanging.
pub fn check_config(config: &PipelineConfig) -> (r: Result<(), ConfigError>)
    ensures
        r == config_check(*config),
{
    if config.thread_count == 0 {
        Err(ConfigError::NoThreads)
    } else if config.queue_capacity == 0 {
        Err(ConfigError::NoQueueCapacity)
    } else if config.queue_capacity > MAX_QUEUE_CAPACITY {
        Err(ConfigError::QueueCapacityTooLarge)
    } else {
        Ok(())
    }
}

/// Which actor takes the next step.
#[derive(Debug, Clone, Copy, PartialEq, Eq, Structural)]
pub enum Actor {
    Producer,
    Worker(usize),
    Collector,
}

/// Tickets are record positions; the queues and the actors move tickets, the records stay put.
pub open spec fn held_by(p: WorkerPhase<u64, u64>) -> Multiset<u64> {
    match p {
        WorkerPhase::Processing(t) => Multiset::singleton(t),
        WorkerPhase::Delivering(t) => Multiset::singleton(t),
        _ => Multiset::empty(),
    }
}

/// The tickets the workers hold.
pub open spec fn held(ws: Seq<WorkerPhase<u64, u64>>) -> Multiset<u64>
    decreases ws.len(),
{
    if ws.len() == 0 {
        Multiset::empty()
    } else {
        held(ws.drop_last()).add(held_by(ws.last()))
    }
}

/// The first `k` tickets, once each.
pub open spec fn submitted(k: nat) -> Multiset<u64>
    decreases k,
{
    if k == 0 {
        Multiset::empty()
    } else {
        submitted((k - 1) as nat).insert((k - 1) as u64)
    }
}

pub open spec fn all_terminated(ws: Seq<WorkerPhase<u64, u64>>) -> bool {
    forall|i: int| 0 <= i < ws.len() ==> #[trigger] ws[i] is Terminated
}

pub open spec fn holds_ticket(p: WorkerPhase<u64, u64>, t: u64) -> bool {
    p == WorkerPhase::<u64, u64>::Processing(t) || p == WorkerPhase::<u64, u64>::Delivering(t)
}

pub open spec fn worker_potential(p: WorkerPhase<u64, u64>) -> int {
    match p {
        WorkerPhase::Processing(_) => 4,
        WorkerPhase::Delivering(_) => 3,
        WorkerPhase::Terminated => 0,
        _ => 1,
    }
}

pub open spec fn workers_potential(ws: Seq<WorkerPhase<u64, u64>>) -> int
    decreases ws.len(),
{
    if ws.len() == 0 {
        0
    } else {
        workers_potential(ws.drop_last()) + worker_potential(ws.last())
    }
}

/// Polling steps left before a worker's next step changes the potential.
pub open spec fn worker_rank(p: WorkerPhase<u64, u64>, shutdown: bool, work_empty: bool) -> int {
    match p {
        WorkerPhase::WaitingForWork => if shutdown && work_empty {
            3
        } else {
            0
        },
        WorkerPhase::CheckingShutdown => if shutdown {
            2
        } else {
            1
        },
        WorkerPhase::CheckingDrained => 1,
        _ => 0,
    }
}

pub open spec fn workers_rank(ws: Seq<WorkerPhase<u64, u64>>, shutdown: bool, work_empty: bool) -> int
    decreases ws.len(),
{
    if ws.len() == 0 {
        0
    } else {
        workers_rank(ws.drop_last(), shutdown, work_empty) + worker_rank(ws.last(), shutdown, work_empty)
    }
}

pub open spec fn collector_rank(c: CollectorPhase, all_done: bool) -> int {
    match c {
        CollectorPhase::Polling => if all_done {
            2
        } else {
            0
        },
        CollectorPhase::CheckingWorkers => 1,
        _ => 0,
    }
}


proof fn lemma_submitted_count(k: nat, x: u64)
    requires
        k <= u64::MAX + 1,
    ensures
        submitted(k).count(x) == (if (x as nat) < k {
            1nat
        } else {
            0nat
        }),
    decreases k,
{
    if k > 0 {
        lemma_submitted_count((k - 1) as nat, x);
    }
}

proof fn lemma_held_update(ws: Seq<WorkerPhase<u64, u64>>, i: int, p: WorkerPhase<u64, u64>, x: u64)
    requires
        0 <= i < ws.len(),
    ensures
        held(ws.update(i, p)).count(x) + held_by(ws[i]).count(x) == held(ws).count(x) + held_by(
            p,
        ).count(x),
    decreases ws.len(),
{
    let ws2 = ws.update(i, p);
    assert(ws2.drop_last() =~= if i == ws.len() - 1 {
        ws.drop_last()
    } else {
        ws.drop_last().update(i, p)
    });
    if i < ws.len() - 1 {
        lemma_held_update(ws.drop_last(), i, p, x);
    }
}

proof fn lemma_held_contains(ws: Seq<WorkerPhase<u64, u64>>, i: int, t: u64)
    requires
        0 <= i < ws.len(),
        holds_ticket(ws[i], t),
    ensures
        held(ws).count(t) >= 1,
    decreases ws.len(),
{
    if i < ws.len() - 1 {
        assert(ws.drop_last()[i] == ws[i]);
        lemma_held_contains(ws.drop_last(), i, t);
    }
}

proof fn lemma_held_none(ws: Seq<WorkerPhase<u64, u64>>)
    requires
        all_terminated(ws),
    ensures
        held(ws) =~= Multiset::<u64>::empty(),
    decreases ws.len(),
{
    if ws.len() > 0 {
        assert(all_terminated(ws.drop_last())) by {
            assert forall|i: int| 0 <= i < ws.drop_last().len() implies #[trigger] ws.drop_last()[i] is Terminated by {
                assert(ws.drop_last()[i] == ws[i]);
            }
        }
        lemma_held_none(ws.drop_last());
        assert(ws[ws.len() - 1] is Terminated);
    }
}

proof fn lemma_workers_potential_update(ws: Seq<WorkerPhase<u64, u64>>, i: int, p: WorkerPhase<u64, u64>)
    requires
        0 <= i < ws.len(),
    ensures
        workers_potential(ws.update(i, p)) == workers_potential(ws) - worker_potential(ws[i])
            + worker_potential(p),
    decreases ws.len(),
{
    let ws2 = ws.update(i, p);
    assert(ws2.drop_last() =~= if i == ws.len() - 1 {
        ws.drop_last()
    } else {
        ws.drop_last().update(i, p)
    });
    if i < ws.len() - 1 {
        lemma_workers_potential_update(ws.drop_last(), i, p);
    }
}

proof fn lemma_workers_rank_update(
    ws: Seq<WorkerPhase<u64, u64>>,
    i: int,
    p: WorkerPhase<u64, u64>,
    shutdown: bool,
    empty: bool,
)
    requires
        0 <= i < ws.len(),
    ensures
        workers_rank(ws.update(i, p), shutdown, empty) == workers_rank(ws, shutdown, empty)
            - worker_rank(ws[i], shutdown, empty) + worker_rank(p, shutdown, empty),
    decreases ws.len(),
{
    let ws2 = ws.update(i, p);
    assert(ws2.drop_last() =~= if i == ws.len() - 1 {
        ws.drop_last()
    } else {
        ws.drop_last().update(i, p)
    });
    if i < ws.len() - 1 {
        lemma_workers_rank_update(ws.drop_last(), i, p, shutdown, empty);
    }
}


proof fn lemma_held_empty(ws: Seq<WorkerPhase<u64, u64>>)
    requires
        forall|i: int| 0 <= i < ws.len() ==> ws[i] == WorkerPhase::<u64, u64>::WaitingForWork,
    ensures
        held(ws) =~= Multiset::<u64>::empty(),
        workers_potential(ws) == ws.len(),
    decreases ws.len(),
{
    if ws.len() > 0 {
        lemma_held_empty(ws.drop_last());
        assert(ws[ws.len() - 1] == WorkerPhase::<u64, u64>::WaitingForWork);
    }
}


proof fn lemma_measures_nonnegative(ws: Seq<WorkerPhase<u64, u64>>, shutdown: bool, empty: bool)
    ensures
        workers_potential(ws) >= 0,
        workers_rank(ws, shutdown, empty) >= 0,
    decreases ws.len(),
{
    if ws.len() > 0 {
        lemma_measures_nonnegative(ws.drop_last(), shutdown, empty);
    }
}


/// `order` names each of the positions `0..n` exactly once.
pub open spec fn is_arrangement(order: Seq<u64>, n: nat) -> bool {
    &&& order.len() == n
    &&& forall|k: int| 0 <= k < order.len() ==> order[k] < n
    &&& order.no_duplicates()
    &&& order.to_multiset() =~= submitted(n)
}

/// The results answer the records one for one: result `k` carries the identifier of record
/// `order[k]`, for an `order` that names every record exactly once.
pub open spec fn answers_each_once<M>(results: Seq<ResultItem<M>>, records: Seq<WorkItem>, order: Seq<u64>) -> bool {
    &&& is_arrangement(order, records.len())
    &&& results.len() == records.len()
    &&& forall|k: int| 0 <= k < results.len() ==> (#[trigger] results[k]).identifier@
        == records[order[k] as int].identifier@
}


/// Result `k` carries what the alignment call returned for record `order[k]` on `index`.
pub open spec fn outcomes_from<R, M, F: Fn(&R, &WorkItem) -> Result<Vec<M>, AlignError>>(
    results: Seq<ResultItem<M>>,
    records: Seq<WorkItem>,
    order: Seq<u64>,
    aligner: F,
    index: R,
) -> bool {
    forall|k: int|
        0 <= k < results.len() ==> call_ensures(
            aligner,
            (&index, &records[order[k] as int]),
            (#[trigger] results[k]).outcome,
        )
}

proof fn lemma_submitted_len(k: nat)
    ensures
        submitted(k).len() == k,
    decreases k,
{
    if k > 0 {
        lemma_submitted_len((k - 1) as nat);
    }
}

/// The shared state of one run.
pub struct Pipeline<R, M, F> {
    records: Vec<WorkItem>,
    next_record: usize,
    producer: ProducerPhase<u64>,
    work: BoundedQueue,
    shutdown: bool,
    workers: Vec<WorkerPhase<u64, u64>>,
    outcomes: Vec<Option<Result<Vec<M>, AlignError>>>,
    results: BoundedQueue,
    collector: CollectorPhase,
    collected: Vec<ResultItem<M>>,
    collected_tickets: Ghost<Seq<u64>>,
    index: IndexHandle<R>,
    aligner: F,
}

impl<R, M, F: Fn(&R, &WorkItem) -> Result<Vec<M>, AlignError>> Pipeline<R, M, F> {
    pub closed spec fn records_spec(&self) -> Seq<WorkItem> {
        self.records@
    }

    pub closed spec fn aligner_spec(&self) -> F {
        self.aligner
    }

    pub closed spec fn index_spec(&self) -> R {
        self.index@
    }

    pub closed spec fn collected_spec(&self) -> Seq<ResultItem<M>> {
        self.collected@
    }

    /// The record position each collected result came from, in collection order.
    pub closed spec fn collected_order(&self) -> Seq<u64> {
        self.collected_tickets@
    }

    pub closed spec fn is_complete(&self) -> bool {
        self.collector == CollectorPhase::Complete
    }

    pub closed spec fn shutdown_spec(&self) -> bool {
        self.shutdown
    }

    pub closed spec fn work_len(&self) -> nat {
        self.work@.len()
    }

    pub closed spec fn worker_count(&self) -> nat {
        self.workers@.len()
    }

    pub closed spec fn producer_phase(&self) -> ProducerPhase<u64> {
        self.producer
    }

    pub closed spec fn collector_phase(&self) -> CollectorPhase {
        self.collector
    }

    /// What the producer's next step observes: the next record's position, the outcome of
    /// its push, or the setting of the flag.
    pub closed spec fn producer_event(&self) -> ProducerEvent<u64> {
        match self.producer {
            ProducerPhase::Reading => ProducerEvent::Read(
                if self.next_record < self.records@.len() {
                    Some(self.next_record as u64)
                } else {
                    None
                },
            ),
            ProducerPhase::Submitting(t) => ProducerEvent::Pushed(
                if self.work.is_full_spec() {
                    Err(t)
                } else {
                    Ok(())
                },
            ),
            _ => ProducerEvent::ShutdownSet,
        }
    }

    /// What worker `i`'s next step observes; a terminated worker observes nothing that would
    /// change its phase.
    pub closed spec fn worker_event(&self, i: int) -> WorkerEvent<u64, u64> {
        match self.workers@[i] {
            WorkerPhase::WaitingForWork => WorkerEvent::Popped(
                if self.work@.len() == 0 {
                    None
                } else {
                    Some(self.work@[0])
                },
            ),
            WorkerPhase::CheckingShutdown => WorkerEvent::ShutdownRead(self.shutdown),
            WorkerPhase::CheckingDrained => WorkerEvent::DrainedRead(self.work@.len() == 0),
            WorkerPhase::Processing(t) => WorkerEvent::Aligned(t),
            WorkerPhase::Delivering(t) => WorkerEvent::Pushed(
                if self.results.is_full_spec() {
                    Err(t)
                } else {
                    Ok(())
                },
            ),
            WorkerPhase::Terminated => WorkerEvent::DrainedRead(true),
        }
    }

    /// What the collector's next step observes.
    pub closed spec fn collector_event(&self) -> CollectorEvent<u64> {
        match self.collector {
            CollectorPhase::CheckingWorkers => CollectorEvent::WorkersRead(all_terminated(self.workers@)),
            _ => CollectorEvent::Popped(
                if self.results@.len() == 0 {
                    None
                } else {
                    Some(self.results@[0])
                },
            ),
        }
    }

    /// Every worker has terminated.
    pub closed spec fn all_done(&self) -> bool {
        all_terminated(self.workers@)
    }

    pub closed spec fn worker_phase(&self, i: int) -> WorkerPhase<u64, u64> {
        self.workers@[i]
    }

    /// Every ticket handed out so far, wherever it is now.
    pub closed spec fn places(&self) -> Multiset<u64> {
        self.work@.to_multiset().add(held(self.workers@)).add(self.results@.to_multiset()).add(
            self.collected_tickets@.to_multiset(),
        )
    }

    closed spec fn producer_ok(&self) -> bool {
        let n = self.records@.len();
        match self.producer {
            ProducerPhase::Reading => !self.shutdown,
            ProducerPhase::Submitting(t) => t == self.next_record && self.next_record < n
                && !self.shutdown,
            ProducerPhase::Finishing => self.next_record == n && !self.shutdown,
            ProducerPhase::Finished => self.next_record == n && self.shutdown,
        }
    }

    closed spec fn tickets_bounded(&self) -> bool {
        &&& forall|j: int| 0 <= j < self.work@.len() ==> self.work@[j] < self.next_record
        &&& forall|j: int| 0 <= j < self.results@.len() ==> self.results@[j] < self.next_record
        &&& forall|k: int|
            0 <= k < self.collected_tickets@.len() ==> self.collected_tickets@[k] < self.next_record
        &&& forall|i: int, t: u64|
            0 <= i < self.workers@.len() && holds_ticket(self.workers@[i], t) ==> t
                < self.next_record
    }

    closed spec fn outcomes_ready(&self) -> bool {
        &&& forall|j: int|
            0 <= j < self.results@.len() ==> (#[trigger] self.outcomes@[self.results@[j] as int]) is Some
        &&& forall|i: int, t: u64|
            0 <= i < self.workers@.len() && self.workers@[i] == WorkerPhase::<u64, u64>::Delivering(t)
                ==> self.outcomes@[t as int] is Some
    }

    closed spec fn termination_ok(&self) -> bool {
        &&& forall|i: int|
            0 <= i < self.workers@.len() && #[trigger] self.workers@[i] is Terminated ==> self.shutdown
                && self.work@.len() == 0
        &&& forall|i: int|
            0 <= i < self.workers@.len() && #[trigger] self.workers@[i] is CheckingDrained
                ==> self.shutdown
        &&& (self.collector is ConfirmingDrained || self.collector is Complete) ==> all_terminated(
            self.workers@,
        )
        &&& self.collector is Complete ==> self.results@.len() == 0
    }

    /// What holds between any two steps, in any interleaving.
    pub closed spec fn inv(&self) -> bool {
        &&& self.work.wf()
        &&& self.results.wf()
        &&& self.next_record <= self.records@.len()
        &&& self.outcomes@.len() == self.records@.len()
        &&& 0 < self.workers@.len() <= usize::MAX
        &&& self.producer_ok()
        &&& self.places() =~= submitted(self.next_record as nat)
        &&& self.tickets_bounded()
        &&& self.outcomes_ready()
        &&& self.termination_ok()
        &&& self.collected@.len() == self.collected_tickets@.len()
        &&& forall|k: int|
            0 <= k < self.collected@.len() ==> (#[trigger] self.collected@[k]).identifier@
                == self.records@[self.collected_tickets@[k] as int].identifier@
        &&& forall|r: &R, w: &WorkItem| call_requires(self.aligner, (r, w))
        &&& forall|t: int|
            0 <= t < self.outcomes@.len() && (#[trigger] self.outcomes@[t]) is Some ==> call_ensures(
                self.aligner,
                (&self.index@, &self.records@[t]),
                self.outcomes@[t]->0,
            )
        &&& forall|k: int|
            0 <= k < self.collected@.len() ==> call_ensures(
                self.aligner,
                (&self.index@, &self.records@[self.collected_tickets@[k] as int]),
                (#[trigger] self.collected@[k]).outcome,
            )
    }

    /// Work left that changes the state for good; no step raises it.
    pub closed spec fn potential(&self) -> int {
        let left = self.records@.len() - self.next_record;
        let p = match self.producer {
            ProducerPhase::Reading => 6 * left + 2,
            ProducerPhase::Submitting(_) => 6 * left + 1,
            ProducerPhase::Finishing => 1,
            ProducerPhase::Finished => 0,
        };
        p + 4 * self.work@.len() + workers_potential(self.workers@) + self.results@.len() + (
        if self.collector is Complete {
            0int
        } else {
            1int
        })
    }

    /// Polling steps left before the potential must fall.
    pub closed spec fn rank(&self) -> int {
        workers_rank(self.workers@, self.shutdown, self.work@.len() == 0) + collector_rank(
            self.collector,
            all_terminated(self.workers@),
        )
    }

    /// The step of `actor` either lowers the potential or, leaving it, lowers the rank.
    pub closed spec fn advances(&self, actor: Actor) -> bool {
        match actor {
            Actor::Producer => match self.producer {
                ProducerPhase::Submitting(_) => !self.work.is_full_spec(),
                ProducerPhase::Finished => false,
                _ => true,
            },
            Actor::Worker(i) => i < self.workers@.len() && match self.workers@[i as int] {
                WorkerPhase::WaitingForWork => self.work@.len() > 0 || self.shutdown,
                WorkerPhase::Delivering(_) => !self.results.is_full_spec(),
                WorkerPhase::Terminated => false,
                _ => true,
            },
            Actor::Collector => match self.collector {
                CollectorPhase::Polling => self.results@.len() > 0 || all_terminated(self.workers@),
                CollectorPhase::Complete => false,
                _ => true,
            },
        }
    }


    /// Sets up the shared state: both queues with the configured capacity, every worker
    /// waiting for work, nothing submitted.
    pub fn new(config: PipelineConfig, records: Vec<WorkItem>, index: IndexHandle<R>, aligner: F) -> (r: Result<Self, ConfigError>)
        requires
            forall|x: &R, w: &WorkItem| call_requires(aligner, (x, w)),
        ensures
            r is Err <==> config_check(config) is Err,
            r matches Err(e) ==> config_check(config) == Err::<(), ConfigError>(e),
            r matches Ok(p) ==> p.inv() && p.records_spec() == records@ && p.worker_count()
                == config.thread_count && p.collected_spec().len() == 0 && !p.is_complete()
                && p.aligner_spec() == aligner && p.index_spec() == index@,
    {
        match check_config(&config) {
            Err(e) => { return Err(e); },
            Ok(()) => {},
        }
        let n = records.len();
        let mut outcomes: Vec<Option<Result<Vec<M>, AlignError>>> = Vec::new();
        let mut i: usize = 0;
        while i < n
            invariant
                i <= n,
                outcomes@.len() == i,
                forall|j: int| 0 <= j < i ==> (#[trigger] outcomes@[j]) is None,
            decreases n - i,
        {
            outcomes.push(None);
            i = i + 1;
        }
        let mut workers: Vec<WorkerPhase<u64, u64>> = Vec::new();
        let mut k: usize = 0;
        while k < config.thread_count
            invariant
                k <= config.thread_count,
                workers@.len() == k,
                forall|j: int| 0 <= j < k ==> workers@[j] == WorkerPhase::<u64, u64>::WaitingForWork,
            decreases config.thread_count - k,
        {
            workers.push(WorkerPhase::WaitingForWork);
            k = k + 1;
        }
        let p = Pipeline {
            records,
            next_record: 0,
            producer: ProducerPhase::Reading,
            work: BoundedQueue::new(config.queue_capacity),
            shutdown: false,
            workers,
            outcomes,
            results: BoundedQueue::new(config.queue_capacity),
            collector: CollectorPhase::Polling,
            collected: Vec::new(),
            collected_tickets: Ghost(Seq::empty()),
            index,
            aligner,
        };
        proof {
            lemma_held_empty(p.workers@);
            assert(p.places() =~= submitted(0));
        }
        Ok(p)
    }

    /// One step of the producer: read the next record, push it, or set the shutdown flag.
    pub fn step_producer(&mut self)
        requires
            old(self).inv(),
        ensures
            final(self).inv(),
            final(self).records_spec() == old(self).records_spec(),
            final(self).worker_count() == old(self).worker_count(),
            final(self).aligner_spec() == old(self).aligner_spec(),
            final(self).index_spec() == old(self).index_spec(),
            old(self).advances(Actor::Producer) ==> final(self).measure_below(old(self)),
            final(self).potential() <= old(self).potential(),
            final(self).producer_phase() == producer_next_spec(
                old(self).producer_phase(),
                old(self).producer_event(),
            ),
            final(self).shutdown_spec() == (old(self).shutdown_spec()
                || old(self).producer_phase() is Finishing),
            forall|k: int| 0 <= k < final(self).worker_count() ==> final(self).worker_phase(k)
                == old(self).worker_phase(k),
            final(self).collector_phase() == old(self).collector_phase(),
    {
        let ghost n = self.records@.len();
        match self.producer {
            ProducerPhase::Reading => {
                let event = if self.next_record < self.records.len() {
                    ProducerEvent::Read(Some(self.next_record as u64))
                } else {
                    ProducerEvent::Read(None)
                };
                self.producer = producer_next(self.producer, event);
            },
            ProducerPhase::Submitting(t) => {
                let n = self.records.len();
                assert(self.next_record < n);
                let following = self.next_record + 1;
                let pushed = self.work.push(t);
                if pushed.is_ok() {
                    proof {
                        assert(self.work@.to_multiset() =~= old(self).work@.to_multiset().insert(t));
                        assert(self.places() =~= old(self).places().insert(t));
                        assert(submitted((self.next_record + 1) as nat) =~= submitted(self.next_record as nat).insert(t));
                    }
                    self.next_record = following;
                }
                self.producer = producer_next(self.producer, ProducerEvent::Pushed(pushed));
                proof {
                    if !old(self).work.is_full_spec() {
                        assert(self.potential() == old(self).potential() - 1);
                    }
                }
            },
            ProducerPhase::Finishing => {
                self.shutdown = true;
                self.producer = producer_next(self.producer, ProducerEvent::ShutdownSet);
            },
            ProducerPhase::Finished => {},
        }
    }


    /// One step of worker `i`: pop work, read the shutdown flag, test whether the work queue
    /// is drained, align the record it holds, or push the result it holds.
    pub fn step_worker(&mut self, i: usize)
        requires
            old(self).inv(),
            i < old(self).worker_count(),
        ensures
            final(self).inv(),
            final(self).records_spec() == old(self).records_spec(),
            final(self).worker_count() == old(self).worker_count(),
            final(self).aligner_spec() == old(self).aligner_spec(),
            final(self).index_spec() == old(self).index_spec(),
            old(self).advances(Actor::Worker(i)) ==> final(self).measure_below(old(self)),
            final(self).potential() <= old(self).potential(),
            final(self).worker_phase(i as int) == worker_next_spec(
                old(self).worker_phase(i as int),
                old(self).worker_event(i as int),
            ),
            forall|k: int| 0 <= k < final(self).worker_count() && k != i ==> final(self).worker_phase(k)
                == old(self).worker_phase(k),
            final(self).producer_phase() == old(self).producer_phase(),
            final(self).collector_phase() == old(self).collector_phase(),
            final(self).shutdown_spec() == old(self).shutdown_spec(),
    {
        let phase = self.workers[i];
        let ghost ws = self.workers@;
        proof {
            assert(!all_terminated(ws) || phase is Terminated);
        }
        match phase {
            WorkerPhase::WaitingForWork => {
                let popped = self.work.pop();
                let next = worker_next(phase, WorkerEvent::Popped(popped));
                self.workers.set(i, next);
                proof {
                    assert forall|x: u64| #[trigger] held(self.workers@).count(x) + held_by(phase).count(x)
                        == held(ws).count(x) + held_by(next).count(x) by {
                        lemma_held_update(ws, i as int, next, x);
                    }
                    lemma_workers_potential_update(ws, i as int, next);
                    lemma_workers_rank_update(ws, i as int, next, self.shutdown, old(self).work@.len() == 0);
                    if old(self).work@.len() > 0 {
                        assert(old(self).work@.remove(0) =~= old(self).work@.drop_first());
                        assert(self.places() =~= old(self).places());
                    } else {
                        assert(self.places() =~= old(self).places());
                    }
                    assert(!(self.workers@[i as int] is Terminated));
                    assert(!all_terminated(self.workers@));
                }
            },
            WorkerPhase::CheckingShutdown => {
                let set = self.shutdown;
                let next = worker_next(phase, WorkerEvent::ShutdownRead(set));
                self.workers.set(i, next);
                proof {
                    assert forall|x: u64| #[trigger] held(self.workers@).count(x) + held_by(phase).count(x)
                        == held(ws).count(x) + held_by(next).count(x) by {
                        lemma_held_update(ws, i as int, next, x);
                    }
                    lemma_workers_potential_update(ws, i as int, next);
                    lemma_workers_rank_update(ws, i as int, next, self.shutdown, self.work@.len() == 0);
                    assert(self.places() =~= old(self).places());
                    assert(!(self.workers@[i as int] is Terminated));
                    assert(!all_terminated(self.workers@));
                }
            },
            WorkerPhase::CheckingDrained => {
                let empty = self.work.is_empty();
                let next = worker_next(phase, WorkerEvent::DrainedRead(empty));
                self.workers.set(i, next);
                proof {
                    assert forall|x: u64| #[trigger] held(self.workers@).count(x) + held_by(phase).count(x)
                        == held(ws).count(x) + held_by(next).count(x) by {
                        lemma_held_update(ws, i as int, next, x);
                    }
                    lemma_workers_potential_update(ws, i as int, next);
                    lemma_workers_rank_update(ws, i as int, next, self.shutdown, self.work@.len() == 0);
                    assert(self.places() =~= old(self).places());
                    if !empty {
                        assert(!(self.workers@[i as int] is Terminated));
                    assert(!all_terminated(self.workers@));
                    }
                }
            },
            WorkerPhase::Processing(t) => {
                proof {
                    assert(holds_ticket(ws[i as int], t));
                }
                let outcome = (self.aligner)(self.index.get(), &self.records[t as usize]);
                self.outcomes.set(t as usize, Some(outcome));
                let next = worker_next(phase, WorkerEvent::Aligned(t));
                self.workers.set(i, next);
                proof {
                    assert forall|j: int| 0 <= j < self.results@.len() implies (
                    #[trigger] self.outcomes@[self.results@[j] as int]) is Some by {
                        assert(old(self).outcomes@[old(self).results@[j] as int] is Some);
                    }
                    assert forall|k: int, u: u64|
                        0 <= k < self.workers@.len() && self.workers@[k]
                            == WorkerPhase::<u64, u64>::Delivering(u) implies self.outcomes@[u as int] is Some by {
                        if k != i {
                            assert(old(self).workers@[k] == self.workers@[k]);
                            assert(old(self).outcomes@[u as int] is Some);
                            assert(holds_ticket(old(self).workers@[k], u));
                            if u != t {
                                assert(self.outcomes@[u as int] == old(self).outcomes@[u as int]);
                            }
                        }
                    }
                    assert(self.outcomes_ready());
                    assert forall|x: u64| #[trigger] held(self.workers@).count(x) + held_by(phase).count(x)
                        == held(ws).count(x) + held_by(next).count(x) by {
                        lemma_held_update(ws, i as int, next, x);
                    }
                    lemma_workers_potential_update(ws, i as int, next);
                    lemma_workers_rank_update(ws, i as int, next, self.shutdown, self.work@.len() == 0);
                    assert(self.places() =~= old(self).places());
                    assert(!(self.workers@[i as int] is Terminated));
                    assert(!all_terminated(self.workers@));
                }
            },
            WorkerPhase::Delivering(t) => {
                proof {
                    assert(holds_ticket(ws[i as int], t));
                }
                let pushed = self.results.push(t);
                let next = worker_next(phase, WorkerEvent::Pushed(pushed));
                self.workers.set(i, next);
                proof {
                    assert forall|x: u64| #[trigger] held(self.workers@).count(x) + held_by(phase).count(x)
                        == held(ws).count(x) + held_by(next).count(x) by {
                        lemma_held_update(ws, i as int, next, x);
                    }
                    lemma_workers_potential_update(ws, i as int, next);
                    lemma_workers_rank_update(ws, i as int, next, self.shutdown, self.work@.len() == 0);
                    assert(self.places() =~= old(self).places());
                    assert(!(self.workers@[i as int] is Terminated));
                    assert(!all_terminated(self.workers@));
                }
            },
            WorkerPhase::Terminated => {},
        }
    }


    /// Whether every worker has terminated.
    pub fn all_workers_terminated(&self) -> (r: bool)
        ensures
            r == self.all_done(),
    {
        let mut i: usize = 0;
        while i < self.workers.len()
            invariant
                i <= self.workers@.len(),
                forall|j: int| 0 <= j < i ==> #[trigger] self.workers@[j] is Terminated,
            decreases self.workers@.len() - i,
        {
            match self.workers[i] {
                WorkerPhase::Terminated => {},
                _ => {
                    return false;
                },
            }
            i = i + 1;
        }
        true
    }

    /// One step of the collector: pop a result and forward it, check whether every worker has
    /// terminated, or confirm with one more pop that the result queue is drained.
    pub fn step_collector(&mut self)
        requires
            old(self).inv(),
        ensures
            final(self).inv(),
            final(self).records_spec() == old(self).records_spec(),
            final(self).worker_count() == old(self).worker_count(),
            final(self).aligner_spec() == old(self).aligner_spec(),
            final(self).index_spec() == old(self).index_spec(),
            old(self).advances(Actor::Collector) ==> final(self).measure_below(old(self)),
            final(self).potential() <= old(self).potential(),
            final(self).collector_phase() == collector_next_spec(
                old(self).collector_phase(),
                old(self).collector_event(),
            ).0,
            forall|k: int| 0 <= k < final(self).worker_count() ==> final(self).worker_phase(k)
                == old(self).worker_phase(k),
            final(self).producer_phase() == old(self).producer_phase(),
            final(self).shutdown_spec() == old(self).shutdown_spec(),
            final(self).collected_spec().len() == old(self).collected_spec().len() + (if collector_next_spec(
                old(self).collector_phase(),
                old(self).collector_event(),
            ).1 is Some {
                1int
            } else {
                0int
            }),
    {
        match self.collector {
            CollectorPhase::Polling | CollectorPhase::ConfirmingDrained => {
                let popped = self.results.pop();
                let (next, forwarded) = collector_next(self.collector, CollectorEvent::Popped(popped));
                match forwarded {
                    Some(t) => {
                        proof {
                            assert(old(self).results@[0] == t);
                            assert(old(self).results@.to_multiset().count(t) >= 1);
                            lemma_submitted_count(old(self).next_record as nat, t);
                            assert(old(self).places().count(t) == 1);
                            assert(old(self).results@.remove(0) =~= old(self).results@.drop_first());
                            assert(self.results@.to_multiset().count(t) == 0);
                            assert(held(self.workers@).count(t) == 0);
                        }
                        let taken = self.outcomes[t as usize].take();
                        let outcome = taken.unwrap();
                        let identifier = self.records[t as usize].identifier.clone();
                        proof {
                            assert(identifier@ =~= self.records@[t as int].identifier@);
                        }
                        self.collected.push(ResultItem { identifier, outcome });
                        proof {
                            self.collected_tickets@ = self.collected_tickets@.push(t);
                            assert(self.places() =~= old(self).places());
                            assert forall|j: int| 0 <= j < self.results@.len() implies (
                            #[trigger] self.outcomes@[self.results@[j] as int]) is Some by {
                                assert(self.results@[j] == old(self).results@[j + 1]);
                                assert(old(self).outcomes@[old(self).results@[j + 1] as int] is Some);
                                if self.results@[j] == t {
                                    assert(self.results@.to_multiset().count(t) > 0);
                                }
                            }
                            assert forall|k: int, u: u64|
                                0 <= k < self.workers@.len() && self.workers@[k]
                                    == WorkerPhase::<u64, u64>::Delivering(u) implies self.outcomes@[u as int] is Some by {
                                assert(holds_ticket(self.workers@[k], u));
                                assert(old(self).workers@[k] == self.workers@[k]);
                                if u == t {
                                    lemma_held_contains(self.workers@, k, u);
                                }
                                assert(u < old(self).next_record);
                                assert(old(self).outcomes@[u as int] is Some);
                                assert(self.outcomes@[u as int] == old(self).outcomes@[u as int]);
                            }
                            assert forall|k: int|
                                0 <= k < self.collected@.len() implies (#[trigger] self.collected@[k]).identifier@
                                    == self.records@[self.collected_tickets@[k] as int].identifier@ by {
                                if k < old(self).collected@.len() {
                                    assert(self.collected@[k] == old(self).collected@[k]);
                                }
                            }
                        }
                    },
                    None => {
                        proof {
                            assert(self.places() =~= old(self).places());
                        }
                    },
                }
                self.collector = next;
            },
            CollectorPhase::CheckingWorkers => {
                let all = self.all_workers_terminated();
                let (next, _) = collector_next(self.collector, CollectorEvent::<u64>::WorkersRead(all));
                self.collector = next;
            },
            CollectorPhase::Complete => {},
        }
    }


    proof fn lemma_measure_bounds(&self)
        requires
            self.inv(),
        ensures
            self.potential() >= 0,
            self.rank() >= 0,
    {
        lemma_measures_nonnegative(self.workers@, self.shutdown, self.work@.len() == 0);
    }

    /// In every state short of completion some actor can take a step that advances.
    proof fn lemma_progress(&self)
        requires
            self.inv(),
            !self.is_complete(),
            !self.advances(Actor::Producer),
            forall|i: usize| i < self.workers@.len() ==> !self.advances(Actor::Worker(i)),
        ensures
            self.advances(Actor::Collector),
    {
        assert forall|i: int| 0 <= i < self.workers@.len() implies (#[trigger] self.workers@[i] is Terminated)
            || (self.workers@[i] is WaitingForWork && self.work@.len() == 0 && !self.shutdown)
            || (self.workers@[i] is Delivering && self.results.is_full_spec()) by {
            let u = i as usize;
            assert(u as int == i);
            assert(!self.advances(Actor::Worker(u)));
        }
        if self.collector is Polling && self.results@.len() == 0 && !all_terminated(self.workers@) {
            let i = choose|i: int| 0 <= i < self.workers@.len() && !(#[trigger] self.workers@[i] is Terminated);
            assert(self.workers@[i] is WaitingForWork);
            assert(self.work@.len() == 0 && !self.shutdown);
        }
    }

    fn producer_can_advance(&self) -> (r: bool)
        requires
            self.inv(),
        ensures
            r == self.advances(Actor::Producer),
    {
        match self.producer {
            ProducerPhase::Submitting(_) => !self.work.is_full(),
            ProducerPhase::Finished => false,
            _ => true,
        }
    }

    fn worker_can_advance(&self, i: usize) -> (r: bool)
        requires
            self.inv(),
            i < self.workers@.len(),
        ensures
            r == self.advances(Actor::Worker(i)),
    {
        match self.workers[i] {
            WorkerPhase::WaitingForWork => !self.work.is_empty() || self.shutdown,
            WorkerPhase::Delivering(_) => !self.results.is_full(),
            WorkerPhase::Terminated => false,
            _ => true,
        }
    }

    /// The first actor, producer first, then the workers in order, then the collector, whose
    /// step advances.
    fn pick(&self) -> (a: Actor)
        requires
            self.inv(),
            !self.is_complete(),
        ensures
            self.advances(a),
            a matches Actor::Worker(i) ==> i < self.workers@.len(),
    {
        if self.producer_can_advance() {
            return Actor::Producer;
        }
        let mut i: usize = 0;
        while i < self.workers.len()
            invariant
                self.inv(),
                !self.is_complete(),
                !self.advances(Actor::Producer),
                i <= self.workers@.len(),
                forall|j: usize| j < i ==> !self.advances(Actor::Worker(j)),
            decreases self.workers@.len() - i,
        {
            if self.worker_can_advance(i) {
                return Actor::Worker(i);
            }
            i = i + 1;
        }
        proof {
            self.lemma_progress();
        }
        Actor::Collector
    }

    /// Runs the actors until the collector has confirmed completion.
    pub fn run(&mut self)
        requires
            old(self).inv(),
        ensures
            final(self).inv(),
            final(self).is_complete(),
            final(self).records_spec() == old(self).records_spec(),
            final(self).worker_count() == old(self).worker_count(),
            final(self).aligner_spec() == old(self).aligner_spec(),
            final(self).index_spec() == old(self).index_spec(),
    {
        while !matches!(self.collector, CollectorPhase::Complete)
            invariant
                self.inv(),
                self.records_spec() == old(self).records_spec(),
                self.worker_count() == old(self).worker_count(),
                self.aligner_spec() == old(self).aligner_spec(),
                self.index_spec() == old(self).index_spec(),
            decreases self.potential(), self.rank(),
        {
            proof {
                self.lemma_measure_bounds();
            }
            let actor = self.pick();
            match actor {
                Actor::Producer => self.step_producer(),
                Actor::Worker(i) => self.step_worker(i),
                Actor::Collector => self.step_collector(),
            }
            proof {
                self.lemma_measure_bounds();
            }
        }
    }


    /// Once complete, every record has been collected exactly once.
    pub proof fn lemma_complete_accounts_for_all(&self)
        requires
            self.inv(),
            self.is_complete(),
        ensures
            answers_each_once(self.collected_spec(), self.records_spec(), self.collected_order()),
            outcomes_from(
                self.collected_spec(),
                self.records_spec(),
                self.collected_order(),
                self.aligner_spec(),
                self.index_spec(),
            ),
    {
        let ws = self.workers@;
        assert(ws[0] is Terminated);
        lemma_held_none(ws);
        let n = self.records@.len();
        assert(self.next_record == n);
        let order = self.collected_tickets@;
        assert(order.to_multiset() =~= submitted(n));
        lemma_submitted_len(n);
        assert forall|x: u64| order.to_multiset().contains(x) implies order.to_multiset().count(x) == 1 by {
            lemma_submitted_count(n, x);
        }
        order.lemma_multiset_has_no_duplicates_conv();
    }

    /// The collected results, in the order they were collected.
    pub fn into_results(self) -> (r: Vec<ResultItem<M>>)
        ensures
            r@ == self.collected_spec(),
    {
        self.collected
    }


    /// How many records the producer has pushed onto the work queue.
    pub closed spec fn submitted_count(&self) -> nat {
        self.next_record as nat
    }

    /// However the producer's setting of the shutdown flag interleaves with the workers' polls,
    /// a worker has terminated only once the flag is set, every record has been submitted and
    /// the work queue is empty: no queued record is ever left without a worker to take it.
    pub proof fn lemma_shutdown_race_safe(&self)
        requires
            self.inv(),
        ensures
            forall|i: int|
                0 <= i < self.worker_count() && (#[trigger] self.worker_phase(i)) is Terminated
                    ==> self.shutdown_spec() && self.work_len() == 0 && self.submitted_count()
                    == self.records_spec().len(),
    {
    }

    /// No interleaving deadlocks: short of completion, some actor has a step that either
    /// moves a record on or brings a poll closer to one that does.
    pub proof fn lemma_some_actor_advances(&self)
        requires
            self.inv(),
            !self.is_complete(),
        ensures
            exists|a: Actor| #[trigger] self.advances(a),
    {
        if !self.advances(Actor::Producer) && forall|i: usize|
            i < self.workers@.len() ==> !self.advances(Actor::Worker(i)) {
            self.lemma_progress();
            assert(self.advances(Actor::Collector));
        } else if !self.advances(Actor::Producer) {
            let i = choose|i: usize| i < self.workers@.len() && self.advances(Actor::Worker(i));
            assert(self.advances(Actor::Worker(i)));
        } else {
            assert(self.advances(Actor::Producer));
        }
    }


    /// Whether the collector has confirmed completion.
    pub fn complete(&self) -> (r: bool)
        ensures
            r == self.is_complete(),
    {
        matches!(self.collector, CollectorPhase::Complete)
    }

    /// Whether the producer has set the shutdown flag.
    pub fn shutdown_set(&self) -> (r: bool)
        ensures
            r == self.shutdown_spec(),
    {
        self.shutdown
    }

    /// The number of records waiting in the work queue.
    pub fn queued_work(&self) -> (r: usize)
        ensures
            r == self.work_len(),
    {
        self.work.len()
    }

    /// The phase worker `i` is in.
    pub fn worker_phase_of(&self, i: usize) -> (r: WorkerPhase<u64, u64>)
        requires
            i < self.worker_count(),
        ensures
            r == self.worker_phase(i as int),
    {
        self.workers[i]
    }

    /// The number of results collected so far.
    pub fn collected_count(&self) -> (r: usize)
        ensures
            r == self.collected_spec().len(),
    {
        self.collected.len()
    }

    pub open spec fn measure_below(&self, other: &Self) -> bool {
        self.potential() < other.potential() || (self.potential() == other.potential()
            && self.rank() < other.rank())
    }
}


/// Runs the pipeline over `records` with `config.thread_count` workers sharing `index`, and
/// returns one result per record, in the order the collector received them.
pub fn run_pipeline<R, M, F: Fn(&R, &WorkItem) -> Result<Vec<M>, AlignError>>(
    config: PipelineConfig,
    records: Vec<WorkItem>,
    index: IndexHandle<R>,
    aligner: F,
) -> (r: Result<Vec<ResultItem<M>>, ConfigError>)
    requires
        forall|x: &R, w: &WorkItem| call_requires(aligner, (x, w)),
    ensures
        r is Err <==> config_check(config) is Err,
        r matches Err(e) ==> config_check(config) == Err::<(), ConfigError>(e),
        r is Ok ==> exists|order: Seq<u64>|
            #[trigger] answers_each_once(r->Ok_0@, records@, order) && outcomes_from(
                r->Ok_0@,
                records@,
                order,
                aligner,
                index@,
            ),
        r is Ok ==> r->Ok_0@.map_values(|x: ResultItem<M>| x.identifier@).to_multiset()
            =~= records@.map_values(|w: WorkItem| w.identifier@).to_multiset(),
{
    let ghost recs = records@;
    let record_count = records.len();
    assert(recs.len() == record_count && recs.len() <= u64::MAX);
    let ghost al = aligner;
    let ghost ix = index@;
    let mut pipeline = match Pipeline::new(config, records, index, aligner) {
        Ok(p) => p,
        Err(e) => {
            return Err(e);
        },
    };
    pipeline.run();
    proof {
        pipeline.lemma_complete_accounts_for_all();
    }
    let ghost order = pipeline.collected_order();
    let results = pipeline.into_results();
    let r: Result<Vec<ResultItem<M>>, ConfigError> = Ok(results);
    assert(answers_each_once(r->Ok_0@, recs, order) && outcomes_from(r->Ok_0@, recs, order, al, ix));
    proof {
        lemma_identifiers_preserved(r->Ok_0@, recs, order);
    }
    r
}

} // verus!
