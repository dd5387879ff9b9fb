//! A work-distribution pipeline for aligning sequence records against a shared, read-only
//! index: bounded queues, the worker, producer and collector state machines, shutdown-and-drain
//! coordination and the reference-counted index handle, with their contracts.
//!
//! - `queue`: the bounded FIFO the actors hand records through.
//! - `actors`: each actor's next phase from its phase and what it observed.
//! - `pipeline`: the shared state, one atomic step per actor, the invariant every interleaving
//!   keeps, and a run that provably completes with every record answered once.
//! - `index`: the shared index handle and the discipline that destroys the index once.
//! - `aggregate`: totals over results, and the single-threaded reference loop.
//! - `stages`: the schedule of a step-ordered pipeline that passes batches through each step
//!   in order.
//! - `types`, `fasta`, `splice`: the records an alignment produces and small helpers on them.
pub mod actors;
pub mod aggregate;
pub mod fasta;
pub mod index;
pub mod pipeline;
pub mod queue;
pub mod splice;
pub mod stages;
pub mod types;

pub use actors::{
    collector_next, producer_next, worker_next, CollectorEvent, CollectorPhase, ProducerEvent,
    ProducerPhase, WorkerEvent, WorkerPhase,
};
pub use aggregate::{align_sequentially, total_mappings};
pub use fasta::count_fasta_entries;
pub use index::{check_index_source, BuildError, HandleOp, IndexHandle, IndexSource, ShareCount};
pub use pipeline::{
    check_config, run_pipeline, Actor, AlignError, ConfigError, Pipeline, PipelineConfig,
    ResultItem, WorkItem,
};
pub use queue::{BoundedQueue, MAX_QUEUE_CAPACITY};
pub use splice::{junction_score, revcomp_splice};
pub use stages::{StepSchedule, StepSlot};
pub use types::{
    AcceptsParams, Alignment, AlignmentType, BuilderState, Built, FileFormat, IdxOpt, Junction,
    MMIndex, MapOpt, Mapping, Preset, PresetSet, QuerySequence, SeqMetaData, Strand,
    ThreadLocalBuffer, Unset,
};
