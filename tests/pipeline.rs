use minimap2::{
    align_sequentially, check_config, run_pipeline, total_mappings, AlignError, ConfigError,
    IndexHandle, MMIndex, Mapping, Pipeline, PipelineConfig, ResultItem, SeqMetaData, WorkItem,
    WorkerPhase,
};
use std::sync::Arc;

fn reference() -> MMIndex {
    MMIndex {
        seqs: vec![SeqMetaData { name: "contig4".to_string(), length: 3360, is_alt: false }],
    }
}

/// Stands in for the alignment call: one mapping per started 4 bases, none for the rest, and
/// a failure on an empty sequence.
fn fake_align(index: &MMIndex, item: &WorkItem) -> Result<Vec<Mapping>, AlignError> {
    if item.payload.is_empty() {
        return Err(AlignError { reason: "Sequence is empty".to_string() });
    }
    let hits = (item.payload.len() + 3) / 4 % 5;
    let name = Arc::new(String::from_utf8(item.identifier.clone()).unwrap());
    let target = Arc::new(index.seqs[0].name.clone());
    Ok((0..hits)
        .map(|k| Mapping {
            query_name: Some(name.clone()),
            query_len: Some(item.payload.len() as i32),
            target_name: Some(target.clone()),
            target_start: k as i32 * 10,
            ..Mapping::default()
        })
        .collect())
}

fn records(n: usize) -> Vec<WorkItem> {
    (0..n)
        .map(|i| WorkItem {
            identifier: format!("read{}", i).into_bytes(),
            payload: b"ACGT".iter().cycle().take(3 + 5 * i).cloned().collect(),
        })
        .collect()
}

fn sorted_ids<M>(results: &[ResultItem<M>]) -> Vec<Vec<u8>> {
    let mut ids: Vec<Vec<u8>> = results.iter().map(|r| r.identifier.clone()).collect();
    ids.sort();
    ids
}

fn config(thread_count: usize, queue_capacity: usize) -> PipelineConfig {
    PipelineConfig { thread_count, queue_capacity }
}

#[test]
fn four_slots_two_workers_ten_records() {
    let input = records(10);
    let index = IndexHandle::build(reference());
    let expected = align_sequentially(&input, &index, fake_align);
    let results = run_pipeline(config(2, 4), records(10), index.share(), fake_align).unwrap();
    assert_eq!(results.len(), 10);
    assert_eq!(total_mappings(&results), total_mappings(&expected));
    assert_eq!(total_mappings(&results), 17);
}

#[test]
fn one_slot_one_worker_three_records() {
    let index = IndexHandle::build(reference());
    let expected = align_sequentially(&records(3), &index, fake_align);
    let results = run_pipeline(config(1, 1), records(3), index.share(), fake_align).unwrap();
    assert_eq!(results.len(), 3);
    assert_eq!(sorted_ids(&results), sorted_ids(&expected));
    assert_eq!(total_mappings(&results), total_mappings(&expected));
}

#[test]
fn empty_source_completes_with_no_results() {
    let index = IndexHandle::build(reference());
    let results = run_pipeline(config(3, 2), Vec::new(), index, fake_align).unwrap();
    assert!(results.is_empty());
}

#[test]
fn zero_threads_or_zero_capacity_is_refused() {
    let index = IndexHandle::build(reference());
    let r = run_pipeline(config(0, 4), records(2), index.share(), fake_align);
    assert_eq!(r.err(), Some(ConfigError::NoThreads));
    let r = run_pipeline(config(2, 0), records(2), index.share(), fake_align);
    assert_eq!(r.err(), Some(ConfigError::NoQueueCapacity));
    let r = run_pipeline(config(2, minimap2::MAX_QUEUE_CAPACITY + 1), records(2), index, fake_align);
    assert_eq!(r.err(), Some(ConfigError::QueueCapacityTooLarge));
}

#[test]
fn check_config_accepts_positive_settings() {
    assert_eq!(check_config(&config(1, 1)), Ok(()));
    assert_eq!(check_config(&config(0, 0)), Err(ConfigError::NoThreads));
    assert_eq!(check_config(&config(8, minimap2::MAX_QUEUE_CAPACITY)), Ok(()));
    assert_eq!(check_config(&config(1, 0x100_0001)), Ok(()));
}

#[test]
fn every_record_answered_exactly_once() {
    let index = IndexHandle::build(reference());
    for threads in 1..5 {
        for capacity in 1..5 {
            let results =
                run_pipeline(config(threads, capacity), records(7), index.share(), fake_align)
                    .unwrap();
            assert_eq!(results.len(), 7);
            let ids = sorted_ids(&results);
            let mut want: Vec<Vec<u8>> = records(7).into_iter().map(|w| w.identifier).collect();
            want.sort();
            assert_eq!(ids, want);
        }
    }
}

#[test]
fn result_outcome_belongs_to_its_record() {
    let index = IndexHandle::build(reference());
    let results = run_pipeline(config(3, 2), records(6), index, fake_align).unwrap();
    for r in &results {
        let i: usize = String::from_utf8(r.identifier.clone()).unwrap()[4..].parse().unwrap();
        let mappings = r.outcome.as_ref().unwrap();
        assert_eq!(mappings.len(), (3 + 5 * i + 3) / 4 % 5);
        for m in mappings {
            assert_eq!(m.query_name.as_deref().map(|s| s.as_bytes()), Some(r.identifier.as_slice()));
        }
    }
}

#[test]
fn failed_alignment_is_carried_not_dropped() {
    let mut input = records(3);
    input[1].payload.clear();
    let index = IndexHandle::build(reference());
    let results = run_pipeline(config(2, 1), input, index, fake_align).unwrap();
    assert_eq!(results.len(), 3);
    let failed: Vec<&ResultItem<Mapping>> = results.iter().filter(|r| r.outcome.is_err()).collect();
    assert_eq!(failed.len(), 1);
    assert_eq!(failed[0].identifier, b"read1".to_vec());
    assert_eq!(
        failed[0].outcome.as_ref().err().map(|e| e.reason.as_str()),
        Some("Sequence is empty")
    );
}

#[test]
fn worker_keeps_going_when_work_arrives_with_the_shutdown_flag() {
    let index = IndexHandle::build(reference());
    let mut p = Pipeline::new(config(1, 1), records(1), index, fake_align).unwrap();
    // The worker finds the queue empty before anything is submitted.
    p.step_worker(0);
    assert_eq!(p.worker_phase_of(0), WorkerPhase::CheckingShutdown);
    // The producer submits the only record and sets the flag.
    p.step_producer();
    p.step_producer();
    p.step_producer();
    p.step_producer();
    assert!(p.shutdown_set());
    assert_eq!(p.queued_work(), 1);
    // The worker sees the flag, then a queue that is not drained, and goes back for work.
    p.step_worker(0);
    assert_eq!(p.worker_phase_of(0), WorkerPhase::CheckingDrained);
    p.step_worker(0);
    assert_eq!(p.worker_phase_of(0), WorkerPhase::WaitingForWork);
    p.step_worker(0);
    assert_eq!(p.worker_phase_of(0), WorkerPhase::Processing(0));
    p.run();
    assert!(p.complete());
    assert_eq!(p.collected_count(), 1);
    assert_eq!(p.worker_phase_of(0), WorkerPhase::Terminated);
}

#[test]
fn collector_waits_for_the_last_result() {
    let index = IndexHandle::build(reference());
    let mut p = Pipeline::new(config(1, 2), records(1), index, fake_align).unwrap();
    for _ in 0..4 {
        p.step_producer();
    }
    // The collector polls an empty result queue while the worker still holds the record.
    p.step_collector();
    p.step_worker(0);
    p.step_collector();
    assert!(!p.complete());
    p.step_worker(0);
    p.step_worker(0);
    assert_eq!(p.worker_phase_of(0), WorkerPhase::WaitingForWork);
    p.run();
    assert!(p.complete());
    assert_eq!(p.collected_count(), 1);
}

#[test]
fn aggregate_total_ignores_arrival_order() {
    let index = IndexHandle::build(reference());
    let forward = align_sequentially(&records(5), &index, fake_align);
    let mut reversed = align_sequentially(&records(5), &index, fake_align);
    reversed.reverse();
    assert_eq!(total_mappings(&forward), total_mappings(&reversed));
    assert_eq!(total_mappings(&forward), 1 + 2 + 4 + 0 + 1);
}

#[test]
fn sequential_alignment_keeps_record_order() {
    let index = IndexHandle::build(reference());
    let results = align_sequentially(&records(4), &index, fake_align);
    let ids: Vec<Vec<u8>> = results.iter().map(|r| r.identifier.clone()).collect();
    assert_eq!(ids, vec![b"read0".to_vec(), b"read1".to_vec(), b"read2".to_vec(), b"read3".to_vec()]);
}
