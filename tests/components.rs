use minimap2::{
    check_index_source, collector_next, count_fasta_entries, junction_score, producer_next,
    revcomp_splice, worker_next, BoundedQueue, BuildError, CollectorEvent, CollectorPhase,
    IndexHandle, IndexSource, ProducerEvent, ProducerPhase, ShareCount, StepSchedule, StepSlot,
    WorkerEvent, WorkerPhase,
};
use std::sync::atomic::{AtomicUsize, Ordering};
use std::sync::Arc;

#[test]
fn queue_is_fifo_and_hands_back_on_full() {
    let mut q = BoundedQueue::new(2);
    assert_eq!(q.capacity(), 2);
    assert!(q.is_empty());
    assert_eq!(q.push(7), Ok(()));
    assert_eq!(q.push(9), Ok(()));
    assert!(q.is_full());
    assert_eq!(q.push(11), Err(11));
    assert_eq!(q.len(), 2);
    assert_eq!(q.pop(), Some(7));
    assert_eq!(q.pop(), Some(9));
    assert_eq!(q.pop(), None);
    assert!(q.is_empty());
}

#[test]
fn queue_of_one_slot() {
    let mut q = BoundedQueue::new(1);
    assert_eq!(q.push(3), Ok(()));
    assert_eq!(q.push(4), Err(4));
    assert_eq!(q.pop(), Some(3));
    assert_eq!(q.push(4), Ok(()));
    assert_eq!(q.pop(), Some(4));
}

struct CountedIndex {
    destroyed: Arc<AtomicUsize>,
    n_seq: u32,
}

impl Drop for CountedIndex {
    fn drop(&mut self) {
        self.destroyed.fetch_add(1, Ordering::SeqCst);
    }
}

#[test]
fn index_destroyed_once_after_last_handle() {
    let destroyed = Arc::new(AtomicUsize::new(0));
    let first = IndexHandle::build(CountedIndex { destroyed: destroyed.clone(), n_seq: 2 });
    let clones: Vec<IndexHandle<CountedIndex>> = (0..5).map(|_| first.share()).collect();
    for c in &clones {
        assert_eq!(c.get().n_seq, 2);
    }
    drop(first);
    assert_eq!(destroyed.load(Ordering::SeqCst), 0);
    let mut clones = clones;
    while clones.len() > 1 {
        clones.remove(clones.len() / 2);
        assert_eq!(destroyed.load(Ordering::SeqCst), 0);
    }
    drop(clones);
    assert_eq!(destroyed.load(Ordering::SeqCst), 1);
}

#[test]
fn share_count_fires_on_last_release_only() {
    let mut c = ShareCount::new();
    c.acquire();
    c.acquire();
    assert_eq!(c.live(), 3);
    assert!(!c.release());
    c.acquire();
    assert!(!c.release());
    assert!(!c.release());
    assert_eq!(c.destroyed(), 0);
    assert!(c.release());
    assert_eq!(c.live(), 0);
    assert_eq!(c.destroyed(), 1);
}

#[test]
fn index_source_checks_in_order() {
    let ok = IndexSource { path: b"test_data/MT-human.fa".to_vec(), exists: true, byte_len: 17, output: None };
    assert_eq!(check_index_source(&ok), Ok(()));
    let bad_path = IndexSource { path: b"\0invalid_\0path\0".to_vec(), exists: false, byte_len: 0, output: None };
    assert_eq!(check_index_source(&bad_path), Err(BuildError::InvalidPath));
    let missing = IndexSource { path: b"test_data/file-does-not-exist".to_vec(), exists: false, byte_len: 0, output: None };
    assert_eq!(check_index_source(&missing), Err(BuildError::Missing));
    let empty = IndexSource { path: b"test_data/empty.fa".to_vec(), exists: true, byte_len: 0, output: None };
    assert_eq!(check_index_source(&empty), Err(BuildError::Empty));
    let bad_out = IndexSource {
        path: b"test_data/MT-human.fa".to_vec(),
        exists: true,
        byte_len: 17,
        output: Some(b"test\0test".to_vec()),
    };
    assert_eq!(check_index_source(&bad_out), Err(BuildError::InvalidOutput));
}

#[test]
fn worker_transitions() {
    type P = WorkerPhase<u32, u32>;
    assert_eq!(worker_next(P::WaitingForWork, WorkerEvent::Popped(Some(5))), P::Processing(5));
    assert_eq!(worker_next(P::WaitingForWork, WorkerEvent::Popped(None)), P::CheckingShutdown);
    assert_eq!(worker_next(P::CheckingShutdown, WorkerEvent::ShutdownRead(false)), P::WaitingForWork);
    assert_eq!(worker_next(P::CheckingShutdown, WorkerEvent::ShutdownRead(true)), P::CheckingDrained);
    assert_eq!(worker_next(P::CheckingDrained, WorkerEvent::DrainedRead(false)), P::WaitingForWork);
    assert_eq!(worker_next(P::CheckingDrained, WorkerEvent::DrainedRead(true)), P::Terminated);
    assert_eq!(worker_next(P::Processing(5), WorkerEvent::Aligned(8)), P::Delivering(8));
    assert_eq!(worker_next(P::Delivering(8), WorkerEvent::Pushed(Err(8))), P::Delivering(8));
    assert_eq!(worker_next(P::Delivering(8), WorkerEvent::Pushed(Ok(()))), P::WaitingForWork);
    assert_eq!(worker_next(P::Terminated, WorkerEvent::Popped(Some(1))), P::Terminated);
}

#[test]
fn producer_transitions() {
    type P = ProducerPhase<u32>;
    assert_eq!(producer_next(P::Reading, ProducerEvent::Read(Some(4))), P::Submitting(4));
    assert_eq!(producer_next(P::Submitting(4), ProducerEvent::Pushed(Err(4))), P::Submitting(4));
    assert_eq!(producer_next(P::Submitting(4), ProducerEvent::Pushed(Ok(()))), P::Reading);
    assert_eq!(producer_next(P::Reading, ProducerEvent::Read(None)), P::Finishing);
    assert_eq!(producer_next(P::Finishing, ProducerEvent::ShutdownSet), P::Finished);
    assert_eq!(producer_next(P::Reading, ProducerEvent::ShutdownSet), P::Reading);
}

#[test]
fn collector_transitions() {
    assert_eq!(collector_next(CollectorPhase::Polling, CollectorEvent::Popped(Some(3))), (CollectorPhase::Polling, Some(3)));
    assert_eq!(collector_next(CollectorPhase::Polling, CollectorEvent::<u8>::Popped(None)), (CollectorPhase::CheckingWorkers, None));
    assert_eq!(collector_next(CollectorPhase::CheckingWorkers, CollectorEvent::<u8>::WorkersRead(false)), (CollectorPhase::Polling, None));
    assert_eq!(collector_next(CollectorPhase::CheckingWorkers, CollectorEvent::<u8>::WorkersRead(true)), (CollectorPhase::ConfirmingDrained, None));
    assert_eq!(collector_next(CollectorPhase::ConfirmingDrained, CollectorEvent::Popped(Some(2))), (CollectorPhase::Polling, Some(2)));
    assert_eq!(collector_next(CollectorPhase::ConfirmingDrained, CollectorEvent::<u8>::Popped(None)), (CollectorPhase::Complete, None));
}

#[test]
fn step_schedule_orders_batches() {
    let mut s = StepSchedule::new(2, 3);
    assert_eq!(s.slot(0), StepSlot { step: 0, batch: 0 });
    assert_eq!(s.slot(1), StepSlot { step: 0, batch: 1 });
    assert!(s.can_proceed(0));
    assert!(!s.can_proceed(1));
    assert!(!s.finish_step(0, true));
    assert_eq!(s.slot(0), StepSlot { step: 1, batch: 0 });
    assert!(s.can_proceed(1));
    assert!(!s.finish_step(0, true));
    assert!(!s.finish_step(0, false));
    assert_eq!(s.slot(0), StepSlot { step: 0, batch: 2 });
    assert!(!s.can_proceed(0));
    assert!(!s.finish_step(1, true));
    assert!(s.finish_step(1, false));
    assert_eq!(s.slot(1), StepSlot { step: 3, batch: 1 });
    assert!(s.can_proceed(0));
}

#[test]
fn counts_fasta_headers_at_line_starts() {
    let fasta = b">Hello\nACTGCATCACTGACCTA\n>Second\nACTTGCAACTTGGGACACAACATGTA\n";
    assert_eq!(count_fasta_entries(fasta), 2);
    assert_eq!(count_fasta_entries(b""), 0);
    assert_eq!(count_fasta_entries(b"ACGT>x\n>y\n>z"), 2);
    assert_eq!(count_fasta_entries(b">Hello\nACTGCATCACTGACCTA\n>Second\nACTTGCAACTTGGGACACAACATGTA\n>Third  \nACTGCA\nACTGCA\nNNNNN"), 3);
}

#[test]
fn revcomp_of_splice_sites() {
    let mut s = [2u8, 3u8];
    revcomp_splice(&mut s);
    assert_eq!(s, [0, 1]);
    let mut n = [4u8, 0u8];
    revcomp_splice(&mut n);
    assert_eq!(n, [3, 4]);
}

#[test]
fn junction_scores() {
    assert_eq!(junction_score([2, 3], [0, 2], false), 6);
    assert_eq!(junction_score([2, 1], [0, 1], false), 3);
    assert_eq!(junction_score([0, 3], [1, 1], false), 1);
    assert_eq!(junction_score([3, 3], [3, 3], false), 0);
    // On the reverse strand: CT..AC reads as GT..AG.
    assert_eq!(junction_score([1, 3], [0, 1], true), 6);
}

#[test]
fn index_from_source_checks_before_building() {
    let missing = IndexSource { path: b"test_FILE_NOT_FOUND.fa".to_vec(), exists: false, byte_len: 0, output: None };
    let r = IndexHandle::from_source(&missing, |_: &IndexSource| -> Result<u32, BuildError> {
        panic!("the builder must not run on a refused source")
    });
    assert_eq!(r.err(), Some(BuildError::Missing));

    let present = IndexSource { path: b"test_data/test_data.fasta".to_vec(), exists: true, byte_len: 10, output: None };
    let r = IndexHandle::from_source(&present, |s: &IndexSource| -> Result<u32, BuildError> { Ok(s.byte_len as u32 * 2) });
    assert_eq!(*r.unwrap().get(), 20);

    let r = IndexHandle::from_source(&present, |_: &IndexSource| -> Result<u32, BuildError> { Err(BuildError::Empty) });
    assert_eq!(r.err(), Some(BuildError::Empty));
}

#[test]
fn only_later_steps_take_the_carried_batch() {
    let mut s = StepSchedule::new(1, 3);
    assert!(!s.takes_carried(0));
    assert!(!s.finish_step(0, true));
    assert!(s.takes_carried(0));
    assert!(!s.finish_step(0, true));
    assert!(s.takes_carried(0));
    assert!(!s.finish_step(0, true));
    assert_eq!(s.slot(0), StepSlot { step: 0, batch: 1 });
    assert!(!s.takes_carried(0));
}
