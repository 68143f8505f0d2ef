//! End-to-end behaviour of the engine: regulator windows, fan-out
//! backpressure, ordered and parallel pipelines, warm starts and
//! invalid checkpoints.

use std::cell::RefCell;
use std::rc::Rc;

use sui_indexer::broadcaster::{Broadcaster, IngestionPipeline};
use sui_indexer::ingestion::{
    IngestionMessage, InMemoryWatermarkStore, Regulator, WatermarkStore,
};
use sui_indexer::processor::{
    backoff_ms, CommitError, ConcurrentAction, ConcurrentPipeline, ExampleProcessor,
    PipelineError, ProcessError, Processor, SequentialPipeline, StepOutcome,
};
use sui_indexer::types::{
    CertifiedCheckpointSummary, CheckpointContents, CheckpointData, ProcessedData,
    ProcessingMetrics,
};

fn engine_checkpoint(seq: u64) -> CheckpointData {
    CheckpointData {
        checkpoint_summary: CertifiedCheckpointSummary {
            sequence_number: seq,
            checkpoint_digest: format!("digest-{}", seq),
            timestamp_ms: 1_000 * seq,
            network_name: "testnet".to_string(),
            previous_checkpoint_digest: None,
            epoch: 1,
            reference_gas_price: 1000,
            total_transactions: 0,
            total_gas_units: 0,
        },
        checkpoint_contents: CheckpointContents {
            transactions: vec![],
            user_signatures: vec![],
        },
        transactions: vec![],
    }
}

/// A processor that records every process and commit call.
struct RecordingProcessor {
    name: String,
    processed: Rc<RefCell<Vec<u64>>>,
    committed: Rc<RefCell<Vec<u64>>>,
    fail_process: Vec<u64>,
    fail_commits_left: Rc<RefCell<u64>>,
}

impl RecordingProcessor {
    fn new(name: &str) -> (Self, Rc<RefCell<Vec<u64>>>, Rc<RefCell<Vec<u64>>>) {
        let processed = Rc::new(RefCell::new(Vec::new()));
        let committed = Rc::new(RefCell::new(Vec::new()));
        (
            RecordingProcessor {
                name: name.to_string(),
                processed: processed.clone(),
                committed: committed.clone(),
                fail_process: Vec::new(),
                fail_commits_left: Rc::new(RefCell::new(0)),
            },
            processed,
            committed,
        )
    }
}

impl Processor for RecordingProcessor {
    fn process(&mut self, checkpoint: &CheckpointData) -> Result<ProcessedData, ProcessError> {
        let seq = checkpoint.checkpoint_summary.sequence_number;
        if self.fail_process.contains(&seq) {
            return Err(ProcessError::Failed("boom".to_string()));
        }
        self.processed.borrow_mut().push(seq);
        Ok(ProcessedData {
            checkpoint_sequence: seq,
            records: vec![],
            metrics: ProcessingMetrics {
                transaction_count: 0,
                event_count: 0,
                object_change_count: 0,
                processing_duration_ms: 0,
                records_created: 0,
            },
        })
    }

    fn commit(&mut self, data: &ProcessedData) -> Result<(), CommitError> {
        let mut left = self.fail_commits_left.borrow_mut();
        if *left > 0 {
            *left -= 1;
            return Err(CommitError::Failed("commit refused".to_string()));
        }
        self.committed.borrow_mut().push(data.checkpoint_sequence);
        Ok(())
    }

    fn name(&self) -> String {
        self.name.clone()
    }
}

#[test]
fn test_regulator_batch_calculation() {
    let mut regulator = Regulator::new(10);
    regulator.set_latest_checkpoint(100);
    // With no registered pipeline the low watermark degrades to the
    // latest available sequence, so there is nothing to fetch.
    assert!(regulator.get_next_batch().is_none());
    // With one registered pipeline at watermark 0 the first window is
    // one whole batch.
    regulator.update_watermark("p1", 0);
    let w = regulator.get_next_batch().unwrap();
    assert_eq!(w.start, 1);
    assert_eq!(w.end, 10);
}

#[test]
fn test_regulator_no_work_at_frontier() {
    // latest_available one below the start: NoWork, nothing published.
    let mut regulator = Regulator::new(25);
    regulator.update_watermark("p1", 7);
    regulator.set_latest_checkpoint(7);
    assert!(regulator.get_next_batch().is_none());
    assert!(!regulator.has_more_data());
}

#[test]
fn test_regulator_skips_invalid_sequence() {
    let mut regulator = Regulator::new(10);
    regulator.update_watermark("p1", 4);
    regulator.set_latest_checkpoint(6);
    regulator.skip(5);
    // The window starts past the permanently skipped sequence.
    let w = regulator.get_next_batch().unwrap();
    assert_eq!(w.start, 6);
    assert_eq!(w.end, 6);
    assert_eq!(regulator.skip_metric(), 1);
}

#[test]
fn test_regulator_slowest_pipeline_gates() {
    let mut regulator = Regulator::new(10);
    regulator.update_watermark("fast", 90);
    regulator.update_watermark("slow", 10);
    regulator.set_latest_checkpoint(100);
    let w = regulator.get_next_batch().unwrap();
    assert_eq!(w.start, 11);
    assert_eq!(w.end, 20);
    regulator.unregister("slow");
    let w2 = regulator.get_next_batch().unwrap();
    assert_eq!(w2.start, 91);
    assert_eq!(w2.end, 100);
}

#[test]
fn test_watermark_store() {
    let mut store = InMemoryWatermarkStore::new();
    store.update_watermark("pipeline1", 50).unwrap();
    let wm = store.get_watermark("pipeline1");
    assert_eq!(wm, 50);
}

#[test]
fn test_watermark_store_round_trip_and_reset() {
    let mut store = InMemoryWatermarkStore::new();
    assert_eq!(store.get_watermark("p"), 0);
    store.update_watermark("p", 7).unwrap();
    store.update_watermark("q", 9).unwrap();
    assert_eq!(store.get_watermark("p"), 7);
    assert_eq!(store.get_watermark("q"), 9);
    store.reset_watermark("p").unwrap();
    assert_eq!(store.get_watermark("p"), 0);
    assert_eq!(store.get_watermark("q"), 9);
}

#[test]
fn test_broadcaster_backpressure_bound() {
    let regulator = Regulator::new(10);
    let mut broadcaster = Broadcaster::new(regulator, 2);
    let h = broadcaster.subscribe();
    assert!(broadcaster.publish_checkpoint(engine_checkpoint(1), 10));
    assert!(broadcaster.publish_checkpoint(engine_checkpoint(2), 20));
    // The subscriber has two undelivered messages: capacity reached.
    assert!(!broadcaster.publish_checkpoint(engine_checkpoint(3), 30));
    // Draining one message frees one slot.
    let m = broadcaster.recv(h).unwrap();
    match &*m {
        IngestionMessage::Checkpoint(cp) => {
            assert_eq!(cp.checkpoint_summary.sequence_number, 1)
        }
        other => panic!("unexpected message {:?}", other),
    }
    assert!(broadcaster.publish_checkpoint(engine_checkpoint(3), 30));
    let progress = broadcaster.get_progress();
    assert_eq!(progress.last_fetched_checkpoint, 3);
    assert_eq!(progress.checkpoints_processed, 3);
}

#[test]
fn test_broadcaster_cold_start_subscriber_sees_no_history() {
    let regulator = Regulator::new(10);
    let mut broadcaster = Broadcaster::new(regulator, 10);
    let early = broadcaster.subscribe();
    assert!(broadcaster.publish_checkpoint(engine_checkpoint(1), 1));
    let late = broadcaster.subscribe();
    assert!(broadcaster.publish_checkpoint(engine_checkpoint(2), 2));
    // The late subscriber sees only what was published after it joined.
    let m = broadcaster.recv(late).unwrap();
    match &*m {
        IngestionMessage::Checkpoint(cp) => {
            assert_eq!(cp.checkpoint_summary.sequence_number, 2)
        }
        other => panic!("unexpected message {:?}", other),
    }
    assert!(broadcaster.recv(late).is_none());
    // The early one sees everything in publication order.
    let m1 = broadcaster.recv(early).unwrap();
    match &*m1 {
        IngestionMessage::Checkpoint(cp) => {
            assert_eq!(cp.checkpoint_summary.sequence_number, 1)
        }
        other => panic!("unexpected message {:?}", other),
    }
}

#[test]
fn test_broadcaster_idles_when_all_unregistered() {
    let regulator = Regulator::new(10);
    let mut broadcaster = Broadcaster::new(regulator, 10);
    broadcaster.register_subscriber("p1", 0);
    broadcaster.set_latest_checkpoint(50);
    assert!(broadcaster.next_window().is_some());
    broadcaster.unregister_subscriber("p1");
    // With every subscriber gone the low watermark degrades to the
    // latest available sequence and the broadcaster idles.
    assert!(broadcaster.next_window().is_none());
    assert!(!broadcaster.has_more_data());
}

#[test]
fn test_ordered_cold_start_batches_of_three() {
    let (processor, processed, committed) = RecordingProcessor::new("P1");
    let mut pipeline = SequentialPipeline::new("P1".to_string(), processor, 3);
    let mut store = InMemoryWatermarkStore::new();
    let mut messages: Vec<IngestionMessage> = (1..=10)
        .map(|s| IngestionMessage::Checkpoint(engine_checkpoint(s)))
        .collect();
    messages.push(IngestionMessage::Shutdown);
    let ranges = pipeline.run_messages(&messages, &mut store, 999).unwrap();
    assert_eq!(ranges, vec![(1, 3), (4, 6), (7, 9), (10, 10)]);
    assert_eq!(*processed.borrow(), (1..=10).collect::<Vec<u64>>());
    assert_eq!(*committed.borrow(), vec![3, 6, 9, 10]);
    assert_eq!(pipeline.get_watermark().checkpoint_sequence, 10);
    assert_eq!(store.get_watermark("P1"), 10);
}

#[test]
fn test_ordered_warm_start_skips_to_stored_watermark() {
    let mut store = InMemoryWatermarkStore::new();
    store.update_watermark("P1", 5).unwrap();
    let (processor, processed, _committed) = RecordingProcessor::new("P1");
    let mut pipeline = SequentialPipeline::new("P1".to_string(), processor, 1);
    pipeline.start(&store);
    let mut messages: Vec<IngestionMessage> = (1..=10)
        .map(|s| IngestionMessage::Checkpoint(engine_checkpoint(s)))
        .collect();
    messages.push(IngestionMessage::Shutdown);
    pipeline.run_messages(&messages, &mut store, 1).unwrap();
    // The first checkpoint handed to process is the first unseen one.
    assert_eq!(processed.borrow().first().copied(), Some(6));
    assert_eq!(*processed.borrow(), vec![6, 7, 8, 9, 10]);
    assert_eq!(pipeline.get_watermark().checkpoint_sequence, 10);
    assert_eq!(store.get_watermark("P1"), 10);
}

#[test]
fn test_ordered_batch_of_one_commits_each_checkpoint() {
    let (processor, _processed, committed) = RecordingProcessor::new("P1");
    let mut pipeline = SequentialPipeline::new("P1".to_string(), processor, 1);
    let mut store = InMemoryWatermarkStore::new();
    let messages: Vec<IngestionMessage> = (1..=4)
        .map(|s| IngestionMessage::Checkpoint(engine_checkpoint(s)))
        .collect();
    let ranges = pipeline.run_messages(&messages, &mut store, 1).unwrap();
    // Every checkpoint commits individually; the watermark advances by
    // one per commit.
    assert_eq!(ranges, vec![(1, 1), (2, 2), (3, 3), (4, 4)]);
    assert_eq!(*committed.borrow(), vec![1, 2, 3, 4]);
}

#[test]
fn test_ordered_watermark_jumps_over_invalid_sequence() {
    // Sequence 5 failed verification upstream: the pipeline sees an
    // error message instead of a checkpoint for it.
    let (processor, processed, _committed) = RecordingProcessor::new("P1");
    let mut pipeline = SequentialPipeline::new("P1".to_string(), processor, 3);
    let mut store = InMemoryWatermarkStore::new();
    let mut messages: Vec<IngestionMessage> = Vec::new();
    for s in 1..=6 {
        if s == 5 {
            messages.push(IngestionMessage::Error("invalid checkpoint 5".to_string()));
        } else {
            messages.push(IngestionMessage::Checkpoint(engine_checkpoint(s)));
        }
    }
    messages.push(IngestionMessage::Shutdown);
    let ranges = pipeline.run_messages(&messages, &mut store, 1).unwrap();
    assert!(!processed.borrow().contains(&5));
    assert_eq!(pipeline.get_watermark().checkpoint_sequence, 6);
    assert_eq!(pipeline.error_metric(), 1);
    assert_eq!(ranges, vec![(1, 3), (4, 6)]);
}

#[test]
fn test_ordered_process_error_not_committed() {
    let (mut processor, _processed, committed) = RecordingProcessor::new("P1");
    processor.fail_process = vec![2];
    let mut pipeline = SequentialPipeline::new("P1".to_string(), processor, 1);
    let mut store = InMemoryWatermarkStore::new();
    let m1 = IngestionMessage::Checkpoint(engine_checkpoint(1));
    let m2 = IngestionMessage::Checkpoint(engine_checkpoint(2));
    assert!(matches!(
        pipeline.handle_message(&m1, &mut store, 1).unwrap(),
        StepOutcome::Committed { from: 1, to: 1 }
    ));
    assert!(matches!(
        pipeline.handle_message(&m2, &mut store, 2).unwrap(),
        StepOutcome::ProcessFailed
    ));
    assert_eq!(pipeline.get_watermark().checkpoint_sequence, 1);
    assert_eq!(pipeline.error_metric(), 1);
    assert_eq!(*committed.borrow(), vec![1]);
}

#[test]
fn test_ordered_commit_retry_then_success() {
    let (processor, _processed, committed) = RecordingProcessor::new("P1");
    let fails = processor.fail_commits_left.clone();
    *fails.borrow_mut() = 2;
    let mut pipeline = SequentialPipeline::new("P1".to_string(), processor, 1);
    let mut store = InMemoryWatermarkStore::new();
    let m1 = IngestionMessage::Checkpoint(engine_checkpoint(1));
    let step = pipeline.handle_message(&m1, &mut store, 1).unwrap();
    match step {
        StepOutcome::CommitRetry { attempt, backoff_ms } => {
            assert_eq!(attempt, 1);
            assert_eq!(backoff_ms, 200);
        }
        other => panic!("unexpected outcome {:?}", other),
    }
    let step2 = pipeline.commit_batch(&mut store, 2).unwrap();
    assert!(matches!(step2, StepOutcome::CommitRetry { attempt: 2, .. }));
    let step3 = pipeline.commit_batch(&mut store, 3).unwrap();
    assert!(matches!(step3, StepOutcome::Committed { from: 1, to: 1 }));
    assert_eq!(*committed.borrow(), vec![1]);
    assert_eq!(store.get_watermark("P1"), 1);
}

#[test]
fn test_ordered_commit_exhaustion_is_fatal() {
    let (processor, _processed, _committed) = RecordingProcessor::new("P1");
    let fails = processor.fail_commits_left.clone();
    *fails.borrow_mut() = 100;
    let mut pipeline = SequentialPipeline::new("P1".to_string(), processor, 1);
    let mut store = InMemoryWatermarkStore::new();
    let messages = vec![IngestionMessage::Checkpoint(engine_checkpoint(1))];
    let r = pipeline.run_messages(&messages, &mut store, 1);
    assert!(matches!(r, Err(PipelineError::CommitExhausted)));
    assert_eq!(pipeline.get_watermark().checkpoint_sequence, 0);
}

#[test]
fn test_backoff_schedule() {
    assert_eq!(backoff_ms(0), 100);
    assert_eq!(backoff_ms(1), 200);
    assert_eq!(backoff_ms(2), 400);
    assert_eq!(backoff_ms(3), 800);
    assert_eq!(backoff_ms(6), 6400);
    assert_eq!(backoff_ms(7), 10000);
    assert_eq!(backoff_ms(20), 10000);
}

#[test]
fn test_concurrent_out_of_order_watermark() {
    let (processor, _processed, _committed) = RecordingProcessor::new("P2");
    let mut pipeline = ConcurrentPipeline::new("P2".to_string(), processor, 4);
    let mut store = InMemoryWatermarkStore::new();
    for s in 1..=4 {
        let m = IngestionMessage::Checkpoint(engine_checkpoint(s));
        assert!(matches!(
            pipeline.handle_message(&m),
            ConcurrentAction::Spawn
        ));
    }
    // A fifth admission is refused until a task finishes.
    let m5 = IngestionMessage::Checkpoint(engine_checkpoint(5));
    assert!(matches!(
        pipeline.handle_message(&m5),
        ConcurrentAction::Saturated
    ));
    // Tasks finish out of order; the watermark records the highest
    // committed sequence and never moves backwards.
    pipeline.on_task_done(2, true, &mut store, 10).unwrap();
    assert_eq!(pipeline.get_watermark().checkpoint_sequence, 2);
    pipeline.on_task_done(4, true, &mut store, 20).unwrap();
    assert_eq!(pipeline.get_watermark().checkpoint_sequence, 4);
    pipeline.on_task_done(1, true, &mut store, 30).unwrap();
    assert_eq!(pipeline.get_watermark().checkpoint_sequence, 4);
    pipeline.on_task_done(3, false, &mut store, 40).unwrap();
    assert_eq!(pipeline.get_watermark().checkpoint_sequence, 4);
    assert_eq!(store.get_watermark("P2"), 4);
    assert!(matches!(
        pipeline.handle_message(&m5),
        ConcurrentAction::Spawn
    ));
}

#[test]
fn test_concurrent_catch_up_skip() {
    let mut store = InMemoryWatermarkStore::new();
    store.update_watermark("P2", 8).unwrap();
    let (processor, _processed, _committed) = RecordingProcessor::new("P2");
    let mut pipeline = ConcurrentPipeline::new("P2".to_string(), processor, 2);
    pipeline.start(&store);
    let m = IngestionMessage::Checkpoint(engine_checkpoint(8));
    assert!(matches!(
        pipeline.handle_message(&m),
        ConcurrentAction::Skipped
    ));
    let m9 = IngestionMessage::Checkpoint(engine_checkpoint(9));
    assert!(matches!(
        pipeline.handle_message(&m9),
        ConcurrentAction::Spawn
    ));
}

#[test]
fn test_concurrent_inline_task() {
    let mut example = ExampleProcessor::new("inline".to_string());
    let cp = engine_checkpoint(3);
    let data = example.process(&cp).unwrap();
    assert_eq!(data.checkpoint_sequence, 3);
    let mut pipeline = ConcurrentPipeline::new(
        "inline".to_string(),
        ExampleProcessor::new("inline".to_string()),
        2,
    );
    let mut store = InMemoryWatermarkStore::new();
    let m = IngestionMessage::Checkpoint(engine_checkpoint(3));
    assert!(matches!(
        pipeline.handle_message(&m),
        ConcurrentAction::Spawn
    ));
    pipeline.process_and_commit(&cp, &mut store, 5).unwrap();
    assert_eq!(pipeline.get_watermark().checkpoint_sequence, 3);
    assert_eq!(store.get_watermark("inline"), 3);
}

#[test]
fn test_transient_failure_window_repeats() {
    // The fetch of sequence 7 keeps failing: the regulator keeps
    // producing a window that contains 7 until a commit passes it.
    let mut regulator = Regulator::new(4);
    regulator.update_watermark("p", 6);
    regulator.set_latest_checkpoint(10);
    for _ in 0..3 {
        let w = regulator.get_next_batch().unwrap();
        assert_eq!(w.start, 7);
        assert_eq!(w.end, 10);
    }
    regulator.update_watermark("p", 7);
    let w = regulator.get_next_batch().unwrap();
    assert_eq!(w.start, 8);
}

#[test]
fn test_end_to_end_feedback_loop() {
    // Broadcaster, regulator and one ordered pipeline wired together:
    // sequence 5 fails verification, everything else flows. The
    // pipeline's commits move the low watermark, the regulator skips
    // the invalid sequence, and fetching stops at the frontier.
    let regulator = Regulator::new(3);
    let mut broadcaster = Broadcaster::new(regulator, 10);
    let mut store = InMemoryWatermarkStore::new();
    let (processor, processed, _committed) = RecordingProcessor::new("P1");
    let mut pipeline = SequentialPipeline::new("P1".to_string(), processor, 1);
    pipeline.start(&store);
    broadcaster.register_subscriber("P1", 0);
    let handle = broadcaster.subscribe();
    broadcaster.set_latest_checkpoint(6);
    let mut rounds = 0;
    while let Some(window) = broadcaster.next_window() {
        rounds += 1;
        assert!(rounds < 100, "the loop should converge");
        for seq in window.start..=window.end {
            if seq == 5 {
                // verification failed upstream
                broadcaster.mark_invalid(seq);
                assert!(broadcaster.publish_error(format!("invalid checkpoint {}", seq)));
            } else {
                assert!(broadcaster.publish_checkpoint(engine_checkpoint(seq), seq));
            }
        }
        while let Some(message) = broadcaster.recv(handle) {
            let step = pipeline.handle_message(&message, &mut store, 7).unwrap();
            if let StepOutcome::Committed { to, .. } = step {
                broadcaster.update_watermark("P1", to);
            }
        }
    }
    assert_eq!(pipeline.get_watermark().checkpoint_sequence, 6);
    assert_eq!(store.get_watermark("P1"), 6);
    assert_eq!(pipeline.error_metric(), 1);
    assert_eq!(broadcaster.skip_metric(), 1);
    assert!(!processed.borrow().contains(&5));
    assert_eq!(*processed.borrow(), vec![1, 2, 3, 4, 6]);
}

#[test]
fn test_ingestion_pipeline_warm_registration() {
    let mut store = InMemoryWatermarkStore::new();
    store.update_watermark("P1", 5).unwrap();
    let mut ingestion = IngestionPipeline::new(store, 10);
    let mut subscriber = ingestion.register_pipeline("P1".to_string());
    assert_eq!(subscriber.id, "P1");
    assert_eq!(subscriber.handle, 0);
    // The stored watermark gates fetching: the next window resumes
    // right after it.
    ingestion.broadcaster.set_latest_checkpoint(9);
    let w = ingestion.broadcaster.next_window().unwrap();
    assert_eq!(w.start, 6);
    assert_eq!(w.end, 9);
    // The subscriber receives what is published after it joined.
    assert!(ingestion.broadcaster.publish_checkpoint(engine_checkpoint(6), 60));
    let m = subscriber.recv(&mut ingestion.broadcaster).unwrap();
    match &*m {
        IngestionMessage::Checkpoint(cp) => {
            assert_eq!(cp.checkpoint_summary.sequence_number, 6)
        }
        other => panic!("unexpected message {:?}", other),
    }
    subscriber.update_watermark(6);
    assert_eq!(subscriber.get_watermark(), 6);
    let progress = ingestion.get_progress();
    assert_eq!(progress.last_fetched_checkpoint, 6);
}

#[test]
fn test_two_pipelines_at_different_speeds() {
    // A fast and a slow subscriber share the fan-out: the slow one's
    // buffer bound throttles publishing for everyone, and both reach
    // the frontier once the slow one drains.
    let regulator = Regulator::new(10);
    let mut broadcaster = Broadcaster::new(regulator, 2);
    let fast = broadcaster.subscribe();
    let slow = broadcaster.subscribe();
    assert!(broadcaster.publish_checkpoint(engine_checkpoint(1), 1));
    assert!(broadcaster.publish_checkpoint(engine_checkpoint(2), 2));
    // The fast subscriber drains fully, but the slow one still holds
    // two undelivered messages: publishing stays refused.
    assert!(broadcaster.recv(fast).is_some());
    assert!(broadcaster.recv(fast).is_some());
    assert!(!broadcaster.publish_checkpoint(engine_checkpoint(3), 3));
    // One receive by the slow subscriber frees a slot for everyone.
    assert!(broadcaster.recv(slow).is_some());
    assert!(broadcaster.publish_checkpoint(engine_checkpoint(3), 3));
    // Both eventually see everything that was published.
    assert!(broadcaster.recv(slow).is_some());
    assert!(broadcaster.recv(slow).is_some());
    assert!(broadcaster.recv(fast).is_some());
    assert!(broadcaster.recv(fast).is_none());
    assert!(broadcaster.recv(slow).is_none());
}
