//! Processing layer: the processor interface, the strict in-order
//! pipeline with batched commits, and the bounded-parallel pipeline.
//! Each pipeline consumes broadcast messages, drives its processor, and
//! advances its durable watermark only on successful commits.

use vstd::prelude::*;
use crate::ingestion::{IngestionMessage, StoreError, WatermarkStore};
use crate::types::{
    record_model, records_model, CheckpointData, CheckpointTransaction, ProcessedData,
    ProcessingMetrics, Record, RecordValue, RecordValueModel, TransactionKind, Watermark,
};

verus! {

/// Failure of a processor's `process` step.
#[derive(Clone, Debug)]
pub enum ProcessError {
    Failed(String),
}

/// Failure of a processor's `commit` step; retryable.
#[derive(Clone, Debug)]
pub enum CommitError {
    Failed(String),
}

/// Fatal pipeline failure: commit retries exhausted, or the watermark
/// store is unreachable.
#[derive(Clone, Debug)]
pub enum PipelineError {
    /// `commit` kept failing through every allowed retry.
    CommitExhausted,
    /// The watermark store refused a write.
    Store(StoreError),
}

/// Processing logic supplied by the user of the engine. `process` must
/// be pure with respect to external state; `commit` must be idempotent
/// on its record identity, because delivery is at-least-once.
pub trait Processor {
    /// Derives records from one checkpoint.
    fn process(&mut self, checkpoint: &CheckpointData) -> Result<ProcessedData, ProcessError>;

    /// Commits derived records to storage.
    fn commit(&mut self, data: &ProcessedData) -> Result<(), CommitError>;

    /// Drops data older than the given checkpoint; optional.
    fn prune(&mut self, before_checkpoint: u64) -> Result<(), CommitError> {
        let _ = before_checkpoint;
        Ok(())
    }

    /// The processor's name, used as its pipeline id.
    fn name(&self) -> String;
}

/// How many times a failing commit is attempted before the pipeline
/// surfaces a fatal error.
pub const MAX_COMMIT_ATTEMPTS: u64 = 6;

/// The commit retry delay: 100 ms doubling per attempt, capped at 10 s.
pub open spec fn backoff_spec(attempt: nat) -> u64
    decreases attempt,
{
    if attempt == 0 {
        100
    } else if backoff_spec((attempt - 1) as nat) >= 5000 {
        10000
    } else {
        (backoff_spec((attempt - 1) as nat) * 2) as u64
    }
}

/// The delay before commit attempt `attempt + 1`.
pub fn backoff_ms(attempt: u64) -> (r: u64)
    ensures
        r == backoff_spec(attempt as nat),
        100 <= r <= 10000,
    decreases attempt,
{
    proof {
        lemma_backoff_bounds(attempt as nat);
    }
    if attempt == 0 {
        100
    } else {
        let prev = backoff_ms(attempt - 1);
        if prev >= 5000 {
            10000
        } else {
            prev * 2
        }
    }
}

/// The backoff is always between its floor and its cap.
proof fn lemma_backoff_bounds(attempt: nat)
    ensures
        100 <= backoff_spec(attempt) <= 10000,
    decreases attempt,
{
    if attempt > 0 {
        lemma_backoff_bounds((attempt - 1) as nat);
    }
}

/// `a + b`, stopping at the largest `u64`.
fn saturating_add_u64(a: u64, b: u64) -> (r: u64)
    ensures
        r == if a + b <= u64::MAX {
            a + b
        } else {
            u64::MAX as int
        },
{
    if a <= u64::MAX - b {
        a + b
    } else {
        u64::MAX
    }
}

/// What one delivered message did to an in-order pipeline.
#[derive(Clone, Copy, Debug, PartialEq, Eq, Structural)]
pub enum StepOutcome {
    /// A checkpoint at or below the watermark was dropped (catch-up).
    Skipped,
    /// A checkpoint was processed and added to the open batch.
    Buffered,
    /// A batch was committed: the watermark moved from just below
    /// `from` up to `to`.
    Committed { from: u64, to: u64 },
    /// `commit` failed; retry after `backoff_ms` (attempt number given).
    CommitRetry { attempt: u64, backoff_ms: u64 },
    /// `process` failed; the checkpoint was not added to the batch.
    ProcessFailed,
    /// An error or resume notice was observed; nothing changed.
    Noted,
    /// A drain found nothing to commit.
    Idle,
}

/// Whether `m` carries a checkpoint.
pub open spec fn is_checkpoint(m: IngestionMessage) -> bool {
    m matches IngestionMessage::Checkpoint(_)
}

/// The sequence number of a checkpoint message.
pub open spec fn checkpoint_seq(m: IngestionMessage) -> u64 {
    match m {
        IngestionMessage::Checkpoint(cp) => cp.checkpoint_summary.sequence_number,
        _ => 0,
    }
}

/// Checkpoint messages appear in non-decreasing sequence order, as the
/// broadcaster publishes them.
pub open spec fn ordered_stream(msgs: Seq<IngestionMessage>) -> bool {
    forall|i: int, j: int|
        0 <= i < j < msgs.len() && is_checkpoint(#[trigger] msgs[i]) && is_checkpoint(
            #[trigger] msgs[j],
        ) ==> checkpoint_seq(msgs[i]) <= checkpoint_seq(msgs[j])
}

/// The committed ranges form an unbroken chain from `lo` up to `hi`:
/// the first begins at `lo + 1`, each next begins right after the
/// previous ends, and the last ends at `hi`.
pub open spec fn contiguous_ranges(ranges: Seq<(u64, u64)>, lo: u64, hi: u64) -> bool {
    &&& (ranges.len() == 0 ==> lo == hi)
    &&& (ranges.len() > 0 ==> ranges[0].0 == lo + 1 && ranges[ranges.len() - 1].1 == hi)
    &&& (forall|i: int| 0 <= i < ranges.len() ==> (#[trigger] ranges[i]).0 <= ranges[i].1)
    &&& (forall|i: int|
        1 <= i < ranges.len() ==> (#[trigger] ranges[i]).0 == ranges[i - 1].1 + 1)
}

/// In a chain of ranges, later ranges lie strictly above earlier ones.
proof fn lemma_ranges_increasing(ranges: Seq<(u64, u64)>, lo: u64, hi: u64, i: int, j: int)
    requires
        contiguous_ranges(ranges, lo, hi),
        0 <= i < j < ranges.len(),
    ensures
        ranges[i].1 < ranges[j].0,
    decreases j - i,
{
    if j > i + 1 {
        lemma_ranges_increasing(ranges, lo, hi, i, j - 1);
    }
}

/// No gaps, no overlaps: under a contiguous chain of committed ranges
/// from watermark `lo` up to watermark `hi`, every sequence in between
/// lies in exactly one committed range.
pub proof fn lemma_ranges_partition(ranges: Seq<(u64, u64)>, lo: u64, hi: u64, n: u64)
    requires
        contiguous_ranges(ranges, lo, hi),
        lo < n <= hi,
    ensures
        exists|i: int| 0 <= i < ranges.len() && (#[trigger] ranges[i]).0 <= n <= ranges[i].1,
        forall|i: int, j: int|
            0 <= i < ranges.len() && 0 <= j < ranges.len() && (#[trigger] ranges[i]).0 <= n
                <= ranges[i].1 && (#[trigger] ranges[j]).0 <= n <= ranges[j].1 ==> i == j,
    decreases ranges.len(),
{
    let len = ranges.len() as int;
    if ranges.len() > 0 {
        if ranges[len - 1].0 <= n {
            assert(ranges[len - 1].0 <= n <= ranges[len - 1].1);
        } else {
            let shorter = ranges.drop_last();
            assert(forall|i: int| 0 <= i < shorter.len() ==> shorter[i] == ranges[i]);
            let hi2 = (ranges[len - 1].0 - 1) as u64;
            assert(contiguous_ranges(shorter, lo, hi2));
            lemma_ranges_partition(shorter, lo, hi2, n);
            let i = choose|i: int|
                0 <= i < shorter.len() && (#[trigger] shorter[i]).0 <= n <= shorter[i].1;
            assert(ranges[i].0 <= n <= ranges[i].1);
        }
        assert forall|i: int, j: int|
            0 <= i < ranges.len() && 0 <= j < ranges.len() && (#[trigger] ranges[i]).0 <= n
                <= ranges[i].1 && (#[trigger] ranges[j]).0 <= n <= ranges[j].1 implies i
            == j by {
            if i < j {
                lemma_ranges_increasing(ranges, lo, hi, i, j);
            }
            if j < i {
                lemma_ranges_increasing(ranges, lo, hi, j, i);
            }
        }
    }
}

/// `a + b` as a value, stopping at the largest `u64`.
pub open spec fn sat_add(a: u64, b: u64) -> u64 {
    if a + b <= u64::MAX {
        (a + b) as u64
    } else {
        u64::MAX
    }
}

/// The contents of all records of a batch, concatenated in batch order.
pub open spec fn batch_records_model(batch: Seq<ProcessedData>) -> Seq<
    Seq<(Seq<char>, RecordValueModel)>,
>
    decreases batch.len(),
{
    if batch.len() == 0 {
        Seq::empty()
    } else {
        batch_records_model(batch.drop_last()) + records_model(batch.last().records@)
    }
}

/// The field-wise sums of a batch's counters, stopping at the largest
/// `u64`; the duration counter is not summed.
pub open spec fn batch_metrics(batch: Seq<ProcessedData>) -> ProcessingMetrics
    decreases batch.len(),
{
    if batch.len() == 0 {
        ProcessingMetrics {
            transaction_count: 0,
            event_count: 0,
            object_change_count: 0,
            processing_duration_ms: 0,
            records_created: 0,
        }
    } else {
        let m = batch_metrics(batch.drop_last());
        let x = batch.last().metrics;
        ProcessingMetrics {
            transaction_count: sat_add(m.transaction_count, x.transaction_count),
            event_count: sat_add(m.event_count, x.event_count),
            object_change_count: sat_add(m.object_change_count, x.object_change_count),
            processing_duration_ms: 0,
            records_created: sat_add(m.records_created, x.records_created),
        }
    }
}

/// Combines a batch for one commit: every member's records concatenated
/// in batch order, counters summed field-wise, under the given source
/// sequence. This is exactly what the in-order pipeline hands to its
/// processor's `commit`.
pub fn combine_batch(batch: &Vec<ProcessedData>, sequence: u64) -> (r: ProcessedData)
    ensures
        r.checkpoint_sequence == sequence,
        records_model(r.records@) == batch_records_model(batch@),
        r.metrics == batch_metrics(batch@),
{
    let mut combined_records: Vec<Record> = Vec::new();
    let mut combined_metrics = ProcessingMetrics {
        transaction_count: 0,
        event_count: 0,
        object_change_count: 0,
        processing_duration_ms: 0,
        records_created: 0,
    };
    proof {
        assert(records_model(combined_records@) =~= batch_records_model(
            batch@.subrange(0, 0),
        ));
    }
    let mut i: usize = 0;
    while i < batch.len()
        invariant
            0 <= i <= batch@.len(),
            records_model(combined_records@) == batch_records_model(
                batch@.subrange(0, i as int),
            ),
            combined_metrics == batch_metrics(batch@.subrange(0, i as int)),
        decreases batch@.len() - i,
    {
        proof {
            assert(batch@.subrange(0, i + 1).drop_last() =~= batch@.subrange(0, i as int));
            assert(batch@.subrange(0, i + 1).last() == batch@[i as int]);
        }
        let data = &batch[i];
        let ghost mid = combined_records@;
        let mut j: usize = 0;
        while j < data.records.len()
            invariant
                0 <= j <= data.records@.len(),
                records_model(combined_records@) =~= records_model(mid) + records_model(
                    data.records@.subrange(0, j as int),
                ),
            decreases data.records@.len() - j,
        {
            proof {
                assert(data.records@.subrange(0, j + 1).drop_last() =~= data.records@.subrange(
                    0,
                    j as int,
                ));
            }
            let copy = crate::types::clone_record(&data.records[j]);
            let ghost prior = combined_records@;
            combined_records.push(copy);
            proof {
                assert forall|k: int| 0 <= k < prior.len() implies records_model(
                    combined_records@,
                )[k] == records_model(prior)[k] by {
                    assert(combined_records@[k] == prior[k]);
                }
                assert(records_model(combined_records@)[prior.len() as int] == record_model(
                    copy,
                ));
                assert(data.records@.subrange(0, j + 1)[j as int] == data.records@[j as int]);
                assert(records_model(data.records@.subrange(0, j + 1))[j as int]
                    == record_model(data.records@[j as int]));
                assert forall|t: int| 0 <= t < j implies records_model(
                    data.records@.subrange(0, j + 1),
                )[t] == records_model(data.records@.subrange(0, j as int))[t] by {
                    assert(data.records@.subrange(0, j + 1)[t] == data.records@.subrange(
                        0,
                        j as int,
                    )[t]);
                }
                assert(records_model(combined_records@).len() == prior.len() + 1);
                assert(records_model(prior).len() == prior.len());
                assert(records_model(mid).len() == mid.len());
                assert(records_model(data.records@.subrange(0, j + 1)).len() == j + 1);
                assert(records_model(data.records@.subrange(0, j as int)).len() == j);
                assert(records_model(prior) == records_model(mid) + records_model(
                    data.records@.subrange(0, j as int),
                ));
                assert forall|k: int| 0 <= k < prior.len() implies records_model(prior)[k]
                    == (records_model(mid) + records_model(
                    data.records@.subrange(0, j + 1),
                ))[k] by {
                    if k >= mid.len() {
                        assert(records_model(prior)[k] == records_model(
                            data.records@.subrange(0, j as int),
                        )[k - mid.len()]);
                    }
                }
                let ghost target = records_model(mid) + records_model(
                    data.records@.subrange(0, j + 1),
                );
                assert(records_model(combined_records@).len() == target.len());
                assert forall|k: int|
                    0 <= k < records_model(combined_records@).len() implies records_model(
                    combined_records@,
                )[k] == target[k] by {
                    if k < prior.len() {
                        assert(records_model(combined_records@)[k] == records_model(
                            prior,
                        )[k]);
                        assert(records_model(prior)[k] == target[k]);
                    } else {
                        assert(records_model(combined_records@)[k] == record_model(copy));
                        assert(target[k] == records_model(
                            data.records@.subrange(0, j + 1),
                        )[j as int]);
                    }
                }
                assert(records_model(combined_records@) =~= target);
            }
            j = j + 1;
        }
        proof {
            assert(data.records@.subrange(0, data.records@.len() as int)
                =~= data.records@);
            assert(records_model(combined_records@) =~= batch_records_model(
                batch@.subrange(0, i + 1),
            ));
        }
        combined_metrics.transaction_count = saturating_add_u64(
            combined_metrics.transaction_count,
            data.metrics.transaction_count,
        );
        combined_metrics.event_count = saturating_add_u64(
            combined_metrics.event_count,
            data.metrics.event_count,
        );
        combined_metrics.object_change_count = saturating_add_u64(
            combined_metrics.object_change_count,
            data.metrics.object_change_count,
        );
        combined_metrics.records_created = saturating_add_u64(
            combined_metrics.records_created,
            data.metrics.records_created,
        );
        i = i + 1;
    }
    proof {
        assert(batch@.subrange(0, batch@.len() as int) =~= batch@);
    }
    ProcessedData {
        checkpoint_sequence: sequence,
        records: combined_records,
        metrics: combined_metrics,
    }
}

/// Strict in-order pipeline: processes checkpoints in arrival order,
/// commits them in batches of `batch_size`, and advances its durable
/// watermark only when a commit has fully succeeded.
pub struct SequentialPipeline<P: Processor> {
    name: String,
    processor: P,
    batch_size: usize,
    watermark: Watermark,
    batch: Vec<ProcessedData>,
    /// Highest checkpoint sequence processed into the open batch.
    batch_hi: u64,
    /// Failed attempts of the pending commit.
    commit_attempts: u64,
    /// Count of process/ingestion errors observed.
    error_count: u64,
    /// Checkpoint sequences handed to `process`, oldest first.
    delivered: Ghost<Seq<u64>>,
}

impl<P: Processor> SequentialPipeline<P> {
    /// The committed watermark sequence: the sequence field of the
    /// watermark that `get_watermark` returns.
    pub open spec fn wm_seq(&self) -> u64 {
        self.spec_watermark().checkpoint_sequence
    }

    /// The full watermark.
    pub closed spec fn spec_watermark(&self) -> Watermark {
        self.watermark
    }

    /// The pipeline name.
    pub closed spec fn spec_name(&self) -> Seq<char> {
        self.name@
    }

    /// The configured batch size.
    pub closed spec fn spec_batch_size(&self) -> usize {
        self.batch_size
    }

    /// How many processed checkpoints wait in the open batch.
    pub closed spec fn batch_len(&self) -> nat {
        self.batch@.len()
    }

    /// Highest checkpoint sequence processed into the open batch.
    pub closed spec fn spec_batch_hi(&self) -> u64 {
        self.batch_hi
    }

    /// Failed attempts of the pending commit.
    pub closed spec fn spec_attempts(&self) -> u64 {
        self.commit_attempts
    }

    /// Errors observed so far.
    pub closed spec fn spec_error_count(&self) -> u64 {
        self.error_count
    }

    /// Checkpoint sequences handed to `process`, oldest first.
    pub closed spec fn spec_delivered(&self) -> Seq<u64> {
        self.delivered@
    }

    /// Pipeline invariant: the open batch sits strictly above the
    /// committed watermark, and the pending commit has attempts left.
    pub closed spec fn inv(&self) -> bool {
        &&& self.batch_size >= 1
        &&& (self.batch@.len() > 0 ==> self.batch_hi > self.watermark.checkpoint_sequence)
        &&& self.commit_attempts < MAX_COMMIT_ATTEMPTS
    }

    /// A pipeline at watermark 0 with an empty batch.
    pub fn new(name: String, processor: P, batch_size: usize) -> (r: Self)
        requires
            batch_size >= 1,
        ensures
            r.inv(),
            r.spec_name() == name@,
            r.spec_batch_size() == batch_size,
            r.wm_seq() == 0,
            r.batch_len() == 0,
            r.spec_error_count() == 0,
            r.spec_delivered() == Seq::<u64>::empty(),
    {
        let r = SequentialPipeline {
            name,
            processor,
            batch_size,
            watermark: Watermark { checkpoint_sequence: 0, timestamp_ms: 0, updated_at: 0 },
            batch: Vec::new(),
            batch_hi: 0,
            commit_attempts: 0,
            error_count: 0,
            delivered: Ghost(Seq::empty()),
        };
        proof {
            assert(r.spec_delivered() =~= Seq::<u64>::empty());
        }
        r
    }

    /// Re-aligns a restarted pipeline to its durable watermark: every
    /// checkpoint at or below it will be silently dropped (catch-up
    /// skip).
    pub fn start<W: WatermarkStore>(&mut self, store: &W)
        requires
            old(self).inv(),
            old(self).batch_len() == 0,
            store.inv(),
        ensures
            final(self).inv(),
            final(self).wm_seq() == if store.wm().dom().contains(old(self).spec_name()) {
                store.wm()[old(self).spec_name()]
            } else {
                0
            },
            final(self).batch_len() == 0,
            final(self).spec_name() == old(self).spec_name(),
            final(self).spec_batch_size() == old(self).spec_batch_size(),
            final(self).spec_delivered() == old(self).spec_delivered(),
            final(self).spec_error_count() == old(self).spec_error_count(),
    {
        let stored = store.get_watermark(self.name.as_str());
        self.watermark.checkpoint_sequence = stored;
    }

    /// The committed watermark.
    pub fn get_watermark(&self) -> (r: Watermark)
        ensures
            r == self.spec_watermark(),
    {
        self.watermark
    }

    /// The error counter.
    pub fn error_metric(&self) -> (r: u64)
        ensures
            r == self.spec_error_count(),
    {
        self.error_count
    }

    /// The processing frontier: the highest sequence already processed
    /// (committed or sitting in the open batch). Checkpoints at or
    /// below it are dropped on delivery.
    pub open spec fn frontier(&self) -> u64 {
        if self.batch_len() > 0 {
            self.spec_batch_hi()
        } else {
            self.wm_seq()
        }
    }

    /// Combines the open batch and commits it: on success the durable
    /// and in-memory watermarks advance to the highest sequence in the
    /// batch; on commit failure the batch is kept for retry, up to
    /// `MAX_COMMIT_ATTEMPTS`; with an empty batch nothing happens.
    pub fn commit_batch<W: WatermarkStore>(&mut self, store: &mut W, now_ms: u64) -> (r: Result<
        StepOutcome,
        PipelineError,
    >)
        requires
            old(self).inv(),
            old(store).inv(),
        ensures
            final(self).inv(),
            final(store).inv(),
            final(self).spec_name() == old(self).spec_name(),
            final(self).spec_batch_size() == old(self).spec_batch_size(),
            final(self).spec_delivered() == old(self).spec_delivered(),
            final(self).spec_error_count() == old(self).spec_error_count(),
            final(self).wm_seq() >= old(self).wm_seq(),
            old(self).batch_len() == 0 ==> (r matches Ok(StepOutcome::Idle)),
            (r matches Err(_)) ==> old(self).batch_len() > 0,
            match r {
                Ok(StepOutcome::Idle) => {
                    &&& old(self).batch_len() == 0
                    &&& *final(self) == *old(self)
                    &&& *final(store) == *old(store)
                },
                Ok(StepOutcome::Committed { from, to }) => {
                    &&& final(self).inv()
                    &&& old(self).batch_len() > 0
                    &&& from == old(self).wm_seq() + 1
                    &&& to == old(self).spec_batch_hi()
                    &&& to >= from
                    &&& final(self).wm_seq() == to
                    &&& final(self).batch_len() == 0
                    &&& final(store).wm() == old(store).wm().insert(old(self).spec_name(), to)
                    &&& final(self).spec_watermark().updated_at == now_ms
                },
                Ok(StepOutcome::CommitRetry { attempt, backoff_ms }) => {
                    &&& final(self).inv()
                    &&& old(self).batch_len() > 0
                    &&& *final(store) == *old(store)
                    &&& final(self).wm_seq() == old(self).wm_seq()
                    &&& final(self).batch_len() == old(self).batch_len()
                    &&& final(self).spec_batch_hi() == old(self).spec_batch_hi()
                    &&& attempt == old(self).spec_attempts() + 1
                    &&& final(self).spec_attempts() == attempt
                    &&& backoff_ms == backoff_spec(attempt as nat)
                },
                Ok(_) => false,
                Err(PipelineError::CommitExhausted) => {
                    &&& old(self).spec_attempts() == MAX_COMMIT_ATTEMPTS - 1
                    &&& final(self).wm_seq() == old(self).wm_seq()
                    &&& final(self).batch_len() == old(self).batch_len()
                    &&& final(self).spec_batch_hi() == old(self).spec_batch_hi()
                    &&& *final(store) == *old(store)
                },
                Err(PipelineError::Store(_)) => {
                    &&& final(self).wm_seq() == old(self).wm_seq()
                    &&& final(self).batch_len() == old(self).batch_len()
                    &&& final(self).spec_batch_hi() == old(self).spec_batch_hi()
                    &&& final(store).wm() == old(store).wm()
                },
            },
    {
        if self.batch.len() == 0 {
            return Ok(StepOutcome::Idle);
        }
        let sequence = self.batch_hi;
        let combined = combine_batch(&self.batch, sequence);
        match self.processor.commit(&combined) {
            Ok(_) => {},
            Err(_) => {
                self.commit_attempts = self.commit_attempts + 1;
                if self.commit_attempts >= MAX_COMMIT_ATTEMPTS {
                    self.commit_attempts = MAX_COMMIT_ATTEMPTS - 1;
                    return Err(PipelineError::CommitExhausted);
                }
                let attempt = self.commit_attempts;
                let wait = backoff_ms(attempt);
                return Ok(StepOutcome::CommitRetry { attempt, backoff_ms: wait });
            },
        }
        let from = self.watermark.checkpoint_sequence + 1;
        match store.update_watermark(self.name.as_str(), sequence) {
            Ok(_) => {},
            Err(e) => {
                return Err(PipelineError::Store(e));
            },
        }
        self.watermark.checkpoint_sequence = sequence;
        self.watermark.updated_at = now_ms;
        self.batch.clear();
        self.commit_attempts = 0;
        Ok(StepOutcome::Committed { from, to: sequence })
    }

    /// Handles one delivered broadcast message: drops already-processed
    /// checkpoints (catch-up skip), processes new ones in order, commits
    /// full batches, drains on pause and shutdown, and counts errors.
    /// The watermark never moves backwards.
    pub fn handle_message<W: WatermarkStore>(
        &mut self,
        message: &IngestionMessage,
        store: &mut W,
        now_ms: u64,
    ) -> (r: Result<StepOutcome, PipelineError>)
        requires
            old(self).inv(),
            old(store).inv(),
        ensures
            final(self).inv(),
            final(store).inv(),
            final(self).spec_name() == old(self).spec_name(),
            final(self).spec_batch_size() == old(self).spec_batch_size(),
            final(self).wm_seq() >= old(self).wm_seq(),
            final(self).frontier() >= old(self).frontier(),
            old(self).spec_delivered().is_prefix_of(final(self).spec_delivered()),
            final(self).spec_delivered().len() <= old(self).spec_delivered().len() + 1,
            forall|i: int|
                old(self).spec_delivered().len() <= i < final(self).spec_delivered().len()
                    ==> final(self).spec_delivered()[i] > old(self).frontier(),
            (message matches IngestionMessage::Checkpoint(cp)
                && cp.checkpoint_summary.sequence_number <= old(self).frontier()) ==> (
            r matches Ok(StepOutcome::Skipped)),
            (message matches IngestionMessage::Error(_) || message
                matches IngestionMessage::Resumed) ==> (r matches Ok(StepOutcome::Noted)),
            ((message matches IngestionMessage::Paused || message
                matches IngestionMessage::Shutdown) && old(self).batch_len() == 0) ==> (
            r matches Ok(StepOutcome::Idle)),
            (r matches Err(PipelineError::CommitExhausted)) ==> old(self).spec_attempts()
                == MAX_COMMIT_ATTEMPTS - 1,
            ((message matches IngestionMessage::Checkpoint(_)) && (r matches Ok(
                StepOutcome::Committed { .. },
            ) || r matches Ok(StepOutcome::CommitRetry { .. }))) ==> old(self).batch_len()
                + 1 >= old(self).spec_batch_size(),
            match r {
                Ok(StepOutcome::Skipped) => {
                    &&& message matches IngestionMessage::Checkpoint(cp)
                        && cp.checkpoint_summary.sequence_number <= old(self).frontier()
                    &&& *final(self) == *old(self)
                    &&& *final(store) == *old(store)
                },
                Ok(StepOutcome::Buffered) => {
                    &&& message matches IngestionMessage::Checkpoint(cp)
                        && cp.checkpoint_summary.sequence_number > old(self).frontier()
                        && final(self).frontier() == cp.checkpoint_summary.sequence_number
                        && final(self).spec_delivered() == old(self).spec_delivered().push(
                        cp.checkpoint_summary.sequence_number,
                    )
                    &&& final(self).batch_len() == old(self).batch_len() + 1
                    &&& final(self).batch_len() < final(self).spec_batch_size()
                    &&& final(self).wm_seq() == old(self).wm_seq()
                    &&& *final(store) == *old(store)
                },
                Ok(StepOutcome::Committed { from, to }) => {
                    &&& from == old(self).wm_seq() + 1
                    &&& to >= from
                    &&& final(self).wm_seq() == to
                    &&& final(self).batch_len() == 0
                    &&& final(self).frontier() == to
                    &&& final(store).wm() == old(store).wm().insert(old(self).spec_name(), to)
                    &&& (match message {
                        IngestionMessage::Checkpoint(cp) => {
                            &&& cp.checkpoint_summary.sequence_number > old(self).frontier()
                            &&& to == cp.checkpoint_summary.sequence_number
                            &&& final(self).spec_delivered() == old(self).spec_delivered().push(
                                to,
                            )
                        },
                        IngestionMessage::Paused => to == old(self).spec_batch_hi() && old(self).batch_len() > 0 && final(self).spec_delivered() == old(self).spec_delivered(),
                        IngestionMessage::Shutdown => to == old(self).spec_batch_hi() && old(self).batch_len() > 0 && final(self).spec_delivered() == old(self).spec_delivered(),
                        _ => false,
                    })
                },
                Ok(StepOutcome::CommitRetry { attempt, backoff_ms }) => {
                    &&& final(self).wm_seq() == old(self).wm_seq()
                    &&& *final(store) == *old(store)
                    &&& final(self).spec_attempts() == attempt
                    &&& backoff_ms == backoff_spec(attempt as nat)
                    &&& final(self).batch_len() > 0
                    &&& (match message {
                        IngestionMessage::Checkpoint(cp) => {
                            &&& cp.checkpoint_summary.sequence_number > old(self).frontier()
                            &&& final(self).frontier()
                                == cp.checkpoint_summary.sequence_number
                            &&& final(self).spec_delivered() == old(self).spec_delivered().push(
                                cp.checkpoint_summary.sequence_number,
                            )
                        },
                        IngestionMessage::Paused => final(self).frontier() == old(self).frontier() && final(self).spec_delivered() == old(self).spec_delivered(),
                        IngestionMessage::Shutdown => final(self).frontier() == old(self).frontier() && final(self).spec_delivered() == old(self).spec_delivered(),
                        _ => false,
                    })
                },
                Ok(StepOutcome::ProcessFailed) => {
                    &&& message matches IngestionMessage::Checkpoint(cp)
                        && cp.checkpoint_summary.sequence_number > old(self).frontier()
                        && final(self).spec_delivered() == old(self).spec_delivered().push(
                        cp.checkpoint_summary.sequence_number,
                    )
                    &&& final(self).frontier() == old(self).frontier()
                    &&& final(self).wm_seq() == old(self).wm_seq()
                    &&& final(self).batch_len() == old(self).batch_len()
                    &&& *final(store) == *old(store)
                },
                Ok(StepOutcome::Noted) => {
                    &&& (message matches IngestionMessage::Error(_) || message
                        matches IngestionMessage::Resumed)
                    &&& final(self).frontier() == old(self).frontier()
                    &&& final(self).wm_seq() == old(self).wm_seq()
                    &&& final(self).batch_len() == old(self).batch_len()
                    &&& final(self).spec_delivered() == old(self).spec_delivered()
                    &&& *final(store) == *old(store)
                },
                Ok(StepOutcome::Idle) => {
                    &&& (message matches IngestionMessage::Paused || message
                        matches IngestionMessage::Shutdown)
                    &&& old(self).batch_len() == 0
                    &&& *final(self) == *old(self)
                    &&& *final(store) == *old(store)
                },
                Err(_) => {
                    &&& final(self).wm_seq() == old(self).wm_seq()
                    &&& final(store).wm() == old(store).wm()
                },
            },
    {
        match message {
            IngestionMessage::Checkpoint(cp) => {
                let sequence = cp.checkpoint_summary.sequence_number;
                let frontier = if self.batch.len() > 0 {
                    self.batch_hi
                } else {
                    self.watermark.checkpoint_sequence
                };
                if sequence <= frontier {
                    return Ok(StepOutcome::Skipped);
                }
                self.delivered = Ghost(self.delivered@.push(sequence));
                match self.processor.process(cp) {
                    Ok(data) => {
                        self.batch.push(data);
                        self.batch_hi = sequence;
                        if self.batch.len() >= self.batch_size {
                            self.commit_batch(store, now_ms)
                        } else {
                            Ok(StepOutcome::Buffered)
                        }
                    },
                    Err(_) => {
                        self.error_count = saturating_add_u64(self.error_count, 1);
                        Ok(StepOutcome::ProcessFailed)
                    },
                }
            },
            IngestionMessage::Error(_) => {
                self.error_count = saturating_add_u64(self.error_count, 1);
                Ok(StepOutcome::Noted)
            },
            IngestionMessage::Paused => self.commit_batch(store, now_ms),
            IngestionMessage::Resumed => Ok(StepOutcome::Noted),
            IngestionMessage::Shutdown => self.commit_batch(store, now_ms),
        }
    }

    /// Consumes a whole delivered stream, retrying failed commits up to
    /// the allowed attempts, and returns the committed ranges in order.
    /// Starting from an empty batch, the committed ranges chain without
    /// gap or overlap from the initial watermark to the final one, and
    /// every checkpoint above the initial watermark is handed to
    /// `process` at least once.
    pub fn run_messages<W: WatermarkStore>(
        &mut self,
        messages: &Vec<IngestionMessage>,
        store: &mut W,
        now_ms: u64,
    ) -> (r: Result<Vec<(u64, u64)>, PipelineError>)
        requires
            old(self).inv(),
            old(store).inv(),
            old(self).batch_len() == 0,
            ordered_stream(messages@),
        ensures
            final(self).inv(),
            final(store).inv(),
            final(self).spec_name() == old(self).spec_name(),
            final(self).wm_seq() >= old(self).wm_seq(),
            old(self).spec_delivered().is_prefix_of(final(self).spec_delivered()),
            forall|i: int|
                old(self).spec_delivered().len() <= i < final(self).spec_delivered().len()
                    ==> final(self).spec_delivered()[i] > old(self).wm_seq(),
            (forall|k: int|
                0 <= k < messages@.len() ==> (is_checkpoint(#[trigger] messages@[k])
                    ==> checkpoint_seq(messages@[k]) <= old(self).wm_seq())) ==> (
            r matches Ok(_)),
            match r {
                Ok(ranges) => {
                    &&& contiguous_ranges(ranges@, old(self).wm_seq(), final(self).wm_seq())
                    &&& forall|k: int|
                        0 <= k < messages@.len() && is_checkpoint(#[trigger] messages@[k])
                            && checkpoint_seq(messages@[k]) > old(self).wm_seq() ==> final(self).spec_delivered().contains(checkpoint_seq(messages@[k]))
                },
                Err(_) => true,
            },
    {
        let ghost wm0 = old(self).wm_seq();
        let ghost benign = forall|k: int|
            0 <= k < messages@.len() ==> (is_checkpoint(#[trigger] messages@[k])
                ==> checkpoint_seq(messages@[k]) <= old(self).wm_seq());
        let ghost del0 = old(self).spec_delivered();
        let mut ranges: Vec<(u64, u64)> = Vec::new();
        let mut m: usize = 0;
        while m < messages.len()
            invariant
                self.inv(),
                store.inv(),
                0 <= m <= messages@.len(),
                ordered_stream(messages@),
                self.spec_name() == old(self).spec_name(),
                wm0 == old(self).wm_seq(),
                del0 == old(self).spec_delivered(),
                self.wm_seq() >= wm0,
                contiguous_ranges(ranges@, wm0, self.wm_seq()),
                del0.is_prefix_of(self.spec_delivered()),
                forall|i: int|
                    del0.len() <= i < self.spec_delivered().len()
                        ==> self.spec_delivered()[i] > wm0,
                forall|k: int|
                    0 <= k < m && is_checkpoint(#[trigger] messages@[k]) && checkpoint_seq(
                        messages@[k],
                    ) > wm0 ==> self.spec_delivered().contains(checkpoint_seq(messages@[k])),
                self.spec_delivered().len() == del0.len() ==> self.frontier() == wm0,
                self.spec_delivered().len() > del0.len() ==> self.frontier()
                    <= self.spec_delivered().last(),
                self.batch_len() > 0 ==> self.spec_delivered().len() > del0.len(),
                forall|i: int|
                    del0.len() <= i < self.spec_delivered().len() ==> exists|k: int|
                        0 <= k < m && is_checkpoint(#[trigger] messages@[k]) && checkpoint_seq(
                            messages@[k],
                        ) == #[trigger] self.spec_delivered()[i],
                benign == (forall|k: int|
                    0 <= k < messages@.len() ==> (is_checkpoint(#[trigger] messages@[k])
                        ==> checkpoint_seq(messages@[k]) <= wm0)),
                benign ==> self.batch_len() == 0 && self.wm_seq() == wm0 && self.frontier()
                    == wm0,
            decreases messages@.len() - m,
        {
            let ghost pre = *self;
            let ghost pre_ranges = ranges@;
            let message = &messages[m];
            let step = self.handle_message(message, store, now_ms);
            proof {
                lemma_prefix_transitive(del0, pre.spec_delivered(), self.spec_delivered());
                if self.spec_delivered().len() > pre.spec_delivered().len() {
                    assert(self.spec_delivered().last() == self.spec_delivered()[
                        self.spec_delivered().len() - 1
                    ]);
                }
            }
            match step {
                Ok(StepOutcome::Committed { from, to }) => {
                    ranges.push((from, to));
                    proof {
                        assert(forall|i: int|
                            0 <= i < pre_ranges.len() ==> ranges@[i] == pre_ranges[i]);
                        assert(ranges@[ranges@.len() - 1] == (from, to));
                        assert(contiguous_ranges(ranges@, wm0, self.wm_seq()));
                    }
                },
                Ok(StepOutcome::CommitRetry { attempt: _, backoff_ms: _ }) => {
                    proof {
                        if benign {
                            assert(is_checkpoint(messages@[m as int]) ==> checkpoint_seq(
                                messages@[m as int],
                            ) <= wm0);
                            assert(false);
                        }
                    }
                    let ghost f = self.frontier();
                    let ghost d = self.spec_delivered();
                    let mut done = false;
                    while !done
                        invariant
                            self.inv(),
                            store.inv(),
                            wm0 == old(self).wm_seq(),
                            del0 == old(self).spec_delivered(),
                            benign == (forall|k: int|
                                0 <= k < messages@.len() ==> (is_checkpoint(
                                    #[trigger] messages@[k],
                                ) ==> checkpoint_seq(messages@[k]) <= wm0)),
                            !benign,
                            self.spec_name() == old(self).spec_name(),
                            self.spec_delivered() == d,
                            del0.is_prefix_of(d),
                            forall|i: int| del0.len() <= i < d.len() ==> d[i] > wm0,
                            d.len() > del0.len(),
                            f <= d.last(),
                            f > pre.wm_seq(),
                            pre.wm_seq() >= wm0,
                            contiguous_ranges(ranges@, wm0, self.wm_seq()),
                            !done ==> self.batch_len() > 0,
                            !done ==> self.wm_seq() == pre.wm_seq(),
                            !done ==> self.spec_batch_hi() == f,
                            done ==> self.batch_len() == 0,
                            done ==> self.wm_seq() == f,
                        decreases (if done {
                            0int
                        } else {
                            1int
                        }), MAX_COMMIT_ATTEMPTS - self.spec_attempts(),
                    {
                        let ghost before_ranges = ranges@;
                        match self.commit_batch(store, now_ms) {
                            Ok(StepOutcome::Committed { from, to }) => {
                                ranges.push((from, to));
                                done = true;
                                proof {
                                    assert(forall|i: int|
                                        0 <= i < before_ranges.len() ==> ranges@[i]
                                            == before_ranges[i]);
                                    assert(ranges@[ranges@.len() - 1] == (from, to));
                                    assert(contiguous_ranges(ranges@, wm0, self.wm_seq()));
                                }
                            },
                            Ok(_) => {},
                            Err(e) => {
                                return Err(e);
                            },
                        }
                    }
                },
                Ok(_) => {},
                Err(e) => {
                    proof {
                        if benign {
                            assert(is_checkpoint(messages@[m as int]) ==> checkpoint_seq(
                                messages@[m as int],
                            ) <= wm0);
                            assert(false);
                        }
                        assert(pre.frontier() >= pre.wm_seq());
                        assert(pre.spec_delivered() == self.spec_delivered().subrange(
                            0,
                            pre.spec_delivered().len() as int,
                        ));
                        assert forall|i: int|
                            del0.len() <= i < self.spec_delivered().len() implies self
                            .spec_delivered()[i] > wm0 by {
                            if i < pre.spec_delivered().len() {
                                assert(self.spec_delivered()[i] == pre.spec_delivered()[i]);
                            }
                        }
                    }
                    return Err(e);
                },
            }
            proof {
                if m < messages@.len() && is_checkpoint(messages@[m as int]) && checkpoint_seq(
                    messages@[m as int],
                ) > wm0 && self.spec_delivered() == pre.spec_delivered() {
                    let s = checkpoint_seq(messages@[m as int]);
                    if !self.spec_delivered().contains(s) {
                        assert(s <= pre.frontier());
                        assert(pre.spec_delivered().len() > del0.len());
                        let last = pre.spec_delivered().last();
                        assert(pre.spec_delivered()[pre.spec_delivered().len() - 1] == last);
                        let k = choose|k: int|
                            0 <= k < m && is_checkpoint(#[trigger] messages@[k])
                                && checkpoint_seq(messages@[k]) == pre.spec_delivered()[
                            pre.spec_delivered().len() - 1];
                        assert(checkpoint_seq(messages@[k]) <= s);
                        assert(s == last);
                        assert(self.spec_delivered().contains(s));
                    }
                }
                if self.spec_delivered().len() > pre.spec_delivered().len() {
                    assert(self.spec_delivered().contains(
                        self.spec_delivered()[self.spec_delivered().len() - 1],
                    ));
                }
                assert(forall|w: u64|
                    pre.spec_delivered().contains(w) ==> self.spec_delivered().contains(w))
                    by {
                    assert(forall|i: int|
                        0 <= i < pre.spec_delivered().len() ==> self.spec_delivered()[i]
                            == pre.spec_delivered()[i]);
                }
            }
            m = m + 1;
        }
        Ok(ranges)
    }
}

/// What a delivered message asks a bounded-parallel pipeline to do.
#[derive(Clone, Copy, Debug, PartialEq, Eq, Structural)]
pub enum ConcurrentAction {
    /// Start a process-and-commit task for this checkpoint; one unit of
    /// the admission budget is now held.
    Spawn,
    /// A checkpoint at or below the watermark was dropped (catch-up).
    Skipped,
    /// The admission budget is exhausted: wait for a task to finish,
    /// then deliver the message again.
    Saturated,
    /// An error, pause or resume notice was observed.
    Noted,
    /// Shutdown: join every in-flight task, then stop.
    Drain,
}

/// What one inline process-and-commit task did.
#[derive(Clone, Copy, Debug, PartialEq, Eq, Structural)]
pub enum TaskOutcome {
    /// Commit succeeded and the watermark advanced to the sequence.
    Advanced,
    /// Commit succeeded but a later sequence had already committed.
    Behind,
    /// `process` failed; nothing was committed.
    ProcessFailed,
    /// `commit` failed; the checkpoint will be re-processed after a
    /// restart (the at-least-once cost of parallel mode).
    CommitFailed,
}

/// Bounded-parallel pipeline: up to `max_concurrent` checkpoints are
/// processed and committed at once. Tasks may finish out of order, so
/// the watermark records the highest committed sequence, not the
/// highest contiguously committed one; sequences below it that had not
/// committed before a crash are re-processed on restart.
pub struct ConcurrentPipeline<P: Processor> {
    name: String,
    processor: P,
    max_concurrent: usize,
    watermark: Watermark,
    inflight: usize,
    error_count: u64,
    /// Checkpoint sequences admitted for processing, oldest first.
    delivered: Ghost<Seq<u64>>,
}

impl<P: Processor> ConcurrentPipeline<P> {
    /// The committed watermark sequence: the sequence field of the
    /// watermark that `get_watermark` returns.
    pub open spec fn wm_seq(&self) -> u64 {
        self.spec_watermark().checkpoint_sequence
    }

    /// The full watermark.
    pub closed spec fn spec_watermark(&self) -> Watermark {
        self.watermark
    }

    /// The pipeline name.
    pub closed spec fn spec_name(&self) -> Seq<char> {
        self.name@
    }

    /// The admission bound.
    pub closed spec fn spec_max_concurrent(&self) -> usize {
        self.max_concurrent
    }

    /// Tasks currently holding an admission unit.
    pub closed spec fn spec_inflight(&self) -> usize {
        self.inflight
    }

    /// Errors observed so far.
    pub closed spec fn spec_error_count(&self) -> u64 {
        self.error_count
    }

    /// Checkpoint sequences admitted for processing, oldest first.
    pub closed spec fn spec_delivered(&self) -> Seq<u64> {
        self.delivered@
    }

    /// At most `max_concurrent` tasks ever hold an admission unit.
    pub closed spec fn inv(&self) -> bool {
        &&& self.max_concurrent >= 1
        &&& self.inflight <= self.max_concurrent
    }

    /// A pipeline at watermark 0 with no tasks in flight.
    pub fn new(name: String, processor: P, max_concurrent: usize) -> (r: Self)
        requires
            max_concurrent >= 1,
        ensures
            r.inv(),
            r.spec_name() == name@,
            r.spec_max_concurrent() == max_concurrent,
            r.wm_seq() == 0,
            r.spec_inflight() == 0,
            r.spec_error_count() == 0,
            r.spec_delivered() == Seq::<u64>::empty(),
    {
        let r = ConcurrentPipeline {
            name,
            processor,
            max_concurrent,
            watermark: Watermark { checkpoint_sequence: 0, timestamp_ms: 0, updated_at: 0 },
            inflight: 0,
            error_count: 0,
            delivered: Ghost(Seq::empty()),
        };
        proof {
            assert(r.spec_delivered() =~= Seq::<u64>::empty());
        }
        r
    }

    /// Re-aligns a restarted pipeline to its durable watermark.
    pub fn start<W: WatermarkStore>(&mut self, store: &W)
        requires
            old(self).inv(),
            store.inv(),
        ensures
            final(self).inv(),
            final(self).wm_seq() == if store.wm().dom().contains(old(self).spec_name()) {
                store.wm()[old(self).spec_name()]
            } else {
                0
            },
            final(self).spec_name() == old(self).spec_name(),
            final(self).spec_max_concurrent() == old(self).spec_max_concurrent(),
            final(self).spec_inflight() == old(self).spec_inflight(),
            final(self).spec_delivered() == old(self).spec_delivered(),
    {
        let stored = store.get_watermark(self.name.as_str());
        self.watermark.checkpoint_sequence = stored;
    }

    /// The committed watermark.
    pub fn get_watermark(&self) -> (r: Watermark)
        ensures
            r == self.spec_watermark(),
    {
        self.watermark
    }

    /// The error counter.
    pub fn error_metric(&self) -> (r: u64)
        ensures
            r == self.spec_error_count(),
    {
        self.error_count
    }

    /// Decides what to do with one delivered message: drop
    /// already-committed checkpoints, admit new ones while the budget
    /// lasts, and drain on shutdown. Never exceeds `max_concurrent`
    /// admissions.
    pub fn handle_message(&mut self, message: &IngestionMessage) -> (a: ConcurrentAction)
        requires
            old(self).inv(),
        ensures
            final(self).inv(),
            final(self).spec_name() == old(self).spec_name(),
            final(self).spec_max_concurrent() == old(self).spec_max_concurrent(),
            final(self).wm_seq() == old(self).wm_seq(),
            final(self).spec_watermark() == old(self).spec_watermark(),
            match a {
                ConcurrentAction::Spawn => {
                    &&& message matches IngestionMessage::Checkpoint(cp)
                        && cp.checkpoint_summary.sequence_number > old(self).wm_seq()
                        && final(self).spec_delivered() == old(self).spec_delivered().push(
                        cp.checkpoint_summary.sequence_number,
                    )
                    &&& old(self).spec_inflight() < old(self).spec_max_concurrent()
                    &&& final(self).spec_inflight() == old(self).spec_inflight() + 1
                },
                ConcurrentAction::Skipped => {
                    &&& message matches IngestionMessage::Checkpoint(cp)
                        && cp.checkpoint_summary.sequence_number <= old(self).wm_seq()
                    &&& *final(self) == *old(self)
                },
                ConcurrentAction::Saturated => {
                    &&& message matches IngestionMessage::Checkpoint(cp)
                        && cp.checkpoint_summary.sequence_number > old(self).wm_seq()
                    &&& old(self).spec_inflight() == old(self).spec_max_concurrent()
                    &&& *final(self) == *old(self)
                },
                ConcurrentAction::Noted => {
                    &&& (message matches IngestionMessage::Error(_) || message
                        matches IngestionMessage::Paused || message
                        matches IngestionMessage::Resumed)
                    &&& final(self).spec_inflight() == old(self).spec_inflight()
                    &&& final(self).spec_delivered() == old(self).spec_delivered()
                },
                ConcurrentAction::Drain => {
                    &&& message matches IngestionMessage::Shutdown
                    &&& *final(self) == *old(self)
                },
            },
    {
        match message {
            IngestionMessage::Checkpoint(cp) => {
                let sequence = cp.checkpoint_summary.sequence_number;
                if sequence <= self.watermark.checkpoint_sequence {
                    ConcurrentAction::Skipped
                } else if self.inflight < self.max_concurrent {
                    self.inflight = self.inflight + 1;
                    self.delivered = Ghost(self.delivered@.push(sequence));
                    ConcurrentAction::Spawn
                } else {
                    ConcurrentAction::Saturated
                }
            },
            IngestionMessage::Error(_) => {
                self.error_count = saturating_add_u64(self.error_count, 1);
                ConcurrentAction::Noted
            },
            IngestionMessage::Paused => ConcurrentAction::Noted,
            IngestionMessage::Resumed => ConcurrentAction::Noted,
            IngestionMessage::Shutdown => ConcurrentAction::Drain,
        }
    }

    /// Records a finished task: releases its admission unit and, on
    /// success, advances the watermark to the committed sequence if it
    /// is the highest seen, persisting before the in-memory update. The
    /// watermark never moves backwards.
    pub fn on_task_done<W: WatermarkStore>(
        &mut self,
        sequence: u64,
        succeeded: bool,
        store: &mut W,
        now_ms: u64,
    ) -> (r: Result<(), StoreError>)
        requires
            old(self).inv(),
            old(store).inv(),
            old(self).spec_inflight() > 0,
        ensures
            final(self).inv(),
            final(store).inv(),
            final(self).spec_name() == old(self).spec_name(),
            final(self).spec_max_concurrent() == old(self).spec_max_concurrent(),
            final(self).spec_inflight() == old(self).spec_inflight() - 1,
            final(self).spec_delivered() == old(self).spec_delivered(),
            final(self).wm_seq() >= old(self).wm_seq(),
            !(succeeded && sequence > old(self).wm_seq()) ==> (r matches Ok(_)),
            match r {
                Ok(_) => {
                    &&& final(self).wm_seq() == if succeeded && sequence > old(self).wm_seq() {
                        sequence
                    } else {
                        old(self).wm_seq()
                    }
                    &&& final(store).wm() == if succeeded && sequence > old(self).wm_seq() {
                        old(store).wm().insert(old(self).spec_name(), sequence)
                    } else {
                        old(store).wm()
                    }
                    &&& (succeeded && sequence > old(self).wm_seq() ==> final(self).spec_watermark().updated_at == now_ms)
                },
                Err(_) => {
                    &&& final(self).wm_seq() == old(self).wm_seq()
                    &&& final(store).wm() == old(store).wm()
                },
            },
    {
        self.inflight = self.inflight - 1;
        if succeeded && sequence > self.watermark.checkpoint_sequence {
            match store.update_watermark(self.name.as_str(), sequence) {
                Ok(_) => {},
                Err(e) => {
                    return Err(e);
                },
            }
            self.watermark.checkpoint_sequence = sequence;
            self.watermark.updated_at = now_ms;
        }
        Ok(())
    }

    /// Runs one admitted checkpoint to completion inline: process, then
    /// commit, then release the admission unit and advance the
    /// watermark on success. This is the task body; a concurrent runner
    /// executes it once per `Spawn`.
    pub fn process_and_commit<W: WatermarkStore>(
        &mut self,
        checkpoint: &CheckpointData,
        store: &mut W,
        now_ms: u64,
    ) -> (r: Result<TaskOutcome, StoreError>)
        requires
            old(self).inv(),
            old(store).inv(),
            old(self).spec_inflight() > 0,
        ensures
            final(self).inv(),
            final(store).inv(),
            final(self).spec_name() == old(self).spec_name(),
            final(self).spec_max_concurrent() == old(self).spec_max_concurrent(),
            final(self).spec_inflight() == old(self).spec_inflight() - 1,
            final(self).spec_delivered() == old(self).spec_delivered(),
            final(self).wm_seq() >= old(self).wm_seq(),
            match r {
                Ok(TaskOutcome::Advanced) => {
                    &&& checkpoint.checkpoint_summary.sequence_number > old(self).wm_seq()
                    &&& final(self).wm_seq() == checkpoint.checkpoint_summary.sequence_number
                    &&& final(store).wm() == old(store).wm().insert(
                        old(self).spec_name(),
                        checkpoint.checkpoint_summary.sequence_number,
                    )
                },
                Ok(TaskOutcome::Behind) => {
                    &&& checkpoint.checkpoint_summary.sequence_number <= old(self).wm_seq()
                    &&& final(self).wm_seq() == old(self).wm_seq()
                    &&& final(store).wm() == old(store).wm()
                },
                Ok(TaskOutcome::ProcessFailed) => {
                    &&& final(self).wm_seq() == old(self).wm_seq()
                    &&& final(store).wm() == old(store).wm()
                    &&& final(self).spec_error_count() == if old(self).spec_error_count()
                        < u64::MAX {
                        old(self).spec_error_count() + 1
                    } else {
                        u64::MAX as int
                    }
                },
                Ok(TaskOutcome::CommitFailed) => {
                    &&& final(self).wm_seq() == old(self).wm_seq()
                    &&& final(store).wm() == old(store).wm()
                },
                Err(_) => {
                    &&& final(self).wm_seq() == old(self).wm_seq()
                    &&& final(store).wm() == old(store).wm()
                },
            },
    {
        let sequence = checkpoint.checkpoint_summary.sequence_number;
        match self.processor.process(checkpoint) {
            Ok(data) => {
                match self.processor.commit(&data) {
                    Ok(_) => {
                        let was_ahead = sequence > self.watermark.checkpoint_sequence;
                        match self.on_task_done(sequence, true, store, now_ms) {
                            Ok(_) => {
                                if was_ahead {
                                    Ok(TaskOutcome::Advanced)
                                } else {
                                    Ok(TaskOutcome::Behind)
                                }
                            },
                            Err(e) => Err(e),
                        }
                    },
                    Err(_) => {
                        self.inflight = self.inflight - 1;
                        Ok(TaskOutcome::CommitFailed)
                    },
                }
            },
            Err(_) => {
                self.error_count = saturating_add_u64(self.error_count, 1);
                self.inflight = self.inflight - 1;
                Ok(TaskOutcome::ProcessFailed)
            },
        }
    }
}

/// The textual label of a transaction kind, as it appears in records.
pub open spec fn kind_label(k: TransactionKind) -> Seq<char> {
    match k {
        TransactionKind::ProgrammableTransaction => "ProgrammableTransaction"@,
        TransactionKind::Transfer => "Transfer"@,
        TransactionKind::Publish => "Publish"@,
        TransactionKind::Upgrade => "Upgrade"@,
        TransactionKind::SystemTransaction => "SystemTransaction"@,
        TransactionKind::Other(s) => s@,
    }
}

/// The record derived from one transaction: its digest, sender, kind
/// and timestamp, under those field names in that order.
pub open spec fn is_tx_record(rec: Record, tx: CheckpointTransaction) -> bool {
    &&& rec.fields@.len() == 4
    &&& rec.fields@[0].0@ == "digest"@
    &&& (rec.fields@[0].1 matches RecordValue::Str(s) && s@ == tx.digest@)
    &&& rec.fields@[1].0@ == "sender"@
    &&& (rec.fields@[1].1 matches RecordValue::Str(s) && s@ == tx.sender@)
    &&& rec.fields@[2].0@ == "kind"@
    &&& (rec.fields@[2].1 matches RecordValue::Str(s) && s@ == kind_label(tx.kind))
    &&& rec.fields@[3].0@ == "timestamp"@
    &&& rec.fields@[3].1 == RecordValue::U64(tx.timestamp_ms)
}

/// Total number of events across the transactions.
pub open spec fn sum_events(txs: Seq<CheckpointTransaction>) -> int
    decreases txs.len(),
{
    if txs.len() == 0 {
        0
    } else {
        sum_events(txs.drop_last()) + txs.last().events@.len()
    }
}

/// Total number of object changes across the transactions.
pub open spec fn sum_object_changes(txs: Seq<CheckpointTransaction>) -> int
    decreases txs.len(),
{
    if txs.len() == 0 {
        0
    } else {
        sum_object_changes(txs.drop_last()) + txs.last().object_changes@.len()
    }
}

/// A small processor that turns each transaction of a checkpoint into
/// one flat record (digest, sender, kind, timestamp) and counts what it
/// saw. Useful as a template and in tests.
pub struct ExampleProcessor {
    name: String,
}

impl ExampleProcessor {
    /// The processor's configured name.
    pub closed spec fn spec_name(&self) -> Seq<char> {
        self.name@
    }

    pub fn new(name: String) -> (r: Self)
        ensures
            r.spec_name() == name@,
    {
        ExampleProcessor { name }
    }

    /// Derives one record per transaction. The result carries the
    /// checkpoint's sequence number, the per-transaction records in
    /// order, and counts of transactions, events and object changes
    /// (counters stop at the largest `u64`).
    pub fn extract(&self, checkpoint: &CheckpointData) -> (r: ProcessedData)
        ensures
            r.checkpoint_sequence == checkpoint.checkpoint_summary.sequence_number,
            r.records@.len() == checkpoint.transactions@.len(),
            forall|i: int|
                0 <= i < r.records@.len() ==> is_tx_record(
                    #[trigger] r.records@[i],
                    checkpoint.transactions@[i],
                ),
            r.metrics.transaction_count == checkpoint.transactions@.len(),
            r.metrics.records_created == checkpoint.transactions@.len(),
            r.metrics.processing_duration_ms == 0,
            r.metrics.event_count == if sum_events(checkpoint.transactions@) <= u64::MAX {
                sum_events(checkpoint.transactions@)
            } else {
                u64::MAX as int
            },
            r.metrics.object_change_count == if sum_object_changes(checkpoint.transactions@)
                <= u64::MAX {
                sum_object_changes(checkpoint.transactions@)
            } else {
                u64::MAX as int
            },
    {
        let mut records: Vec<Record> = Vec::new();
        let mut metrics = ProcessingMetrics {
            transaction_count: 0,
            event_count: 0,
            object_change_count: 0,
            processing_duration_ms: 0,
            records_created: 0,
        };
        let n = checkpoint.transactions.len();
        let mut i: usize = 0;
        while i < n
            invariant
                0 <= i <= n,
                n == checkpoint.transactions@.len(),
                checkpoint.transactions@.len() <= usize::MAX,
                records@.len() == i,
                forall|k: int|
                    0 <= k < i ==> is_tx_record(
                        #[trigger] records@[k],
                        checkpoint.transactions@[k],
                    ),
                metrics.transaction_count == i,
                metrics.processing_duration_ms == 0,
                metrics.event_count == if sum_events(
                    checkpoint.transactions@.subrange(0, i as int),
                ) <= u64::MAX {
                    sum_events(checkpoint.transactions@.subrange(0, i as int))
                } else {
                    u64::MAX as int
                },
                metrics.object_change_count == if sum_object_changes(
                    checkpoint.transactions@.subrange(0, i as int),
                ) <= u64::MAX {
                    sum_object_changes(checkpoint.transactions@.subrange(0, i as int))
                } else {
                    u64::MAX as int
                },
            decreases checkpoint.transactions@.len() - i,
        {
            let tx = &checkpoint.transactions[i];
            proof {
                assert(checkpoint.transactions@.subrange(0, i + 1).drop_last()
                    =~= checkpoint.transactions@.subrange(0, i as int));
                assert(checkpoint.transactions@.subrange(0, i + 1).last()
                    == checkpoint.transactions@[i as int]);
                lemma_sum_events_nonneg(checkpoint.transactions@.subrange(0, i as int));
                lemma_sum_object_changes_nonneg(
                    checkpoint.transactions@.subrange(0, i as int),
                );
            }
            metrics.transaction_count = metrics.transaction_count + 1;
            metrics.event_count = saturating_add_u64(
                metrics.event_count,
                tx.events.len() as u64,
            );
            metrics.object_change_count = saturating_add_u64(
                metrics.object_change_count,
                tx.object_changes.len() as u64,
            );
            let mut fields: Vec<(String, RecordValue)> = Vec::new();
            fields.push((String::from_str("digest"), RecordValue::Str(tx.digest.clone())));
            fields.push((String::from_str("sender"), RecordValue::Str(tx.sender.clone())));
            fields.push((String::from_str("kind"), RecordValue::Str(self.kind_name(&tx.kind))));
            fields.push((String::from_str("timestamp"), RecordValue::U64(tx.timestamp_ms)));
            let rec = Record { fields };
            proof {
                assert(rec.fields@[0].0@ == "digest"@);
                assert(rec.fields@[1].0@ == "sender"@);
                assert(rec.fields@[2].0@ == "kind"@);
                assert(rec.fields@[3].0@ == "timestamp"@);
            }
            records.push(rec);
            i = i + 1;
        }
        metrics.records_created = metrics.transaction_count;
        proof {
            assert(checkpoint.transactions@.subrange(0, checkpoint.transactions@.len() as int)
                =~= checkpoint.transactions@);
        }
        ProcessedData {
            checkpoint_sequence: checkpoint.checkpoint_summary.sequence_number,
            records,
            metrics,
        }
    }

    /// The textual label of a transaction kind.
    fn kind_name(&self, kind: &TransactionKind) -> (r: String)
        ensures
            r@ == kind_label(*kind),
    {
        match kind {
            TransactionKind::ProgrammableTransaction => String::from_str(
                "ProgrammableTransaction",
            ),
            TransactionKind::Transfer => String::from_str("Transfer"),
            TransactionKind::Publish => String::from_str("Publish"),
            TransactionKind::Upgrade => String::from_str("Upgrade"),
            TransactionKind::SystemTransaction => String::from_str("SystemTransaction"),
            TransactionKind::Other(s) => s.clone(),
        }
    }
}

impl Processor for ExampleProcessor {
    /// Always succeeds, returning exactly what `extract` derives.
    fn process(&mut self, checkpoint: &CheckpointData) -> (r: Result<
        ProcessedData,
        ProcessError,
    >)
        ensures
            r is Ok,
            (match r {
                Ok(pd) => {
                    &&& pd.checkpoint_sequence == checkpoint.checkpoint_summary.sequence_number
                    &&& pd.records@.len() == checkpoint.transactions@.len()
                    &&& (forall|i: int|
                        0 <= i < pd.records@.len() ==> is_tx_record(
                            #[trigger] pd.records@[i],
                            checkpoint.transactions@[i],
                        ))
                    &&& pd.metrics.transaction_count == checkpoint.transactions@.len()
                    &&& pd.metrics.records_created == checkpoint.transactions@.len()
                    &&& pd.metrics.processing_duration_ms == 0
                    &&& pd.metrics.event_count == if sum_events(checkpoint.transactions@)
                        <= u64::MAX {
                        sum_events(checkpoint.transactions@)
                    } else {
                        u64::MAX as int
                    }
                    &&& pd.metrics.object_change_count == if sum_object_changes(
                        checkpoint.transactions@,
                    ) <= u64::MAX {
                        sum_object_changes(checkpoint.transactions@)
                    } else {
                        u64::MAX as int
                    }
                },
                Err(_) => false,
            }),
    {
        Ok(self.extract(checkpoint))
    }

    /// Always succeeds; this processor's records need no storage.
    fn commit(&mut self, data: &ProcessedData) -> (r: Result<(), CommitError>)
        ensures
            r is Ok,
    {
        let _ = data;
        Ok(())
    }

    fn name(&self) -> String {
        self.name.clone()
    }
}

/// A sum of event counts is never negative.
proof fn lemma_sum_events_nonneg(txs: Seq<CheckpointTransaction>)
    ensures
        sum_events(txs) >= 0,
    decreases txs.len(),
{
    if txs.len() > 0 {
        lemma_sum_events_nonneg(txs.drop_last());
    }
}

/// A sum of object-change counts is never negative.
proof fn lemma_sum_object_changes_nonneg(txs: Seq<CheckpointTransaction>)
    ensures
        sum_object_changes(txs) >= 0,
    decreases txs.len(),
{
    if txs.len() > 0 {
        lemma_sum_object_changes_nonneg(txs.drop_last());
    }
}

/// Prefix order on sequences is transitive.
proof fn lemma_prefix_transitive(a: Seq<u64>, b: Seq<u64>, c: Seq<u64>)
    requires
        a.is_prefix_of(b),
        b.is_prefix_of(c),
    ensures
        a.is_prefix_of(c),
{
    assert(forall|i: int| 0 <= i < a.len() ==> a[i] == b[i] && b[i] == c[i]);
    assert(a =~= c.subrange(0, a.len() as int));
}

} // verus!
