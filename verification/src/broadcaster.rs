//! The broadcaster: drives the regulator, publishes fetched checkpoints
//! to every subscribed pipeline through the bounded fan-out, records
//! progress, and marks invalid checkpoints permanently skipped. The
//! transport itself (fetching, sleeping, task scheduling) is the
//! caller's concern: it asks for the next window, fetches, and hands
//! each outcome back to these verified steps.

use vstd::prelude::*;
use std::sync::Arc;
use crate::channel::FanOut;
use crate::ingestion::{FetchWindow, IngestionMessage, Regulator, WatermarkStore};
use crate::types::{CheckpointData, IngestionProgress};

verus! {

/// Fan-out and flow control for one checkpoint stream.
#[derive(Debug)]
pub struct Broadcaster {
    regulator: Regulator,
    channel: FanOut,
    progress: IngestionProgress,
}

impl Broadcaster {
    /// The per-pipeline committed watermarks the regulator knows.
    pub open spec fn wm(&self) -> Map<Seq<char>, u64> {
        self.spec_regulator().wm()
    }

    /// The inner regulator.
    pub closed spec fn spec_regulator(&self) -> Regulator {
        self.regulator
    }

    /// The inner fan-out.
    pub closed spec fn spec_channel(&self) -> FanOut {
        self.channel
    }

    /// The progress snapshot.
    pub closed spec fn spec_progress(&self) -> IngestionProgress {
        self.progress
    }

    /// The newest sequence the source has offered.
    pub open spec fn latest(&self) -> u64 {
        self.spec_regulator().latest()
    }

    /// The effective low watermark gating fetches.
    pub open spec fn low_watermark(&self) -> u64 {
        self.spec_regulator().low_watermark()
    }

    /// How many messages have been published.
    pub open spec fn published(&self) -> int {
        self.spec_channel().published()
    }

    /// Both components keep their own invariants.
    pub open spec fn inv(&self) -> bool {
        &&& self.spec_regulator().inv()
        &&& self.spec_channel().inv()
    }

    /// A broadcaster over a fresh regulator and an empty fan-out of the
    /// given buffer capacity.
    pub fn new(regulator: Regulator, buffer_size: usize) -> (r: Self)
        requires
            regulator.inv(),
            buffer_size >= 1,
        ensures
            r.inv(),
            r.spec_regulator() == regulator,
            r.spec_channel().published() == 0,
            r.spec_channel().num_subscribers() == 0,
            r.spec_channel().cap() == buffer_size,
            r.spec_progress() == (IngestionProgress {
                current_checkpoint: 0,
                last_fetched_checkpoint: 0,
                checkpoints_processed: 0,
                total_events: 0,
                last_update_ms: 0,
            }),
    {
        Broadcaster {
            regulator,
            channel: FanOut::new(buffer_size),
            progress: IngestionProgress {
                current_checkpoint: 0,
                last_fetched_checkpoint: 0,
                checkpoints_processed: 0,
                total_events: 0,
                last_update_ms: 0,
            },
        }
    }

    /// Opens a receive handle on the fan-out; the subscriber sees every
    /// message published from now on and nothing earlier.
    pub fn subscribe(&mut self) -> (h: usize)
        requires
            old(self).inv(),
            old(self).spec_channel().num_subscribers() < usize::MAX,
        ensures
            final(self).inv(),
            h == old(self).spec_channel().num_subscribers(),
            final(self).spec_channel().num_subscribers() == old(self).spec_channel().num_subscribers() + 1,
            final(self).spec_channel().cursor_of(h as int) == old(self).published(),
            final(self).published() == old(self).published(),
            final(self).spec_regulator() == old(self).spec_regulator(),
            final(self).spec_progress() == old(self).spec_progress(),
    {
        self.channel.subscribe()
    }

    /// Registers a pipeline with the regulator, with the committed
    /// sequence it resumes from; its watermark now gates fetching.
    pub fn register_subscriber(&mut self, subscriber_id: &str, resume_from: u64)
        requires
            old(self).inv(),
        ensures
            final(self).inv(),
            final(self).wm() == old(self).wm().insert(subscriber_id@, resume_from),
            final(self).latest() == old(self).latest(),
            final(self).spec_channel() == old(self).spec_channel(),
            final(self).spec_progress() == old(self).spec_progress(),
            final(self).spec_regulator().skips() == old(self).spec_regulator().skips(),
            final(self).spec_regulator().batch() == old(self).spec_regulator().batch(),
    {
        self.regulator.update_watermark(subscriber_id, resume_from);
    }

    /// Removes a pipeline from the regulator's minimum computation.
    pub fn unregister_subscriber(&mut self, subscriber_id: &str)
        requires
            old(self).inv(),
        ensures
            final(self).inv(),
            final(self).wm() == old(self).wm().remove(subscriber_id@),
            final(self).latest() == old(self).latest(),
            final(self).spec_channel() == old(self).spec_channel(),
            final(self).spec_progress() == old(self).spec_progress(),
            final(self).spec_regulator().skips() == old(self).spec_regulator().skips(),
            final(self).spec_regulator().batch() == old(self).spec_regulator().batch(),
    {
        self.regulator.unregister(subscriber_id);
    }

    /// Records a pipeline's committed progress; the regulator may now
    /// move the fetch frontier forward.
    pub fn update_watermark(&mut self, subscriber_id: &str, sequence: u64)
        requires
            old(self).inv(),
        ensures
            final(self).inv(),
            final(self).wm() == old(self).wm().insert(subscriber_id@, sequence),
            final(self).latest() == old(self).latest(),
            final(self).spec_channel() == old(self).spec_channel(),
            final(self).spec_progress() == old(self).spec_progress(),
            final(self).spec_regulator().skips() == old(self).spec_regulator().skips(),
            final(self).spec_regulator().batch() == old(self).spec_regulator().batch(),
    {
        self.regulator.update_watermark(subscriber_id, sequence);
    }

    /// Records the newest sequence the source offers.
    pub fn set_latest_checkpoint(&mut self, checkpoint: u64)
        requires
            old(self).inv(),
        ensures
            final(self).inv(),
            final(self).latest() == vstd::math::max(
                old(self).latest() as int,
                checkpoint as int,
            ),
            final(self).wm() == old(self).wm(),
            final(self).spec_channel() == old(self).spec_channel(),
            final(self).spec_progress() == old(self).spec_progress(),
            final(self).spec_regulator().skips() == old(self).spec_regulator().skips(),
            final(self).spec_regulator().batch() == old(self).spec_regulator().batch(),
    {
        self.regulator.set_latest_checkpoint(checkpoint);
    }

    /// The next contiguous window to fetch, `None` when the source has
    /// nothing the slowest pipeline still needs. Every sequence in the
    /// window is at most the latest the source offered, and the window
    /// starts strictly above the low watermark.
    pub fn next_window(&self) -> (r: Option<FetchWindow>)
        requires
            self.inv(),
        ensures
            match r {
                Some(w) => {
                    &&& self.low_watermark() < self.latest()
                    &&& w.start == self.low_watermark() + 1
                    &&& w.end == vstd::math::min(
                        w.start + self.spec_regulator().batch() - 1,
                        self.latest() as int,
                    )
                    &&& w.start <= w.end <= self.latest()
                },
                None => self.low_watermark() >= self.latest(),
            },
    {
        self.regulator.get_next_batch()
    }

    /// Whether the source offers sequences not yet committed everywhere.
    pub fn has_more_data(&self) -> (r: bool)
        requires
            self.inv(),
        ensures
            r == (self.low_watermark() < self.latest()),
    {
        self.regulator.has_more_data()
    }

    /// Publishes a verified checkpoint to every subscriber and records
    /// progress. Refused, changing nothing, while a subscriber still
    /// has a full buffer: the caller waits for pipelines to drain and
    /// tries again.
    pub fn publish_checkpoint(&mut self, checkpoint: CheckpointData, now_ms: u64) -> (ok:
        bool)
        requires
            old(self).inv(),
            old(self).published() < u64::MAX,
        ensures
            final(self).inv(),
            ok == !old(self).spec_channel().lagging(),
            ok ==> {
                &&& final(self).published() == old(self).published() + 1
                &&& final(self).spec_channel().msg_at(old(self).published())
                    == IngestionMessage::Checkpoint(checkpoint)
                &&& final(self).spec_progress().last_fetched_checkpoint
                    == checkpoint.checkpoint_summary.sequence_number
                &&& final(self).spec_progress().last_update_ms == now_ms
                &&& final(self).spec_progress().checkpoints_processed == if old(self).spec_progress().checkpoints_processed < u64::MAX {
                    old(self).spec_progress().checkpoints_processed + 1
                } else {
                    u64::MAX as int
                }
            },
            !ok ==> final(self).published() == old(self).published() && final(self).spec_progress() == old(self).spec_progress(),
            final(self).spec_regulator() == old(self).spec_regulator(),
            final(self).spec_channel().num_subscribers() == old(self).spec_channel().num_subscribers(),
            final(self).spec_channel().cap() == old(self).spec_channel().cap(),
            forall|i: int|
                0 <= i < old(self).spec_channel().num_subscribers() ==> final(self).spec_channel().cursor_of(i) == old(self).spec_channel().cursor_of(i),
            forall|i: int, n: int|
                0 <= i < old(self).spec_channel().num_subscribers() && #[trigger] old(self).spec_channel().cursor_of(i) <= n < old(self).published() ==> #[trigger] final(self).spec_channel().msg_at(n) == old(self).spec_channel().msg_at(n),
    {
        let sequence = checkpoint.checkpoint_summary.sequence_number;
        let ok = self.channel.try_send(IngestionMessage::Checkpoint(checkpoint));
        if ok {
            self.progress.last_fetched_checkpoint = sequence;
            self.progress.last_update_ms = now_ms;
            if self.progress.checkpoints_processed < u64::MAX {
                self.progress.checkpoints_processed = self.progress.checkpoints_processed + 1;
            }
        }
        ok
    }

    /// Publishes an error message to every subscriber. Refused while a
    /// subscriber still has a full buffer.
    pub fn publish_error(&mut self, message: String) -> (ok: bool)
        requires
            old(self).inv(),
            old(self).published() < u64::MAX,
        ensures
            final(self).inv(),
            ok == !old(self).spec_channel().lagging(),
            ok ==> final(self).published() == old(self).published() + 1 && final(self).spec_channel().msg_at(old(self).published()) == IngestionMessage::Error(message),
            !ok ==> final(self).published() == old(self).published(),
            final(self).spec_regulator() == old(self).spec_regulator(),
            final(self).spec_progress() == old(self).spec_progress(),
            final(self).spec_channel().num_subscribers() == old(self).spec_channel().num_subscribers(),
            final(self).spec_channel().cap() == old(self).spec_channel().cap(),
            forall|i: int|
                0 <= i < old(self).spec_channel().num_subscribers() ==> final(self).spec_channel().cursor_of(i) == old(self).spec_channel().cursor_of(i),
            forall|i: int, n: int|
                0 <= i < old(self).spec_channel().num_subscribers() && #[trigger] old(self).spec_channel().cursor_of(i) <= n < old(self).published() ==> #[trigger] final(self).spec_channel().msg_at(n) == old(self).spec_channel().msg_at(n),
    {
        self.channel.try_send(IngestionMessage::Error(message))
    }

    /// Publishes the shutdown signal. Refused while a subscriber still
    /// has a full buffer.
    pub fn publish_shutdown(&mut self) -> (ok: bool)
        requires
            old(self).inv(),
            old(self).published() < u64::MAX,
        ensures
            final(self).inv(),
            ok == !old(self).spec_channel().lagging(),
            ok ==> final(self).published() == old(self).published() + 1 && final(self).spec_channel().msg_at(old(self).published()) == IngestionMessage::Shutdown,
            !ok ==> final(self).published() == old(self).published(),
            final(self).spec_regulator() == old(self).spec_regulator(),
            forall|i: int|
                0 <= i < old(self).spec_channel().num_subscribers() ==> final(self).spec_channel().cursor_of(i) == old(self).spec_channel().cursor_of(i),
            final(self).spec_channel().num_subscribers() == old(self).spec_channel().num_subscribers(),
    {
        self.channel.try_send(IngestionMessage::Shutdown)
    }

    /// Marks a sequence permanently skipped after its checkpoint failed
    /// verification: the regulator will advance past it instead of
    /// letting one bad checkpoint halt every pipeline.
    pub fn mark_invalid(&mut self, sequence: u64)
        requires
            old(self).inv(),
        ensures
            final(self).inv(),
            final(self).spec_regulator().skips() == old(self).spec_regulator().skips().push(
                sequence,
            ),
            final(self).spec_regulator().spec_skip_count() == if old(self).spec_regulator().spec_skip_count() < u64::MAX {
                old(self).spec_regulator().spec_skip_count() + 1
            } else {
                u64::MAX as int
            },
            final(self).wm() == old(self).wm(),
            final(self).latest() == old(self).latest(),
            final(self).spec_channel() == old(self).spec_channel(),
            final(self).spec_progress() == old(self).spec_progress(),
    {
        self.regulator.skip(sequence);
    }

    /// How many messages have been published, as a runtime value, so a
    /// driver can keep clear of the counter's ceiling.
    pub fn published_count(&self) -> (r: u64)
        requires
            self.inv(),
        ensures
            r == self.published(),
    {
        self.channel.published_count()
    }

    /// The skip metric: how many sequences were marked invalid.
    pub fn skip_metric(&self) -> (r: u64)
        ensures
            r == self.spec_regulator().spec_skip_count(),
    {
        self.regulator.skip_metric()
    }

    /// A snapshot of ingestion progress.
    pub fn get_progress(&self) -> (r: IngestionProgress)
        ensures
            r == self.spec_progress(),
    {
        self.progress
    }

    /// Delivers the next message for the subscriber holding `handle`.
    pub fn recv(&mut self, handle: usize) -> (r: Option<Arc<IngestionMessage>>)
        requires
            old(self).inv(),
            handle < old(self).spec_channel().num_subscribers(),
        ensures
            final(self).inv(),
            final(self).published() == old(self).published(),
            final(self).spec_regulator() == old(self).spec_regulator(),
            final(self).spec_progress() == old(self).spec_progress(),
            final(self).spec_channel().num_subscribers() == old(self).spec_channel().num_subscribers(),
            forall|i: int|
                0 <= i < old(self).spec_channel().num_subscribers() && i != handle ==> final(self).spec_channel().cursor_of(i) == old(self).spec_channel().cursor_of(i),
            match r {
                Some(m) => {
                    &&& old(self).spec_channel().cursor_of(handle as int) < old(self).published()
                    &&& m == old(self).spec_channel().msg_at(
                        old(self).spec_channel().cursor_of(handle as int),
                    )
                    &&& final(self).spec_channel().cursor_of(handle as int) == old(self).spec_channel().cursor_of(handle as int) + 1
                },
                None => {
                    &&& old(self).spec_channel().cursor_of(handle as int) >= old(self).published()
                    &&& final(self).spec_channel().cursor_of(handle as int) == old(self).spec_channel().cursor_of(handle as int)
                },
            },
    {
        self.channel.recv(handle)
    }
}

/// One pipeline's receive handle and its in-memory progress mirror.
#[derive(Debug)]
pub struct PipelineSubscriber {
    /// The pipeline's name.
    pub id: String,
    /// Receive handle into the broadcaster's fan-out.
    pub handle: usize,
    /// In-memory mirror of delivered progress.
    pub watermark: u64,
}

impl PipelineSubscriber {
    /// The in-memory watermark mirror.
    pub open spec fn spec_watermark(&self) -> u64 {
        self.watermark
    }

    /// A subscriber over the given receive handle, starting at
    /// watermark 0.
    pub fn new(id: String, handle: usize) -> (r: Self)
        ensures
            r.id == id,
            r.handle == handle,
            r.spec_watermark() == 0,
    {
        PipelineSubscriber { id, handle, watermark: 0 }
    }

    /// Records delivered progress.
    pub fn update_watermark(&mut self, sequence: u64)
        ensures
            final(self).spec_watermark() == sequence,
            final(self).id == old(self).id,
            final(self).handle == old(self).handle,
    {
        self.watermark = sequence;
    }

    /// The last recorded progress.
    pub fn get_watermark(&self) -> (r: u64)
        ensures
            r == self.spec_watermark(),
    {
        self.watermark
    }

    /// Receives the next broadcast message through this handle.
    pub fn recv(&mut self, broadcaster: &mut Broadcaster) -> (r: Option<Arc<IngestionMessage>>)
        requires
            old(broadcaster).inv(),
            old(self).handle < old(broadcaster).spec_channel().num_subscribers(),
        ensures
            *final(self) == *old(self),
            final(broadcaster).inv(),
            final(broadcaster).published() == old(broadcaster).published(),
            final(broadcaster).spec_regulator() == old(broadcaster).spec_regulator(),
            match r {
                Some(m) => {
                    &&& old(broadcaster).spec_channel().cursor_of(old(self).handle as int) < old(broadcaster).published()
                    &&& m == old(broadcaster).spec_channel().msg_at(
                        old(broadcaster).spec_channel().cursor_of(old(self).handle as int),
                    )
                    &&& final(broadcaster).spec_channel().cursor_of(old(self).handle as int)
                        == old(broadcaster).spec_channel().cursor_of(old(self).handle as int) + 1
                },
                None => old(broadcaster).spec_channel().cursor_of(old(self).handle as int)
                    >= old(broadcaster).published(),
            },
    {
        broadcaster.recv(self.handle)
    }
}

/// Where a registering pipeline resumes: its stored watermark when one
/// exists, otherwise just below the configured starting checkpoint, so
/// that the first fetch begins at `start_checkpoint`.
pub fn resume_point(stored: u64, start_checkpoint: u64) -> (r: u64)
    ensures
        r == if stored > 0 {
            stored as int
        } else if start_checkpoint > 0 {
            start_checkpoint - 1
        } else {
            0int
        },
{
    if stored > 0 {
        stored
    } else if start_checkpoint > 0 {
        start_checkpoint - 1
    } else {
        0
    }
}

/// Wires a broadcaster to a durable watermark store: registration reads
/// the stored watermark so a restarted pipeline resumes where its last
/// successful commit left off.
#[derive(Debug)]
pub struct IngestionPipeline<W: WatermarkStore> {
    pub broadcaster: Broadcaster,
    pub watermark_store: W,
}

impl<W: WatermarkStore> IngestionPipeline<W> {
    pub open spec fn inv(&self) -> bool {
        self.broadcaster.inv() && self.watermark_store.inv()
    }

    /// An ingestion pipeline over the given store, with the standard
    /// fan-out capacity.
    pub fn new(watermark_store: W, batch_size: u64) -> (r: Self)
        requires
            watermark_store.inv(),
            batch_size >= 1,
        ensures
            r.inv(),
            r.watermark_store == watermark_store,
            r.broadcaster.spec_channel().cap() == 100,
            r.broadcaster.published() == 0,
            r.broadcaster.spec_channel().num_subscribers() == 0,
            r.broadcaster.wm() == Map::<Seq<char>, u64>::empty(),
    {
        let regulator = Regulator::new(batch_size);
        IngestionPipeline { broadcaster: Broadcaster::new(regulator, 100), watermark_store }
    }

    /// Registers a processing pipeline: reads its durable watermark,
    /// lets that watermark gate fetching, and opens a receive handle.
    pub fn register_pipeline(&mut self, pipeline_id: String) -> (r: PipelineSubscriber)
        requires
            old(self).inv(),
            old(self).broadcaster.spec_channel().num_subscribers() < usize::MAX,
        ensures
            final(self).inv(),
            r.id == pipeline_id,
            r.handle == old(self).broadcaster.spec_channel().num_subscribers(),
            r.spec_watermark() == 0,
            final(self).watermark_store == old(self).watermark_store,
            final(self).broadcaster.wm() == old(self).broadcaster.wm().insert(
                pipeline_id@,
                if old(self).watermark_store.wm().dom().contains(pipeline_id@) {
                    old(self).watermark_store.wm()[pipeline_id@]
                } else {
                    0
                },
            ),
            final(self).broadcaster.spec_channel().cursor_of(r.handle as int) == old(self).broadcaster.published(),
            final(self).broadcaster.published() == old(self).broadcaster.published(),
    {
        let stored = self.watermark_store.get_watermark(pipeline_id.as_str());
        self.broadcaster.register_subscriber(pipeline_id.as_str(), stored);
        let handle = self.broadcaster.subscribe();
        PipelineSubscriber::new(pipeline_id, handle)
    }

    /// A snapshot of ingestion progress.
    pub fn get_progress(&self) -> (r: IngestionProgress)
        ensures
            r == self.broadcaster.spec_progress(),
    {
        self.broadcaster.get_progress()
    }
}

} // verus!
