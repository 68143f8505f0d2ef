//! Ingestion layer: the watermark store that records durable
//! per-pipeline progress, and the regulator that turns those watermarks
//! and the latest available checkpoint into the next fetch window.

use vstd::prelude::*;
use crate::assoc::AssocMap;
use crate::types::CheckpointData;

verus! {

/// Message sent through the broadcaster to every subscriber.
#[derive(Clone, Debug, PartialEq)]
pub enum IngestionMessage {
    /// Checkpoint data ready for processing.
    Checkpoint(CheckpointData),
    /// An error occurred during ingestion.
    Error(String),
    /// Ingestion paused.
    Paused,
    /// Ingestion resumed.
    Resumed,
    /// Shutdown signal.
    Shutdown,
}

/// Failure of a watermark store write.
#[derive(Clone, Debug)]
pub enum StoreError {
    /// The backing store could not persist the write.
    Io(String),
}

/// Durable mapping from pipeline name to committed checkpoint sequence.
/// Callers guarantee monotonicity per pipeline; the store itself accepts
/// any write. Reads cannot fail: a name never written reads as 0.
pub trait WatermarkStore {
    /// The stored mapping.
    spec fn wm(&self) -> Map<Seq<char>, u64>;

    /// Implementation invariant.
    spec fn inv(&self) -> bool;

    /// Persists `sequence` as the watermark of `pipeline_id`. On `Err`
    /// nothing was written.
    fn update_watermark(&mut self, pipeline_id: &str, sequence: u64) -> (r: Result<
        (),
        StoreError,
    >)
        requires
            old(self).inv(),
        ensures
            final(self).inv(),
            match r {
                Ok(_) => final(self).wm() == old(self).wm().insert(pipeline_id@, sequence),
                Err(_) => final(self).wm() == old(self).wm(),
            },
    ;

    /// Reads the watermark of `pipeline_id`; a pipeline never written
    /// reads as 0.
    fn get_watermark(&self, pipeline_id: &str) -> (r: u64)
        requires
            self.inv(),
        ensures
            r == if self.wm().dom().contains(pipeline_id@) {
                self.wm()[pipeline_id@]
            } else {
                0
            },
    ;

    /// Deletes the watermark of `pipeline_id`.
    fn reset_watermark(&mut self, pipeline_id: &str) -> (r: Result<(), StoreError>)
        requires
            old(self).inv(),
        ensures
            final(self).inv(),
            match r {
                Ok(_) => final(self).wm() == old(self).wm().remove(pipeline_id@),
                Err(_) => final(self).wm() == old(self).wm(),
            },
    ;
}

/// In-memory watermark store, for tests and single-process runs.
#[derive(Clone, Debug)]
pub struct InMemoryWatermarkStore {
    map: AssocMap<u64>,
}

impl InMemoryWatermarkStore {
    /// An empty store.
    pub fn new() -> (r: Self)
        ensures
            r.inv(),
            r.wm() == Map::<Seq<char>, u64>::empty(),
    {
        InMemoryWatermarkStore { map: AssocMap::new() }
    }

    /// Persists a watermark. The in-memory store cannot fail, so this
    /// succeeds outright; the trait method delegates here.
    pub fn put_watermark(&mut self, pipeline_id: &str, sequence: u64)
        requires
            old(self).inv(),
        ensures
            final(self).inv(),
            final(self).wm() == old(self).wm().insert(pipeline_id@, sequence),
    {
        self.map.set(pipeline_id, sequence);
    }

    /// Deletes a watermark; cannot fail. The trait method delegates
    /// here.
    pub fn clear_watermark(&mut self, pipeline_id: &str)
        requires
            old(self).inv(),
        ensures
            final(self).inv(),
            final(self).wm() == old(self).wm().remove(pipeline_id@),
    {
        self.map.remove(pipeline_id);
    }
}

impl WatermarkStore for InMemoryWatermarkStore {
    closed spec fn wm(&self) -> Map<Seq<char>, u64> {
        self.map@
    }

    closed spec fn inv(&self) -> bool {
        self.map.wf()
    }

    fn update_watermark(&mut self, pipeline_id: &str, sequence: u64) -> (r: Result<
        (),
        StoreError,
    >)
        ensures
            r is Ok,
    {
        self.put_watermark(pipeline_id, sequence);
        Ok(())
    }

    fn get_watermark(&self, pipeline_id: &str) -> (r: u64) {
        match self.map.get(pipeline_id) {
            Some(v) => v,
            None => 0,
        }
    }

    fn reset_watermark(&mut self, pipeline_id: &str) -> (r: Result<(), StoreError>)
        ensures
            r is Ok,
    {
        self.clear_watermark(pipeline_id);
        Ok(())
    }
}

/// Writing a watermark and reading it back returns the written value,
/// and leaves every other pipeline's watermark untouched.
pub proof fn lemma_watermark_round_trip(m: Map<Seq<char>, u64>, id: Seq<char>, w: u64)
    ensures
        m.insert(id, w)[id] == w,
        m.insert(id, w).dom().contains(id),
        forall|other: Seq<char>|
            m.dom().contains(other) && other != id ==> m.insert(id, w)[other] == m[other],
{
}

/// A contiguous fetch window, both ends inclusive.
#[derive(Clone, Copy, Debug, PartialEq, Eq, Structural)]
pub struct FetchWindow {
    pub start: u64,
    pub end: u64,
}

/// The low watermark advanced past every permanently skipped sequence
/// directly above it, capped at `latest`.
pub open spec fn skip_advanced(skipped: Seq<u64>, low: u64, latest: u64) -> u64
    decreases latest - low,
{
    if low < latest && skipped.contains((low + 1) as u64) {
        skip_advanced(skipped, (low + 1) as u64, latest)
    } else {
        low
    }
}

/// What `skip_advanced` yields: the unique point at or above `low`
/// reachable through skipped sequences and not itself extendable.
pub proof fn lemma_skip_advanced(skipped: Seq<u64>, low: u64, latest: u64)
    ensures
        skip_advanced(skipped, low, latest) >= low,
        low <= latest ==> skip_advanced(skipped, low, latest) <= latest,
        low > latest ==> skip_advanced(skipped, low, latest) == low,
        forall|q: u64|
            low < q <= skip_advanced(skipped, low, latest) ==> skipped.contains(q),
        skip_advanced(skipped, low, latest) >= latest || !skipped.contains(
            (skip_advanced(skipped, low, latest) + 1) as u64,
        ),
    decreases latest - low,
{
    if low < latest && skipped.contains((low + 1) as u64) {
        lemma_skip_advanced(skipped, (low + 1) as u64, latest);
    }
}

/// Flow control: decides which contiguous window of sequence numbers to
/// fetch next, gated by the slowest registered pipeline's committed
/// watermark, the newest checkpoint the source offers, and the set of
/// sequences marked permanently skipped.
#[derive(Clone, Debug)]
pub struct Regulator {
    /// Fetch window width.
    batch_size: u64,
    /// Newest sequence the source has offered.
    latest_checkpoint: u64,
    /// Committed watermark per registered pipeline.
    watermarks: AssocMap<u64>,
    /// Cached minimum of `watermarks` (meaningless while empty).
    min_watermark: u64,
    /// Sequences marked permanently skipped (invalid checkpoints).
    skipped: Vec<u64>,
    /// How many times a sequence was marked skipped.
    skip_count: u64,
}

impl Regulator {
    /// The per-pipeline committed watermarks.
    pub closed spec fn wm(&self) -> Map<Seq<char>, u64> {
        self.watermarks@
    }

    /// The newest sequence the source has offered.
    pub closed spec fn latest(&self) -> u64 {
        self.latest_checkpoint
    }

    /// The configured window width.
    pub closed spec fn batch(&self) -> u64 {
        self.batch_size
    }

    /// The sequences marked permanently skipped.
    pub closed spec fn skips(&self) -> Seq<u64> {
        self.skipped@
    }

    /// The skip metric.
    pub closed spec fn spec_skip_count(&self) -> u64 {
        self.skip_count
    }

    /// With no registered pipeline the low watermark degrades to the
    /// latest available sequence, so the regulator asks for nothing.
    pub open spec fn base_low(&self) -> u64 {
        if self.wm().dom() =~= Set::<Seq<char>>::empty() {
            self.latest()
        } else {
            self.min_of_wm()
        }
    }

    /// The cached minimum committed watermark (meaningful only while
    /// some pipeline is registered).
    pub closed spec fn min_of_wm(&self) -> u64 {
        self.min_watermark
    }

    /// The effective low watermark: the slowest pipeline's committed
    /// sequence, advanced past permanently skipped sequences.
    pub open spec fn low_watermark(&self) -> u64 {
        skip_advanced(self.skips(), self.base_low(), self.latest())
    }

    /// Representation invariant: the cached minimum is the least
    /// registered watermark, and the window width is positive.
    pub closed spec fn inv(&self) -> bool {
        &&& self.watermarks.wf()
        &&& self.batch_size >= 1
        &&& (!(self.wm().dom() =~= Set::<Seq<char>>::empty()) ==> (exists|k: Seq<char>|
            self.wm().dom().contains(k) && self.wm()[k] == self.min_watermark) && (forall|
            k: Seq<char>,
        |
            self.wm().dom().contains(k) ==> self.wm()[k] >= self.min_watermark))
    }

    /// A regulator with no pipelines, no skips, and nothing offered yet.
    pub fn new(batch_size: u64) -> (r: Self)
        requires
            batch_size >= 1,
        ensures
            r.inv(),
            r.batch() == batch_size,
            r.latest() == 0,
            r.wm() == Map::<Seq<char>, u64>::empty(),
            r.skips() == Seq::<u64>::empty(),
            r.spec_skip_count() == 0,
    {
        let r = Regulator {
            batch_size,
            latest_checkpoint: 0,
            watermarks: AssocMap::new(),
            min_watermark: 0,
            skipped: Vec::new(),
            skip_count: 0,
        };
        proof {
            assert(r.skips() =~= Seq::<u64>::empty());
        }
        r
    }

    /// Recomputes the cached minimum after a registry change.
    fn refresh_min(&mut self)
        requires
            old(self).watermarks.wf(),
            old(self).batch_size >= 1,
        ensures
            final(self).inv(),
            final(self).wm() == old(self).wm(),
            final(self).latest() == old(self).latest(),
            final(self).batch() == old(self).batch(),
            final(self).skips() == old(self).skips(),
            final(self).spec_skip_count() == old(self).spec_skip_count(),
    {
        match self.watermarks.min_value() {
            Some(m) => {
                self.min_watermark = m;
            },
            None => {
                self.min_watermark = 0;
            },
        }
    }

    /// Records the committed watermark a pipeline reports, registering
    /// the pipeline if it was unknown.
    pub fn update_watermark(&mut self, pipeline_id: &str, checkpoint: u64)
        requires
            old(self).inv(),
        ensures
            final(self).inv(),
            final(self).wm() == old(self).wm().insert(pipeline_id@, checkpoint),
            final(self).latest() == old(self).latest(),
            final(self).batch() == old(self).batch(),
            final(self).skips() == old(self).skips(),
            final(self).spec_skip_count() == old(self).spec_skip_count(),
    {
        self.watermarks.set(pipeline_id, checkpoint);
        self.refresh_min();
    }

    /// Removes a pipeline from the minimum computation; used when a
    /// subscriber unregisters mid-run.
    pub fn unregister(&mut self, pipeline_id: &str)
        requires
            old(self).inv(),
        ensures
            final(self).inv(),
            final(self).wm() == old(self).wm().remove(pipeline_id@),
            final(self).latest() == old(self).latest(),
            final(self).batch() == old(self).batch(),
            final(self).skips() == old(self).skips(),
            final(self).spec_skip_count() == old(self).spec_skip_count(),
    {
        self.watermarks.remove(pipeline_id);
        self.refresh_min();
    }

    /// Records the newest sequence the source offers. Never moves
    /// backwards.
    pub fn set_latest_checkpoint(&mut self, checkpoint: u64)
        requires
            old(self).inv(),
        ensures
            final(self).inv(),
            final(self).latest() == vstd::math::max(
                old(self).latest() as int,
                checkpoint as int,
            ),
            final(self).wm() == old(self).wm(),
            final(self).batch() == old(self).batch(),
            final(self).skips() == old(self).skips(),
            final(self).spec_skip_count() == old(self).spec_skip_count(),
    {
        if checkpoint > self.latest_checkpoint {
            self.latest_checkpoint = checkpoint;
        }
    }

    /// Marks a sequence permanently skipped (its checkpoint failed
    /// verification) and counts the skip.
    pub fn skip(&mut self, sequence: u64)
        requires
            old(self).inv(),
        ensures
            final(self).inv(),
            final(self).skips() == old(self).skips().push(sequence),
            final(self).spec_skip_count() == if old(self).spec_skip_count() < u64::MAX {
                old(self).spec_skip_count() + 1
            } else {
                u64::MAX as int
            },
            final(self).wm() == old(self).wm(),
            final(self).latest() == old(self).latest(),
            final(self).batch() == old(self).batch(),
    {
        self.skipped.push(sequence);
        if self.skip_count < u64::MAX {
            self.skip_count = self.skip_count + 1;
        }
    }

    /// The skip metric.
    pub fn skip_metric(&self) -> (r: u64)
        ensures
            r == self.spec_skip_count(),
    {
        self.skip_count
    }

    /// With at least one registered pipeline, the fetch gate's base is
    /// the least committed watermark: it belongs to some registered
    /// pipeline, and no registered pipeline sits below it. Together
    /// with `lemma_skip_advanced` this ties `low_watermark()` to the
    /// slowest pipeline.
    pub proof fn lemma_base_low_is_min(&self)
        requires
            self.inv(),
            !(self.wm().dom() =~= Set::<Seq<char>>::empty()),
        ensures
            exists|k: Seq<char>|
                self.wm().dom().contains(k) && self.wm()[k] == self.base_low(),
            forall|k: Seq<char>|
                self.wm().dom().contains(k) ==> self.wm()[k] >= self.base_low(),
    {
    }

    /// Computes the effective low watermark.
    fn current_low_watermark(&self) -> (r: u64)
        requires
            self.inv(),
        ensures
            r == self.low_watermark(),
    {
        let mut l: u64 = if self.watermarks.is_empty() {
            self.latest_checkpoint
        } else {
            self.min_watermark
        };
        assert(l == self.base_low());
        let ghost base = l;
        while l < self.latest_checkpoint && contains_u64(&self.skipped, l + 1)
            invariant
                self.inv(),
                l >= base,
                skip_advanced(self.skips(), base, self.latest()) == skip_advanced(
                    self.skips(),
                    l,
                    self.latest(),
                ),
            decreases self.latest() - l,
        {
            l = l + 1;
        }
        l
    }

    /// The next contiguous window to fetch: it begins one past the
    /// effective low watermark, never reaches past the latest available
    /// sequence, and is at most `batch` wide. Returns `None` exactly
    /// when the source has nothing new.
    pub fn get_next_batch(&self) -> (r: Option<FetchWindow>)
        requires
            self.inv(),
        ensures
            match r {
                Some(w) => {
                    &&& self.low_watermark() < self.latest()
                    &&& w.start == self.low_watermark() + 1
                    &&& w.end == vstd::math::min(
                        w.start + self.batch() - 1,
                        self.latest() as int,
                    )
                    &&& w.start <= w.end <= self.latest()
                },
                None => self.low_watermark() >= self.latest(),
            },
    {
        let low = self.current_low_watermark();
        if low >= self.latest_checkpoint {
            return None;
        }
        let s = low + 1;
        let remaining = self.latest_checkpoint - s;
        let e = if self.batch_size - 1 <= remaining {
            s + (self.batch_size - 1)
        } else {
            self.latest_checkpoint
        };
        Some(FetchWindow { start: s, end: e })
    }

    /// Whether the source offers sequences the slowest pipeline has not
    /// yet committed.
    pub fn has_more_data(&self) -> (r: bool)
        requires
            self.inv(),
        ensures
            r == (self.low_watermark() < self.latest()),
    {
        let low = self.current_low_watermark();
        low < self.latest_checkpoint
    }
}

/// Whether `v` holds `x`.
fn contains_u64(v: &Vec<u64>, x: u64) -> (r: bool)
    ensures
        r == v@.contains(x),
{
    let mut i: usize = 0;
    while i < v.len()
        invariant
            0 <= i <= v@.len(),
            forall|m: int| 0 <= m < i ==> v@[m] != x,
        decreases v@.len() - i,
    {
        if v[i] == x {
            return true;
        }
        i = i + 1;
    }
    assert(!v@.contains(x));
    false
}

} // verus!
