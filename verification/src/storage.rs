//! Storage layer: the storage-adapter interface the engine's records
//! flow into, an in-memory implementation for tests and single-process
//! runs, and the stub of a database-backed adapter whose connection
//! handling lives outside the engine.

use vstd::prelude::*;
use crate::assoc::AssocMap;
use crate::types::{clone_record, record_model, records_model, Record, RecordValueModel};

verus! {

/// Failure of a storage operation.
#[derive(Clone, Debug)]
pub enum StorageError {
    /// Configuration refused (missing connection string, unknown kind).
    Config(String),
    /// The backend failed.
    Backend(String),
}

/// Filter for record queries against a storage adapter.
#[derive(Clone, Debug)]
pub struct QueryFilter {
    pub sender: Option<String>,
    pub event_type: Option<String>,
    pub start_checkpoint: Option<u64>,
    pub end_checkpoint: Option<u64>,
    pub limit: Option<u64>,
}

impl Default for QueryFilter {
    /// The empty filter.
    fn default() -> (r: Self)
        ensures
            r.sender is None,
            r.event_type is None,
            r.start_checkpoint is None,
            r.end_checkpoint is None,
            r.limit is None,
    {
        QueryFilter {
            sender: None,
            event_type: None,
            start_checkpoint: None,
            end_checkpoint: None,
            limit: None,
        }
    }
}

/// Statistics of one storage table.
#[derive(Clone, Debug)]
pub struct TableStats {
    pub table_name: String,
    pub row_count: u64,
    pub disk_size_bytes: u64,
    pub last_updated: String,
}

/// Opaque tabular storage the processors commit into. The engine only
/// relies on the operations named here; their durability is the
/// implementation's concern.
pub trait StorageAdapter {
    /// Implementation invariant, established at construction and kept
    /// by every operation.
    spec fn inv(&self) -> bool;

    /// Prepares the backend (tables, migrations).
    fn init(&mut self) -> (r: Result<(), StorageError>)
        requires
            old(self).inv(),
        ensures
            final(self).inv(),
    ;

    /// Stores records for a pipeline; returns how many were written.
    fn store_records(&mut self, pipeline_id: &str, records: &Vec<Record>) -> (r: Result<
        usize,
        StorageError,
    >)
        requires
            old(self).inv(),
        ensures
            final(self).inv(),
    ;

    /// Queries stored records.
    fn query_records(&self, pipeline_id: &str, filter: &QueryFilter) -> Result<
        Vec<Record>,
        StorageError,
    >
        requires
            self.inv(),
    ;

    /// Persists a pipeline watermark.
    fn update_watermark(
        &mut self,
        pipeline_id: &str,
        checkpoint_sequence: u64,
        timestamp_ms: u64,
    ) -> (r: Result<(), StorageError>)
        requires
            old(self).inv(),
        ensures
            final(self).inv(),
    ;

    /// Reads a pipeline watermark; never written reads as `(0, 0)`.
    fn get_watermark(&self, pipeline_id: &str) -> Result<(u64, u64), StorageError>
        requires
            self.inv(),
    ;

    /// Drops data older than the given checkpoint; returns how many
    /// rows went.
    fn prune_data(&mut self, before_checkpoint: u64) -> (r: Result<u64, StorageError>)
        requires
            old(self).inv(),
        ensures
            final(self).inv(),
    ;

    /// Statistics of one table.
    fn get_table_stats(&self, table: &str) -> Result<TableStats, StorageError>
        requires
            self.inv(),
    ;
}

/// Relies on chrono's `DateTime::from_timestamp` and `to_rfc3339`: the
/// wall clock, read via std and defaulting to the epoch when the clock
/// reads before it, rendered as an RFC 3339 timestamp. The result
/// depends on the clock, so nothing is promised of it.
#[verifier::external_body]
fn now_rfc3339() -> String {
    let since_epoch = std::time::SystemTime::now()
        .duration_since(std::time::UNIX_EPOCH)
        .unwrap_or(std::time::Duration::from_secs(0));
    let seconds = i64::try_from(since_epoch.as_secs()).unwrap_or(0);
    match chrono::DateTime::from_timestamp(seconds, since_epoch.subsec_nanos()) {
        Some(t) => t.to_rfc3339(),
        None => String::new(),
    }
}

/// The contents of the records stored under `id`, in arrival order.
pub open spec fn stored_models(data: Seq<(String, Record)>, id: Seq<char>) -> Seq<
    Seq<(Seq<char>, RecordValueModel)>,
>
    decreases data.len(),
{
    if data.len() == 0 {
        Seq::empty()
    } else if data.last().0@ == id {
        stored_models(data.drop_last(), id).push(record_model(data.last().1))
    } else {
        stored_models(data.drop_last(), id)
    }
}

/// In-memory storage for tests and single-process runs: records are
/// kept per pipeline in arrival order, watermarks in a name-keyed map.
pub struct InMemoryStorage {
    data: Vec<(String, Record)>,
    watermarks: AssocMap<(u64, u64)>,
}

impl InMemoryStorage {
    /// What is stored, as (pipeline id, record) pairs in arrival order.
    pub closed spec fn spec_data(&self) -> Seq<(String, Record)> {
        self.data@
    }

    /// The stored watermarks.
    pub closed spec fn spec_watermarks(&self) -> Map<Seq<char>, (u64, u64)> {
        self.watermarks@
    }

    /// Empty storage.
    pub fn new() -> (r: Self)
        ensures
            r.inv(),
            r.spec_data() == Seq::<(String, Record)>::empty(),
            r.spec_watermarks() == Map::<Seq<char>, (u64, u64)>::empty(),
    {
        let r = InMemoryStorage { data: Vec::new(), watermarks: AssocMap::new() };
        proof {
            assert(r.spec_data() =~= Seq::<(String, Record)>::empty());
        }
        r
    }

    /// The records stored for a pipeline - exactly those, content for
    /// content, in arrival order.
    pub fn get_all_records(&self, pipeline_id: &str) -> (r: Vec<Record>)
        requires
            self.inv(),
        ensures
            records_model(r@) == stored_models(self.spec_data(), pipeline_id@),
    {
        let mut out: Vec<Record> = Vec::new();
        proof {
            assert(records_model(out@) =~= stored_models(
                self.data@.subrange(0, 0),
                pipeline_id@,
            ));
        }
        let mut i: usize = 0;
        while i < self.data.len()
            invariant
                0 <= i <= self.data@.len(),
                self.inv(),
                records_model(out@) == stored_models(
                    self.data@.subrange(0, i as int),
                    pipeline_id@,
                ),
            decreases self.data@.len() - i,
        {
            proof {
                assert(self.data@.subrange(0, i + 1).drop_last() =~= self.data@.subrange(
                    0,
                    i as int,
                ));
                assert(self.data@.subrange(0, i + 1).last() == self.data@[i as int]);
            }
            let key = String::from_str(pipeline_id);
            if self.data[i].0 == key {
                let ghost prior = out@;
                let copy = clone_record(&self.data[i].1);
                out.push(copy);
                proof {
                    let ghost target = stored_models(
                        self.data@.subrange(0, i + 1),
                        pipeline_id@,
                    );
                    assert(records_model(out@).len() == target.len());
                    assert forall|k: int|
                        0 <= k < records_model(out@).len() implies records_model(out@)[k]
                        == target[k] by {
                        if k < prior.len() {
                            assert(out@[k] == prior[k]);
                            assert(records_model(prior)[k] == target[k]);
                        } else {
                            assert(records_model(out@)[k] == record_model(copy));
                        }
                    }
                    assert(records_model(out@) =~= target);
                }
            }
            i = i + 1;
        }
        proof {
            assert(self.data@.subrange(0, self.data@.len() as int) =~= self.data@);
        }
        out
    }
}

impl StorageAdapter for InMemoryStorage {
    closed spec fn inv(&self) -> bool {
        self.watermarks.wf()
    }

    /// Nothing to prepare; cannot fail.
    fn init(&mut self) -> (r: Result<(), StorageError>)
        ensures
            r is Ok,
            final(self).spec_data() == old(self).spec_data(),
            final(self).spec_watermarks() == old(self).spec_watermarks(),
    {
        Ok(())
    }

    /// Appends the records, content for content, under the pipeline's
    /// id; cannot fail, and returns how many were appended.
    fn store_records(&mut self, pipeline_id: &str, records: &Vec<Record>) -> (r: Result<
        usize,
        StorageError,
    >)
        ensures
            (match r {
                Ok(count) => count == records@.len(),
                Err(_) => false,
            }),
            final(self).spec_watermarks() == old(self).spec_watermarks(),
            stored_models(final(self).spec_data(), pipeline_id@) == stored_models(
                old(self).spec_data(),
                pipeline_id@,
            ) + records_model(records@),
            forall|other: Seq<char>|
                other != pipeline_id@ ==> stored_models(final(self).spec_data(), other)
                    == stored_models(old(self).spec_data(), other),
    {
        let ghost base = self.data@;
        let mut i: usize = 0;
        while i < records.len()
            invariant
                self.watermarks.wf(),
                self.watermarks@ == old(self).spec_watermarks(),
                0 <= i <= records@.len(),
                stored_models(self.data@, pipeline_id@) == stored_models(base, pipeline_id@)
                    + records_model(records@.subrange(0, i as int)),
                forall|other: Seq<char>|
                    other != pipeline_id@ ==> stored_models(self.data@, other)
                        == stored_models(base, other),
            decreases records@.len() - i,
        {
            let copy = clone_record(&records[i]);
            let ghost pre = self.data@;
            self.data.push((String::from_str(pipeline_id), copy));
            proof {
                assert(self.data@.drop_last() =~= pre);
                assert(self.data@.last().0@ == pipeline_id@);
                assert(self.data@.last().1 == copy);
                assert(stored_models(self.data@, pipeline_id@) == stored_models(
                    pre,
                    pipeline_id@,
                ).push(record_model(copy)));
                assert(records@.subrange(0, i + 1).drop_last() =~= records@.subrange(
                    0,
                    i as int,
                ));
                assert(records@.subrange(0, i + 1).last() == records@[i as int]);
                assert(records_model(records@.subrange(0, i + 1)).len() == i + 1);
                assert(records_model(records@.subrange(0, i + 1))[i as int] == record_model(
                    records@[i as int],
                ));
                assert forall|t: int|
                    0 <= t < i implies records_model(records@.subrange(0, i + 1))[t]
                    == records_model(records@.subrange(0, i as int))[t] by {
                    assert(records@.subrange(0, i + 1)[t] == records@.subrange(
                        0,
                        i as int,
                    )[t]);
                }
                assert(stored_models(self.data@, pipeline_id@) =~= stored_models(
                    base,
                    pipeline_id@,
                ) + records_model(records@.subrange(0, i + 1)));
            }
            i = i + 1;
        }
        proof {
            assert(records@.subrange(0, records@.len() as int) =~= records@);
        }
        Ok(records.len())
    }

    /// The query surface is not kept in memory; returns no records and
    /// cannot fail.
    fn query_records(&self, pipeline_id: &str, filter: &QueryFilter) -> (r: Result<
        Vec<Record>,
        StorageError,
    >)
        ensures
            (match r {
                Ok(found) => found@.len() == 0,
                Err(_) => false,
            }),
    {
        let _ = filter;
        let _ = pipeline_id;
        Ok(Vec::new())
    }

    /// Persists the watermark pair; cannot fail.
    fn update_watermark(
        &mut self,
        pipeline_id: &str,
        checkpoint_sequence: u64,
        timestamp_ms: u64,
    ) -> (r: Result<(), StorageError>)
        ensures
            r is Ok,
            final(self).spec_watermarks() == old(self).spec_watermarks().insert(
                pipeline_id@,
                (checkpoint_sequence, timestamp_ms),
            ),
            final(self).spec_data() == old(self).spec_data(),
    {
        self.watermarks.set(pipeline_id, (checkpoint_sequence, timestamp_ms));
        Ok(())
    }

    /// Reads the watermark pair exactly; never written reads `(0, 0)`.
    fn get_watermark(&self, pipeline_id: &str) -> (r: Result<(u64, u64), StorageError>)
        ensures
            (match r {
                Ok(pair) => pair == if self.spec_watermarks().dom().contains(pipeline_id@) {
                    self.spec_watermarks()[pipeline_id@]
                } else {
                    (0u64, 0u64)
                },
                Err(_) => false,
            }),
    {
        match self.watermarks.get(pipeline_id) {
            Some(p) => Ok(p),
            None => Ok((0, 0)),
        }
    }

    /// Retention is not enforced in memory; drops nothing, cannot fail.
    fn prune_data(&mut self, before_checkpoint: u64) -> (r: Result<u64, StorageError>)
        ensures
            (match r {
                Ok(dropped) => dropped == 0,
                Err(_) => false,
            }),
            final(self).spec_data() == old(self).spec_data(),
            final(self).spec_watermarks() == old(self).spec_watermarks(),
    {
        let _ = before_checkpoint;
        Ok(0)
    }

    /// Empty statistics under the asked-for name; the timestamp comes
    /// from the clock and is unconstrained.
    fn get_table_stats(&self, table: &str) -> (r: Result<TableStats, StorageError>)
        ensures
            (match r {
                Ok(stats) => stats.table_name@ == table@ && stats.row_count == 0
                    && stats.disk_size_bytes == 0,
                Err(_) => false,
            }),
    {
        Ok(
            TableStats {
                table_name: String::from_str(table),
                row_count: 0,
                disk_size_bytes: 0,
                last_updated: now_rfc3339(),
            },
        )
    }
}

/// The in-memory adapter cannot fail and stores watermarks exactly.
impl InMemoryStorage {
    /// Persists a pipeline watermark with an exact contract; the trait
    /// method delegates here semantically.
    pub fn put_watermark(&mut self, pipeline_id: &str, checkpoint_sequence: u64, timestamp_ms:
        u64)
        requires
            old(self).inv(),
        ensures
            final(self).inv(),
            final(self).spec_watermarks() == old(self).spec_watermarks().insert(
                pipeline_id@,
                (checkpoint_sequence, timestamp_ms),
            ),
            final(self).spec_data() == old(self).spec_data(),
    {
        self.watermarks.set(pipeline_id, (checkpoint_sequence, timestamp_ms));
    }

    /// Reads a pipeline watermark with an exact contract.
    pub fn read_watermark(&self, pipeline_id: &str) -> (r: (u64, u64))
        requires
            self.inv(),
        ensures
            r == if self.spec_watermarks().dom().contains(pipeline_id@) {
                self.spec_watermarks()[pipeline_id@]
            } else {
                (0u64, 0u64)
            },
    {
        match self.watermarks.get(pipeline_id) {
            Some(p) => p,
            None => (0, 0),
        }
    }
}

/// Stub of a PostgreSQL-backed adapter. The connection pool and every
/// actual database call live outside the engine; the engine holds only
/// the configuration.
#[derive(Clone, Debug)]
pub struct PostgresAdapter {
    pub connection_string: String,
}

impl PostgresAdapter {
    /// An adapter for the given connection string.
    pub fn new(connection_string: String) -> (r: Self)
        ensures
            r.connection_string@ == connection_string@,
    {
        PostgresAdapter { connection_string }
    }
}

impl StorageAdapter for PostgresAdapter {
    closed spec fn inv(&self) -> bool {
        true
    }

    fn init(&mut self) -> Result<(), StorageError> {
        Ok(())
    }

    fn store_records(&mut self, pipeline_id: &str, records: &Vec<Record>) -> Result<
        usize,
        StorageError,
    > {
        let _ = pipeline_id;
        Ok(records.len())
    }

    fn query_records(&self, pipeline_id: &str, filter: &QueryFilter) -> Result<
        Vec<Record>,
        StorageError,
    > {
        let _ = filter;
        let _ = pipeline_id;
        Ok(Vec::new())
    }

    fn update_watermark(
        &mut self,
        pipeline_id: &str,
        checkpoint_sequence: u64,
        timestamp_ms: u64,
    ) -> Result<(), StorageError> {
        let _ = pipeline_id;
        let _ = checkpoint_sequence;
        let _ = timestamp_ms;
        Ok(())
    }

    fn get_watermark(&self, pipeline_id: &str) -> Result<(u64, u64), StorageError> {
        let _ = pipeline_id;
        Ok((0, 0))
    }

    fn prune_data(&mut self, before_checkpoint: u64) -> Result<u64, StorageError> {
        let _ = before_checkpoint;
        Ok(0)
    }

    fn get_table_stats(&self, table: &str) -> Result<TableStats, StorageError> {
        Ok(
            TableStats {
                table_name: String::from_str(table),
                row_count: 0,
                disk_size_bytes: 0,
                last_updated: now_rfc3339(),
            },
        )
    }
}

/// Storage configuration.
#[derive(Clone, Debug)]
pub struct StorageConfig {
    pub storage_type: StorageType,
    pub connection_string: Option<String>,
    pub max_connections: u32,
    pub retention_days: Option<u64>,
}

/// Storage backend kind.
#[derive(Clone, Debug)]
pub enum StorageType {
    PostgreSQL,
    InMemory,
    MongoDB,
    ClickHouse,
    Custom(String),
}

/// A constructed storage backend.
pub enum StorageBackend {
    Postgres(PostgresAdapter),
    InMemory(InMemoryStorage),
}

/// Storage factory.
pub struct StorageFactory;

impl StorageFactory {
    /// Builds the backend a configuration names. PostgreSQL needs a
    /// connection string; the document and analytics backends are not
    /// implemented, and custom backends are not configured here.
    pub fn create(config: &StorageConfig) -> (r: Result<StorageBackend, StorageError>)
        ensures
            match r {
                Ok(b) => match config.storage_type {
                    StorageType::PostgreSQL => config.connection_string is Some && (
                    b matches StorageBackend::Postgres(p)
                        && p.connection_string@ == config.connection_string->0@),
                    StorageType::InMemory => b matches StorageBackend::InMemory(m) && m.inv()
                        && m.spec_data().len() == 0,
                    _ => false,
                },
                Err(_) => match config.storage_type {
                    StorageType::PostgreSQL => config.connection_string is None,
                    StorageType::InMemory => false,
                    _ => true,
                },
            },
    {
        match &config.storage_type {
            StorageType::PostgreSQL => {
                match &config.connection_string {
                    Some(cs) => Ok(StorageBackend::Postgres(PostgresAdapter::new(cs.clone()))),
                    None => Err(
                        StorageError::Config(
                            String::from_str("PostgreSQL connection string required"),
                        ),
                    ),
                }
            },
            StorageType::InMemory => Ok(StorageBackend::InMemory(InMemoryStorage::new())),
            StorageType::MongoDB => Err(
                StorageError::Config(String::from_str("MongoDB adapter not implemented yet")),
            ),
            StorageType::ClickHouse => Err(
                StorageError::Config(
                    String::from_str("ClickHouse adapter not implemented yet"),
                ),
            ),
            StorageType::Custom(_) => Err(
                StorageError::Config(String::from_str("custom storage not configured")),
            ),
        }
    }
}

} // verus!
