//! Core data model of the checkpoint indexing engine: checkpoints,
//! transactions, events, watermarks, processed records and configuration.

use vstd::prelude::*;

verus! {

/// A checkpoint: a sequentially numbered batch of transactions with
/// consistent state, the unit of ingestion.
#[derive(Clone, Debug, PartialEq)]
pub struct CheckpointData {
    pub checkpoint_summary: CertifiedCheckpointSummary,
    pub checkpoint_contents: CheckpointContents,
    pub transactions: Vec<CheckpointTransaction>,
}

/// Certified checkpoint summary with signatures.
#[derive(Clone, Debug, PartialEq)]
pub struct CertifiedCheckpointSummary {
    /// Sequential checkpoint number.
    pub sequence_number: u64,
    /// Digest of checkpoint contents.
    pub checkpoint_digest: String,
    /// Timestamp of checkpoint creation.
    pub timestamp_ms: u64,
    /// Network where the checkpoint exists.
    pub network_name: String,
    /// Previous checkpoint digest.
    pub previous_checkpoint_digest: Option<String>,
    /// Epoch number.
    pub epoch: u64,
    /// Reference gas price.
    pub reference_gas_price: u64,
    /// Total transactions.
    pub total_transactions: u64,
    /// Total gas paid.
    pub total_gas_units: u64,
}

/// Contents of a checkpoint: transaction digests and user signatures.
#[derive(Clone, Debug, PartialEq)]
pub struct CheckpointContents {
    pub transactions: Vec<String>,
    pub user_signatures: Vec<String>,
}

/// A single transaction inside a checkpoint.
#[derive(Clone, Debug, PartialEq)]
pub struct CheckpointTransaction {
    pub digest: String,
    pub sender: String,
    pub kind: TransactionKind,
    pub gas_budget: u64,
    pub gas_price: u64,
    pub data: TransactionData,
    pub effects: TransactionEffects,
    pub events: Vec<Event>,
    pub object_changes: Vec<ObjectChange>,
    pub timestamp_ms: u64,
}

/// Kind of a transaction.
#[derive(Clone, Debug, PartialEq, Eq)]
pub enum TransactionKind {
    ProgrammableTransaction,
    Transfer,
    Publish,
    Upgrade,
    SystemTransaction,
    Other(String),
}

/// Execution data of a transaction.
#[derive(Clone, Debug, PartialEq)]
pub struct TransactionData {
    pub inputs: Vec<TransactionInput>,
    pub commands: Vec<Command>,
}

/// Input to a transaction.
#[derive(Clone, Debug, PartialEq)]
pub enum TransactionInput {
    Pure { bytes: String },
    Object { object_id: String, version: u64, digest: String },
    SharedObject { object_id: String, initial_shared_version: u64 },
}

/// A command executed by a transaction.
#[derive(Clone, Debug, PartialEq)]
pub struct Command {
    pub kind: String,
    pub args: Vec<String>,
}

/// Effects of executing a transaction.
#[derive(Clone, Debug, PartialEq)]
pub struct TransactionEffects {
    pub status: TransactionStatus,
    pub gas_used: GasEffects,
    pub modified_at_versions: Vec<ModifiedObject>,
    pub created: Vec<CreatedObject>,
    pub deleted: Vec<DeletedObject>,
    pub shared_objects: Vec<SharedObjectMutation>,
    pub dependencies: Vec<String>,
}

/// Status of a transaction.
#[derive(Clone, Debug, PartialEq, Eq)]
pub enum TransactionStatus {
    Success,
    Failure { error: String },
}

/// Gas usage of a transaction.
#[derive(Clone, Debug, PartialEq)]
pub struct GasEffects {
    pub gas_object: String,
    pub gas_cost: u64,
    pub computation_cost: u64,
    pub storage_cost: u64,
    pub storage_rebate: u64,
    pub non_refundable_storage_fee: u64,
}

/// An object modified at a version.
#[derive(Clone, Debug, PartialEq)]
pub struct ModifiedObject {
    pub object_id: String,
    pub sequence_number: u64,
}

/// An object created by a transaction.
#[derive(Clone, Debug, PartialEq)]
pub struct CreatedObject {
    pub object_id: String,
    pub version: u64,
    pub owner: Owner,
}

/// An object deleted by a transaction.
#[derive(Clone, Debug, PartialEq)]
pub struct DeletedObject {
    pub object_id: String,
    pub version: u64,
}

/// A mutation of a shared object.
#[derive(Clone, Debug, PartialEq)]
pub struct SharedObjectMutation {
    pub object_id: String,
    pub version: u64,
}

/// Ownership of an object.
#[derive(Clone, Debug, PartialEq)]
pub enum Owner {
    AddressOwner(String),
    ObjectOwner(String),
    Shared { initial_shared_version: u64 },
    Immutable,
}

/// A blockchain event. The engine never inspects the event payload; it
/// carries the raw JSON text as an opaque string.
#[derive(Clone, Debug, PartialEq)]
pub struct Event {
    pub package_id: String,
    pub module: String,
    pub event_type: String,
    pub sender: String,
    pub transaction_module: String,
    /// Raw JSON text of the event payload, opaque to the engine.
    pub parsed_json: String,
    pub bcs: String,
    pub event_index: u64,
}

/// An object state change.
#[derive(Clone, Debug, PartialEq)]
pub struct ObjectChange {
    pub kind: ObjectChangeKind,
    pub object_id: String,
    pub version: u64,
    pub digest: Option<String>,
}

/// Kind of an object change.
#[derive(Clone, Copy, Debug, PartialEq, Eq, Structural)]
pub enum ObjectChangeKind {
    Created,
    Mutated,
    Transferred,
    Deleted,
    Wrapped,
    Unwrapped,
}

/// Where checkpoints come from.
#[derive(Clone, Debug, PartialEq)]
pub enum DataSource {
    /// Remote checkpoint store (e.g. S3 or plain HTTP).
    Remote { url: String, network: String },
    /// Local filesystem.
    Local { path: String },
    /// RPC endpoint.
    Rpc { endpoint: String, auth_token: Option<String> },
}

/// The durable progress marker of one pipeline: all checkpoints at or
/// below `checkpoint_sequence` have been committed.
#[derive(Clone, Copy, Debug, PartialEq, Eq, Structural)]
pub struct Watermark {
    /// Latest committed checkpoint sequence.
    pub checkpoint_sequence: u64,
    /// Timestamp of the latest committed checkpoint.
    pub timestamp_ms: u64,
    /// Wall time of the last update.
    pub updated_at: u64,
}

impl Default for Watermark {
    /// The zero watermark: nothing committed yet.
    fn default() -> (r: Self)
        ensures
            r.checkpoint_sequence == 0,
            r.timestamp_ms == 0,
            r.updated_at == 0,
    {
        Watermark { checkpoint_sequence: 0, timestamp_ms: 0, updated_at: 0 }
    }
}

/// Per-pipeline checkpoint state as reported to operators.
#[derive(Clone, Debug)]
pub struct PipelineCheckpoint {
    pub pipeline_name: String,
    pub watermark: Watermark,
    pub last_error: Option<String>,
    pub error_count: u64,
}

/// One value inside a processed record.
#[derive(Clone, Debug, PartialEq)]
pub enum RecordValue {
    Str(String),
    U64(u64),
}

/// One record derived from a checkpoint by a processor: a flat list of
/// named fields. Serialisation to a concrete storage format is the
/// storage collaborator's concern.
#[derive(Clone, Debug, PartialEq)]
pub struct Record {
    pub fields: Vec<(String, RecordValue)>,
}

/// The content of one record value, for specifications: strings by
/// their characters.
pub enum RecordValueModel {
    Str(Seq<char>),
    U64(u64),
}

/// The content of a record value.
pub open spec fn value_model(v: RecordValue) -> RecordValueModel {
    match v {
        RecordValue::Str(s) => RecordValueModel::Str(s@),
        RecordValue::U64(n) => RecordValueModel::U64(n),
    }
}

/// The content of a record: its named fields in order.
pub open spec fn record_model(r: Record) -> Seq<(Seq<char>, RecordValueModel)> {
    r.fields@.map_values(|f: (String, RecordValue)| (f.0@, value_model(f.1)))
}

/// The contents of a list of records, in order.
pub open spec fn records_model(records: Seq<Record>) -> Seq<
    Seq<(Seq<char>, RecordValueModel)>,
> {
    records.map_values(|r: Record| record_model(r))
}

/// Copies a record field by field; the copy has exactly the same
/// content.
pub fn clone_record(r: &Record) -> (c: Record)
    ensures
        record_model(c) == record_model(*r),
{
    let mut fields: Vec<(String, RecordValue)> = Vec::new();
    let mut i: usize = 0;
    while i < r.fields.len()
        invariant
            0 <= i <= r.fields@.len(),
            fields@.len() == i,
            forall|k: int|
                0 <= k < i ==> (#[trigger] fields@[k]).0@ == r.fields@[k].0@ && value_model(
                    fields@[k].1,
                ) == value_model(r.fields@[k].1),
        decreases r.fields@.len() - i,
    {
        let key = r.fields[i].0.clone();
        let value = match &r.fields[i].1 {
            RecordValue::Str(text) => RecordValue::Str(text.clone()),
            RecordValue::U64(n) => RecordValue::U64(*n),
        };
        fields.push((key, value));
        i = i + 1;
    }
    let c = Record { fields };
    proof {
        assert(record_model(c) =~= record_model(*r));
    }
    c
}

/// Processed data ready for storage.
#[derive(Clone, Debug, PartialEq)]
pub struct ProcessedData {
    /// Source checkpoint sequence.
    pub checkpoint_sequence: u64,
    /// Processed records.
    pub records: Vec<Record>,
    /// Metrics of this processing step.
    pub metrics: ProcessingMetrics,
}

/// Processing metrics.
#[derive(Clone, Copy, Debug, PartialEq, Eq, Structural)]
pub struct ProcessingMetrics {
    pub transaction_count: u64,
    pub event_count: u64,
    pub object_change_count: u64,
    pub processing_duration_ms: u64,
    pub records_created: u64,
}

impl Default for ProcessingMetrics {
    /// All counters zero.
    fn default() -> (r: Self)
        ensures
            r == (ProcessingMetrics {
                transaction_count: 0,
                event_count: 0,
                object_change_count: 0,
                processing_duration_ms: 0,
                records_created: 0,
            }),
    {
        ProcessingMetrics {
            transaction_count: 0,
            event_count: 0,
            object_change_count: 0,
            processing_duration_ms: 0,
            records_created: 0,
        }
    }
}

/// Configuration of one indexing pipeline.
#[derive(Clone, Debug, PartialEq)]
pub struct PipelineConfig {
    pub name: String,
    pub data_source: DataSource,
    pub start_checkpoint: u64,
    pub batch_size: u64,
    pub worker_threads: usize,
    pub pipeline_type: PipelineType,
    pub retention_days: Option<u64>,
}

/// Execution mode of a processing pipeline.
#[derive(Clone, Debug, PartialEq)]
pub enum PipelineType {
    /// Strict in-order processing with batched commits.
    Sequential,
    /// Bounded out-of-order processing.
    Concurrent { max_concurrent: usize },
}

/// Progress of the ingestion loop. The wall-clock processing rate is a
/// presentation concern and is derived outside the engine.
#[derive(Clone, Copy, Debug, PartialEq, Eq, Structural)]
pub struct IngestionProgress {
    /// Current checkpoint being processed.
    pub current_checkpoint: u64,
    /// Last checkpoint fetched.
    pub last_fetched_checkpoint: u64,
    /// Checkpoints processed so far.
    pub checkpoints_processed: u64,
    /// Events seen so far.
    pub total_events: u64,
    /// Wall time of the last update.
    pub last_update_ms: u64,
}

impl Default for IngestionProgress {
    /// All counters zero.
    fn default() -> (r: Self)
        ensures
            r == (IngestionProgress {
                current_checkpoint: 0,
                last_fetched_checkpoint: 0,
                checkpoints_processed: 0,
                total_events: 0,
                last_update_ms: 0,
            }),
    {
        IngestionProgress {
            current_checkpoint: 0,
            last_fetched_checkpoint: 0,
            checkpoints_processed: 0,
            total_events: 0,
            last_update_ms: 0,
        }
    }
}

/// Overall status of a running indexer.
#[derive(Clone, Debug)]
pub struct IndexerStatus {
    pub is_running: bool,
    pub current_checkpoint: u64,
    pub total_processed: u64,
    pub error_count: u64,
    pub last_error: Option<String>,
    pub uptime_ms: u64,
    /// Progress per pipeline, keyed by pipeline name.
    pub pipelines: Vec<(String, IngestionProgress)>,
}

/// Filter for record queries.
#[derive(Clone, Debug)]
pub struct QueryFilter {
    pub sender: Option<String>,
    pub event_type: Option<String>,
    pub object_id: Option<String>,
    pub transaction_kind: Option<TransactionKind>,
    pub start_checkpoint: Option<u64>,
    pub end_checkpoint: Option<u64>,
    pub start_timestamp_ms: Option<u64>,
    pub end_timestamp_ms: Option<u64>,
    pub limit: Option<u64>,
}

impl Default for QueryFilter {
    /// The empty filter: selects everything.
    fn default() -> (r: Self)
        ensures
            r.sender is None,
            r.event_type is None,
            r.object_id is None,
            r.transaction_kind is None,
            r.start_checkpoint is None,
            r.end_checkpoint is None,
            r.start_timestamp_ms is None,
            r.end_timestamp_ms is None,
            r.limit is None,
    {
        QueryFilter {
            sender: None,
            event_type: None,
            object_id: None,
            transaction_kind: None,
            start_checkpoint: None,
            end_checkpoint: None,
            start_timestamp_ms: None,
            end_timestamp_ms: None,
            limit: None,
        }
    }
}

/// Result of a record query.
#[derive(Clone, Debug)]
pub struct QueryResult {
    pub execution_time_ms: u64,
    pub result_count: u64,
    pub results: Vec<Record>,
}

/// Retention configuration.
#[derive(Clone, Debug)]
pub struct RetentionPolicy {
    pub days: u64,
    pub checkpoints: Option<u64>,
    pub auto_prune: bool,
}

} // verus!
