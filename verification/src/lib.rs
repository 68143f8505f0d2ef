//! A verified checkpoint indexing engine: a regulator that decides which
//! sequence numbers to fetch under downstream backpressure, a broadcaster
//! that fans one checkpoint stream out to independent processing
//! pipelines, two per-pipeline execution modes (strict in-order and
//! bounded-parallel), and a crash-safe watermark protocol tying them into
//! an at-least-once, monotonically advancing whole.

pub mod assoc;
pub mod broadcaster;
pub mod channel;
pub mod codec;
pub mod data_source;
pub mod decimal;
pub mod ingestion;
pub mod processor;
pub mod storage;
pub mod types;
pub mod wire;

use vstd::prelude::*;
use vstd::string::StringExecFns;
use crate::storage::{StorageConfig, StorageType};
use crate::types::{DataSource, PipelineConfig, PipelineType};

verus! {

/// Status of a running indexer, as shown to operators.
#[derive(Clone, Debug)]
pub struct IndexerStatus {
    pub running: bool,
    pub data_source: String,
    pub current_checkpoint: u64,
    pub processed_count: u64,
    pub active_pipelines: usize,
}

/// Builder for an indexer configuration: sensible defaults, overridden
/// field by field.
#[derive(Clone, Debug)]
pub struct IndexerBuilder {
    pub config: PipelineConfig,
    pub storage_config: StorageConfig,
}

impl IndexerBuilder {
    /// A builder with the default configuration: the public testnet RPC
    /// source from checkpoint 1, fetch windows of 25, ten-way
    /// concurrent processing, in-memory storage, and 90-day retention.
    pub fn new(name: String) -> (r: Self)
        ensures
            r.config.name@ == name@,
            (r.config.data_source matches DataSource::Rpc { endpoint, auth_token }
                && endpoint@ == "https://rpc.testnet.sui.io"@ && auth_token is None),
            r.config.start_checkpoint == 1,
            r.config.batch_size == 25,
            r.config.worker_threads == 4,
            (r.config.pipeline_type matches PipelineType::Concurrent { max_concurrent }
                && max_concurrent == 10),
            r.config.retention_days == Some(90u64),
            r.storage_config.storage_type is InMemory,
            r.storage_config.connection_string is None,
            r.storage_config.max_connections == 5,
            r.storage_config.retention_days == Some(90u64),
    {
        IndexerBuilder {
            config: PipelineConfig {
                name,
                data_source: DataSource::Rpc {
                    endpoint: String::from_str("https://rpc.testnet.sui.io"),
                    auth_token: None,
                },
                start_checkpoint: 1,
                batch_size: 25,
                worker_threads: 4,
                pipeline_type: PipelineType::Concurrent { max_concurrent: 10 },
                retention_days: Some(90),
            },
            storage_config: StorageConfig {
                storage_type: StorageType::InMemory,
                connection_string: None,
                max_connections: 5,
                retention_days: Some(90),
            },
        }
    }

    /// Replaces the data source.
    pub fn with_data_source(self, source: DataSource) -> (r: Self)
        ensures
            r.config.data_source == source,
            r.config.name == self.config.name,
            r.config.start_checkpoint == self.config.start_checkpoint,
            r.config.batch_size == self.config.batch_size,
            r.config.worker_threads == self.config.worker_threads,
            r.config.pipeline_type == self.config.pipeline_type,
            r.config.retention_days == self.config.retention_days,
            r.storage_config == self.storage_config,
    {
        let mut b = self;
        b.config.data_source = source;
        b
    }

    /// Replaces the starting checkpoint, used when no watermark exists.
    pub fn with_start_checkpoint(self, checkpoint: u64) -> (r: Self)
        ensures
            r.config.start_checkpoint == checkpoint,
            r.config.name == self.config.name,
            r.config.data_source == self.config.data_source,
            r.config.batch_size == self.config.batch_size,
            r.config.worker_threads == self.config.worker_threads,
            r.config.pipeline_type == self.config.pipeline_type,
            r.config.retention_days == self.config.retention_days,
            r.storage_config == self.storage_config,
    {
        let mut b = self;
        b.config.start_checkpoint = checkpoint;
        b
    }

    /// Replaces the fetch window width.
    pub fn with_batch_size(self, size: u64) -> (r: Self)
        ensures
            r.config.batch_size == size,
            r.config.name == self.config.name,
            r.config.data_source == self.config.data_source,
            r.config.start_checkpoint == self.config.start_checkpoint,
            r.config.worker_threads == self.config.worker_threads,
            r.config.pipeline_type == self.config.pipeline_type,
            r.config.retention_days == self.config.retention_days,
            r.storage_config == self.storage_config,
    {
        let mut b = self;
        b.config.batch_size = size;
        b
    }

    /// Replaces the pipeline execution mode.
    pub fn with_pipeline_type(self, pipeline_type: PipelineType) -> (r: Self)
        ensures
            r.config.pipeline_type == pipeline_type,
            r.config.name == self.config.name,
            r.config.data_source == self.config.data_source,
            r.config.start_checkpoint == self.config.start_checkpoint,
            r.config.batch_size == self.config.batch_size,
            r.config.worker_threads == self.config.worker_threads,
            r.config.retention_days == self.config.retention_days,
            r.storage_config == self.storage_config,
    {
        let mut b = self;
        b.config.pipeline_type = pipeline_type;
        b
    }

    /// Replaces the storage configuration.
    pub fn with_storage(self, config: StorageConfig) -> (r: Self)
        ensures
            r.storage_config == config,
            r.config == self.config,
    {
        let mut b = self;
        b.storage_config = config;
        b
    }
}

} // verus!
