//! Naming, parsing, wire forms, configuration defaults and the example
//! processor's record extraction.

use sui_indexer::codec::{watermark_from_json, watermark_to_json};
use sui_indexer::data_source::{
    available_range, collect_checkpoint_sequences, parse_checkpoint_filename,
    remote_checkpoint_url, sort_u64, LocalFileProvider,
};
use sui_indexer::decimal::{parse_u64_dec, u64_to_dec};
use sui_indexer::processor::Processor;
use sui_indexer::processor::ExampleProcessor;
use sui_indexer::storage::{
    StorageAdapter, StorageBackend, StorageConfig, StorageFactory, StorageType,
    InMemoryStorage,
};
use sui_indexer::types::{
    CertifiedCheckpointSummary, CheckpointContents, CheckpointData, CheckpointTransaction,
    Command, DataSource, Event, GasEffects, ObjectChange, ObjectChangeKind, PipelineType,
    Record, RecordValue, TransactionData, TransactionEffects, TransactionKind,
    TransactionStatus, Watermark,
};
use sui_indexer::IndexerBuilder;

#[test]
fn test_local_file_path_building() {
    let provider = LocalFileProvider::new("/tmp/checkpoints".to_string());
    let path = provider.checkpoint_path(50);
    assert!(path.contains("checkpoint_50.json"));
}

#[test]
fn test_remote_store_url_building() {
    let url = remote_checkpoint_url("https://checkpoints.mainnet.sui.io", "mainnet", 100);
    assert!(url.contains("mainnet"));
    assert!(url.contains("100.json"));
    assert_eq!(url, "https://checkpoints.mainnet.sui.io/mainnet/100.json");
}

#[test]
fn test_decimal_round_trip() {
    assert_eq!(u64_to_dec(0), "0");
    assert_eq!(u64_to_dec(7), "7");
    assert_eq!(u64_to_dec(1234567890), "1234567890");
    assert_eq!(u64_to_dec(u64::MAX), "18446744073709551615");
    assert_eq!(parse_u64_dec("0"), Some(0));
    assert_eq!(parse_u64_dec("18446744073709551615"), Some(u64::MAX));
    assert_eq!(parse_u64_dec("18446744073709551616"), None);
    assert_eq!(parse_u64_dec(""), None);
    assert_eq!(parse_u64_dec("12a"), None);
    assert_eq!(parse_u64_dec("007"), Some(7));
}

#[test]
fn test_parse_checkpoint_filename() {
    assert_eq!(parse_checkpoint_filename("checkpoint_50.json"), Some(50));
    assert_eq!(parse_checkpoint_filename("checkpoint_0.json"), Some(0));
    assert_eq!(parse_checkpoint_filename("checkpoint_.json"), None);
    assert_eq!(parse_checkpoint_filename("checkpoint_5x.json"), None);
    assert_eq!(parse_checkpoint_filename("snapshot_50.json"), None);
    assert_eq!(parse_checkpoint_filename("checkpoint_50.txt"), None);
}

#[test]
fn test_collect_checkpoint_sequences() {
    let names = vec![
        "checkpoint_30.json".to_string(),
        "notes.txt".to_string(),
        "checkpoint_10.json".to_string(),
        "checkpoint_20.json".to_string(),
        "checkpoint_5.json".to_string(),
    ];
    let all = collect_checkpoint_sequences(&names, 0, 10);
    assert_eq!(all, vec![5, 10, 20, 30]);
    let from_ten = collect_checkpoint_sequences(&names, 10, 2);
    assert_eq!(from_ten, vec![10, 20]);
    // A name listed twice yields its sequence once, and the limit keeps
    // the least qualifying sequences.
    let mut with_dup = names.clone();
    with_dup.push("checkpoint_10.json".to_string());
    assert_eq!(collect_checkpoint_sequences(&with_dup, 0, 10), vec![5, 10, 20, 30]);
    assert_eq!(collect_checkpoint_sequences(&with_dup, 0, 2), vec![5, 10]);
}

#[test]
fn test_sort_u64_orders_values() {
    let mut v = vec![5u64, 1, 4, 4, 2];
    sort_u64(&mut v);
    assert_eq!(v, vec![1, 2, 4, 4, 5]);
}

#[test]
fn test_available_range() {
    assert_eq!(available_range(5, 3, 10), vec![5, 6, 7]);
    assert_eq!(available_range(5, 10, 6), vec![5, 6]);
    assert!(available_range(7, 10, 6).is_empty());
}

#[test]
fn test_watermark_serialization() {
    let watermark = Watermark {
        checkpoint_sequence: 100,
        timestamp_ms: 1000000,
        updated_at: 2000000,
    };
    let json = watermark_to_json(&watermark);
    assert_eq!(
        json,
        "{\"checkpoint_sequence\":100,\"timestamp_ms\":1000000,\"updated_at\":2000000}"
    );
    let deserialized: Watermark = watermark_from_json(&json).unwrap();
    assert_eq!(deserialized.checkpoint_sequence, 100);
    assert_eq!(deserialized, watermark);
}

#[test]
fn test_watermark_deserialization_rejects_bad_text() {
    assert!(watermark_from_json("").is_none());
    assert!(watermark_from_json("{}").is_none());
    assert!(
        watermark_from_json("{\"checkpoint_sequence\":007,\"timestamp_ms\":1,\"updated_at\":2}")
            .is_none()
    );
    assert!(
        watermark_from_json("{\"checkpoint_sequence\":1,\"timestamp_ms\":2,\"updated_at\":3} ")
            .is_none()
    );
}

fn format_checkpoint() -> CheckpointData {
    CheckpointData {
        checkpoint_summary: CertifiedCheckpointSummary {
            sequence_number: 1,
            checkpoint_digest: "digest".to_string(),
            timestamp_ms: 1000,
            network_name: "testnet".to_string(),
            previous_checkpoint_digest: None,
            epoch: 1,
            reference_gas_price: 1000,
            total_transactions: 1,
            total_gas_units: 1000,
        },
        checkpoint_contents: CheckpointContents {
            transactions: vec!["tx1".to_string()],
            user_signatures: vec![],
        },
        transactions: vec![],
    }
}

#[test]
fn test_example_processor() {
    let mut processor = ExampleProcessor::new("test".to_string());
    let checkpoint = format_checkpoint();
    let result = processor.process(&checkpoint).unwrap();
    assert_eq!(result.checkpoint_sequence, 1);
}

#[test]
fn test_example_processor_extracts_records() {
    let mut checkpoint = format_checkpoint();
    checkpoint.transactions.push(CheckpointTransaction {
        digest: "0xabc".to_string(),
        sender: "0xsender".to_string(),
        kind: TransactionKind::Transfer,
        gas_budget: 10,
        gas_price: 1,
        data: TransactionData { inputs: vec![], commands: vec![Command {
            kind: "TransferObjects".to_string(),
            args: vec![],
        }] },
        effects: TransactionEffects {
            status: TransactionStatus::Success,
            gas_used: GasEffects {
                gas_object: "0xgas".to_string(),
                gas_cost: 1,
                computation_cost: 1,
                storage_cost: 1,
                storage_rebate: 0,
                non_refundable_storage_fee: 0,
            },
            modified_at_versions: vec![],
            created: vec![],
            deleted: vec![],
            shared_objects: vec![],
            dependencies: vec![],
        },
        events: vec![Event {
            package_id: "0xpkg".to_string(),
            module: "dex".to_string(),
            event_type: "Swap".to_string(),
            sender: "0xsender".to_string(),
            transaction_module: "dex".to_string(),
            parsed_json: "{}".to_string(),
            bcs: "".to_string(),
            event_index: 0,
        }],
        object_changes: vec![ObjectChange {
            kind: ObjectChangeKind::Mutated,
            object_id: "0xobj".to_string(),
            version: 2,
            digest: None,
        }],
        timestamp_ms: 999,
    });
    let processor = ExampleProcessor::new("test".to_string());
    let data = processor.extract(&checkpoint);
    assert_eq!(data.records.len(), 1);
    assert_eq!(data.metrics.transaction_count, 1);
    assert_eq!(data.metrics.event_count, 1);
    assert_eq!(data.metrics.object_change_count, 1);
    assert_eq!(data.metrics.records_created, 1);
    let rec = &data.records[0];
    assert_eq!(rec.fields[0].0, "digest");
    assert!(matches!(&rec.fields[0].1, RecordValue::Str(s) if s == "0xabc"));
    assert_eq!(rec.fields[2].0, "kind");
    assert!(matches!(&rec.fields[2].1, RecordValue::Str(s) if s == "Transfer"));
    assert!(matches!(rec.fields[3].1, RecordValue::U64(999)));
}

#[test]
fn test_in_memory_storage() {
    let mut storage = InMemoryStorage::new();
    assert!(storage.init().is_ok());
    let records = vec![Record {
        fields: vec![("test".to_string(), RecordValue::Str("data".to_string()))],
    }];
    let result = storage.store_records("pipeline1", &records);
    assert_eq!(result.unwrap(), 1);
    assert_eq!(storage.get_all_records("pipeline1").len(), 1);
    assert_eq!(storage.get_all_records("other").len(), 0);
}

#[test]
fn test_in_memory_storage_watermarks() {
    let mut storage = InMemoryStorage::new();
    assert_eq!(storage.get_watermark("p").unwrap(), (0, 0));
    storage.update_watermark("p", 41, 1700).unwrap();
    assert_eq!(storage.get_watermark("p").unwrap(), (41, 1700));
}

#[test]
fn test_storage_factory() {
    let config = StorageConfig {
        storage_type: StorageType::InMemory,
        connection_string: None,
        max_connections: 5,
        retention_days: Some(90),
    };
    let storage = StorageFactory::create(&config);
    assert!(storage.is_ok());
}

#[test]
fn test_storage_factory_postgres_needs_connection_string() {
    let config = StorageConfig {
        storage_type: StorageType::PostgreSQL,
        connection_string: None,
        max_connections: 5,
        retention_days: None,
    };
    assert!(StorageFactory::create(&config).is_err());
    let with_cs = StorageConfig {
        storage_type: StorageType::PostgreSQL,
        connection_string: Some("SECRET-REDACTED".to_string()),
        max_connections: 5,
        retention_days: None,
    };
    match StorageFactory::create(&with_cs).unwrap() {
        StorageBackend::Postgres(p) => {
            assert_eq!(p.connection_string, "SECRET-REDACTED")
        }
        _ => panic!("expected the PostgreSQL backend"),
    }
}

#[test]
fn test_builder_defaults_and_setters() {
    let b = IndexerBuilder::new("test".to_string());
    assert_eq!(b.config.name, "test");
    assert_eq!(b.config.start_checkpoint, 1);
    assert_eq!(b.config.batch_size, 25);
    assert!(matches!(
        b.config.pipeline_type,
        PipelineType::Concurrent { max_concurrent: 10 }
    ));
    assert!(matches!(b.storage_config.storage_type, StorageType::InMemory));
    let b2 = b
        .with_batch_size(10)
        .with_start_checkpoint(5)
        .with_data_source(DataSource::Local { path: "/tmp".to_string() })
        .with_pipeline_type(PipelineType::Sequential);
    assert_eq!(b2.config.batch_size, 10);
    assert_eq!(b2.config.start_checkpoint, 5);
    assert!(matches!(b2.config.pipeline_type, PipelineType::Sequential));
    assert!(matches!(b2.config.data_source, DataSource::Local { .. }));
}
