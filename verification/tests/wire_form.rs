//! Round trips through the broadcast message wire form.

use sui_indexer::ingestion::IngestionMessage;
use sui_indexer::types::{
    CertifiedCheckpointSummary, CheckpointContents, CheckpointData, CheckpointTransaction,
    Command, CreatedObject, DeletedObject, Event, GasEffects, ModifiedObject, ObjectChange,
    ObjectChangeKind, Owner, SharedObjectMutation, TransactionData, TransactionEffects,
    TransactionInput, TransactionKind, TransactionStatus,
};
use sui_indexer::wire::{decode_message, encode_message, Wire};

fn wire_checkpoint() -> CheckpointData {
    CheckpointData {
        checkpoint_summary: CertifiedCheckpointSummary {
            sequence_number: 42,
            checkpoint_digest: "0xdigest:with;odd,chars\"{}".to_string(),
            timestamp_ms: 1234,
            network_name: "mainnet".to_string(),
            previous_checkpoint_digest: Some("0xprev".to_string()),
            epoch: 7,
            reference_gas_price: 1000,
            total_transactions: 1,
            total_gas_units: 555,
        },
        checkpoint_contents: CheckpointContents {
            transactions: vec!["tx1".to_string(), "tx2".to_string()],
            user_signatures: vec!["sig".to_string()],
        },
        transactions: vec![CheckpointTransaction {
            digest: "0xabc".to_string(),
            sender: "0xsender".to_string(),
            kind: TransactionKind::Other("custom".to_string()),
            gas_budget: 9,
            gas_price: 2,
            data: TransactionData {
                inputs: vec![
                    TransactionInput::Pure { bytes: "00ff".to_string() },
                    TransactionInput::Object {
                        object_id: "0xobj".to_string(),
                        version: 3,
                        digest: "0xd".to_string(),
                    },
                    TransactionInput::SharedObject {
                        object_id: "0xsh".to_string(),
                        initial_shared_version: 1,
                    },
                ],
                commands: vec![Command {
                    kind: "MoveCall".to_string(),
                    args: vec!["a".to_string(), "b".to_string()],
                }],
            },
            effects: TransactionEffects {
                status: TransactionStatus::Failure { error: "abort(1)".to_string() },
                gas_used: GasEffects {
                    gas_object: "0xgas".to_string(),
                    gas_cost: 5,
                    computation_cost: 3,
                    storage_cost: 2,
                    storage_rebate: 1,
                    non_refundable_storage_fee: 0,
                },
                modified_at_versions: vec![ModifiedObject {
                    object_id: "0xm".to_string(),
                    sequence_number: 41,
                }],
                created: vec![CreatedObject {
                    object_id: "0xc".to_string(),
                    version: 1,
                    owner: Owner::Shared { initial_shared_version: 9 },
                }],
                deleted: vec![DeletedObject { object_id: "0xdel".to_string(), version: 2 }],
                shared_objects: vec![SharedObjectMutation {
                    object_id: "0xsh".to_string(),
                    version: 4,
                }],
                dependencies: vec!["0xdep".to_string()],
            },
            events: vec![Event {
                package_id: "0xpkg".to_string(),
                module: "dex".to_string(),
                event_type: "Swap".to_string(),
                sender: "0xsender".to_string(),
                transaction_module: "dex".to_string(),
                parsed_json: "{\"price\": 3}".to_string(),
                bcs: "AAEC".to_string(),
                event_index: 0,
            }],
            object_changes: vec![ObjectChange {
                kind: ObjectChangeKind::Mutated,
                object_id: "0xobj".to_string(),
                version: 4,
                digest: None,
            }],
            timestamp_ms: 1234,
        }],
    }
}

#[test]
fn test_checkpoint_message_round_trip() {
    let original = IngestionMessage::Checkpoint(wire_checkpoint());
    let text = encode_message(&original);
    let decoded = decode_message(&text).unwrap();
    assert_eq!(decoded, original);
}

#[test]
fn test_control_message_round_trips() {
    for original in [
        IngestionMessage::Error("fetch failed: timeout".to_string()),
        IngestionMessage::Paused,
        IngestionMessage::Resumed,
        IngestionMessage::Shutdown,
    ] {
        let text = encode_message(&original);
        let decoded = decode_message(&text).unwrap();
        assert_eq!(decoded, original);
    }
}

#[test]
fn test_decode_rejects_damaged_text() {
    let text = encode_message(&IngestionMessage::Error("x".to_string()));
    assert!(decode_message("").is_none());
    assert!(decode_message("Z").is_none());
    assert!(decode_message(&text[..text.len() - 1]).is_none());
    let mut trailing = text.clone();
    trailing.push('!');
    assert!(decode_message(&trailing).is_none());
}

#[test]
fn test_owner_variants() {
    let owner = Owner::AddressOwner("0x1234".to_string());
    let mut text = String::new();
    owner.write(&mut text);
    assert!(text.contains("0x1234"));
    let round = <Owner as Wire>::read(&text, 0).unwrap();
    assert_eq!(round.0, owner);
    assert_eq!(round.1, text.chars().count());
}
