//! Tests of registry construction and lookup against synthetic datasets.

use base64::Engine;
use ct_verify::dataset::{LogDataset, LogEntrySource, OperatorSource};
use ct_verify::registry::{build, DataError, DataField};

fn b64(data: &[u8]) -> String {
    base64::engine::general_purpose::STANDARD.encode(data)
}

fn sha256(data: &[u8]) -> Vec<u8> {
    ring::digest::digest(&ring::digest::SHA256, data).as_ref().to_vec()
}

/// A log entry whose id really is the SHA-256 of its key.
fn good_entry(key: &[u8], tag: &str) -> LogEntrySource {
    LogEntrySource {
        description: Some(format!("{} log", tag)),
        url: Some(format!("https://{}.example/", tag)),
        log_id: Some(b64(&sha256(key))),
        key: Some(b64(key)),
        mmd: Some(86400),
    }
}

fn one_operator(name: &str, logs: Vec<LogEntrySource>) -> LogDataset {
    LogDataset { operators: vec![OperatorSource { name: Some(name.to_string()), logs }] }
}

#[test]
fn valid_dataset_builds_with_every_field_carried_over() {
    let key_a = b"first demo key".to_vec();
    let key_b = b"second demo key".to_vec();
    let dataset = LogDataset {
        operators: vec![
            OperatorSource {
                name: Some("Alpha".to_string()),
                logs: vec![good_entry(&key_a, "alpha")],
            },
            OperatorSource {
                name: Some("Beta".to_string()),
                logs: vec![good_entry(&key_b, "beta")],
            },
        ],
    };
    let reg = build(&dataset).expect("valid dataset must build");
    assert_eq!(reg.logs.len(), 2);
    assert_eq!(reg.logs[0].description, "alpha log");
    assert_eq!(reg.logs[0].url, "https://alpha.example/");
    assert_eq!(reg.logs[0].operated_by, "Alpha");
    assert_eq!(reg.logs[0].public_key, key_a);
    assert_eq!(reg.logs[0].log_id, sha256(&key_a));
    assert_eq!(reg.logs[0].max_merge_delay, 86400);
    assert_eq!(reg.logs[1].operated_by, "Beta");
    assert_eq!(reg.logs[1].log_id, sha256(&key_b));
}

#[test]
fn identical_datasets_build_identical_registries() {
    let make = || {
        one_operator(
            "Op",
            vec![good_entry(b"key one", "one"), good_entry(b"key two", "two")],
        )
    };
    let r1 = build(&make()).expect("must build");
    let r2 = build(&make()).expect("must build");
    assert_eq!(r1.logs.len(), r2.logs.len());
    for (a, b) in r1.logs.iter().zip(r2.logs.iter()) {
        assert_eq!(a.description, b.description);
        assert_eq!(a.url, b.url);
        assert_eq!(a.operated_by, b.operated_by);
        assert_eq!(a.public_key, b.public_key);
        assert_eq!(a.log_id, b.log_id);
        assert_eq!(a.max_merge_delay, b.max_merge_delay);
    }
}

#[test]
fn lookup_finds_each_log_and_only_those() {
    let key = b"lookup key".to_vec();
    let dataset = one_operator("Op", vec![good_entry(&key, "look")]);
    let reg = build(&dataset).expect("must build");
    let id = sha256(&key);
    let found = reg.lookup(&id).expect("id must be known");
    assert_eq!(found.public_key, key);
    assert!(reg.lookup(&[0u8; 32]).is_none());
}

#[test]
fn missing_mmd_fails_with_data_error_and_no_registry() {
    let mut entry = good_entry(b"some key", "nommd");
    entry.mmd = None;
    let dataset = one_operator("Op", vec![entry]);
    match build(&dataset) {
        Err(DataError::MissingField { operator: 0, log: 0, field: DataField::Mmd }) => {},
        other => panic!("expected missing-mmd DataError, got {:?}", other.is_ok()),
    }
}

#[test]
fn each_missing_field_is_named() {
    let cases: Vec<(fn(&mut LogEntrySource), DataField)> = vec![
        (|e| e.description = None, DataField::Description),
        (|e| e.url = None, DataField::Url),
        (|e| e.log_id = None, DataField::LogId),
        (|e| e.key = None, DataField::Key),
        (|e| e.mmd = None, DataField::Mmd),
    ];
    for (strip, field) in cases {
        let mut entry = good_entry(b"k", "x");
        strip(&mut entry);
        let dataset = one_operator("Op", vec![entry]);
        match build(&dataset) {
            Err(DataError::MissingField { operator: 0, log: 0, field: f }) => {
                assert_eq!(f, field)
            },
            _ => panic!("expected MissingField"),
        }
    }
}

#[test]
fn missing_operator_name_is_rejected() {
    let dataset = LogDataset {
        operators: vec![OperatorSource { name: None, logs: vec![good_entry(b"k", "x")] }],
    };
    match build(&dataset) {
        Err(DataError::MissingName { operator: 0 }) => {},
        _ => panic!("expected MissingName"),
    }
}

#[test]
fn undecodable_base64_is_rejected() {
    let mut entry = good_entry(b"k", "x");
    entry.key = Some("!!! not base64 !!!".to_string());
    let dataset = one_operator("Op", vec![entry]);
    match build(&dataset) {
        Err(DataError::BadBase64 { operator: 0, log: 0, field: DataField::Key }) => {},
        _ => panic!("expected BadBase64 on key"),
    }
}

#[test]
fn log_id_of_wrong_length_is_rejected() {
    let mut entry = good_entry(b"k", "x");
    entry.log_id = Some(b64(&[0u8; 16]));
    let dataset = one_operator("Op", vec![entry]);
    match build(&dataset) {
        Err(DataError::BadLogIdLength { operator: 0, log: 0, length: 16 }) => {},
        _ => panic!("expected BadLogIdLength"),
    }
}

#[test]
fn log_id_not_matching_key_hash_is_rejected() {
    let mut entry = good_entry(b"real key", "x");
    entry.log_id = Some(b64(&[7u8; 32]));
    let dataset = one_operator("Op", vec![entry]);
    match build(&dataset) {
        Err(DataError::LogIdMismatch { operator: 0, log: 0 }) => {},
        _ => panic!("expected LogIdMismatch"),
    }
}

#[test]
fn duplicate_log_id_is_rejected_not_overwritten() {
    let dataset = one_operator("Op", vec![good_entry(b"same key", "a"), good_entry(b"same key", "b")]);
    match build(&dataset) {
        Err(DataError::DuplicateLogId { operator: 0, log: 1 }) => {},
        _ => panic!("expected DuplicateLogId"),
    }
}
