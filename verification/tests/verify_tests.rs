//! End-to-end tests: synthetic CT logs with real ECDSA P-256 keys, SCTs
//! signed over the reconstructed digitally-signed struct, embedded in a
//! hand-assembled DER certificate, and verified through the whole pipeline.

use base64::Engine;
use ct_verify::dataset::{LogDataset, LogEntrySource, OperatorSource};
use ct_verify::registry::{build, LogRegistry};
use ct_verify::sct::{build_signed_data, encode_sct, Sct, SignedEntry};
use ct_verify::verdict::{verify_certificate, verify_sct_record, SctScan, VerificationOutcome, VerifyError};
use ring::signature::{EcdsaKeyPair, KeyPair, ECDSA_P256_SHA256_ASN1_SIGNING};

const EC_SPKI_PREFIX: [u8; 26] = [
    0x30, 0x59, 0x30, 0x13, 0x06, 0x07, 0x2A, 0x86, 0x48, 0xCE, 0x3D, 0x02, 0x01, 0x06, 0x08,
    0x2A, 0x86, 0x48, 0xCE, 0x3D, 0x03, 0x01, 0x07, 0x03, 0x42, 0x00,
];

struct TestLog {
    keypair: EcdsaKeyPair,
    spki: Vec<u8>,
    id: Vec<u8>,
}

fn sha256(data: &[u8]) -> Vec<u8> {
    ring::digest::digest(&ring::digest::SHA256, data).as_ref().to_vec()
}

fn b64(data: &[u8]) -> String {
    base64::engine::general_purpose::STANDARD.encode(data)
}

fn make_log() -> TestLog {
    let rng = ring::rand::SystemRandom::new();
    let pkcs8 = EcdsaKeyPair::generate_pkcs8(&ECDSA_P256_SHA256_ASN1_SIGNING, &rng).unwrap();
    let keypair =
        EcdsaKeyPair::from_pkcs8(&ECDSA_P256_SHA256_ASN1_SIGNING, pkcs8.as_ref(), &rng).unwrap();
    let mut spki = EC_SPKI_PREFIX.to_vec();
    spki.extend_from_slice(keypair.public_key().as_ref());
    let id = sha256(&spki);
    TestLog { keypair, spki, id }
}

fn registry_of(logs: &[&TestLog]) -> LogRegistry {
    let entries = logs
        .iter()
        .enumerate()
        .map(|(n, l)| LogEntrySource {
            description: Some(format!("test log {}", n)),
            url: Some(format!("https://log{}.example/", n)),
            log_id: Some(b64(&l.id)),
            key: Some(b64(&l.spki)),
            mmd: Some(86400),
        })
        .collect();
    let dataset = LogDataset {
        operators: vec![OperatorSource { name: Some("Test Operator".to_string()), logs: entries }],
    };
    build(&dataset).expect("test dataset must build")
}

/// Signs an SCT for `entry` at `timestamp` and returns the raw record.
fn make_sct(log: &TestLog, timestamp: u64, entry: &SignedEntry) -> Vec<u8> {
    let rng = ring::rand::SystemRandom::new();
    let data = build_signed_data(0, timestamp, entry, &[]);
    let sig = log.keypair.sign(&rng, &data).unwrap();
    let sct = Sct {
        version: 0,
        log_id: log.id.clone(),
        timestamp,
        extensions: Vec::new(),
        hash_alg: 4,
        sig_alg: 3,
        signature: sig.as_ref().to_vec(),
    };
    encode_sct(&sct)
}

fn der_len(n: usize) -> Vec<u8> {
    if n < 128 {
        vec![n as u8]
    } else if n < 256 {
        vec![0x81, n as u8]
    } else {
        vec![0x82, (n >> 8) as u8, n as u8]
    }
}

fn tlv(tag: u8, content: &[u8]) -> Vec<u8> {
    let mut out = vec![tag];
    out.extend_from_slice(&der_len(content.len()));
    out.extend_from_slice(content);
    out
}

fn be16(n: usize) -> [u8; 2] {
    [(n >> 8) as u8, n as u8]
}

/// The raw extension value: OCTET STRING envelope around the TLS list.
fn sct_extension_value(records: &[Vec<u8>]) -> Vec<u8> {
    let mut inner: Vec<u8> = Vec::new();
    for r in records {
        inner.extend_from_slice(&be16(r.len()));
        inner.extend_from_slice(r);
    }
    let mut body = be16(inner.len()).to_vec();
    body.extend_from_slice(&inner);
    tlv(0x04, &body)
}

/// A minimal X.509 v3 certificate carrying the given SCT extension value.
fn certificate_with_extension(spki: &[u8], ext_value: Option<&[u8]>) -> Vec<u8> {
    let ecdsa_sha256: Vec<u8> =
        tlv(0x30, &[0x06, 0x08, 0x2A, 0x86, 0x48, 0xCE, 0x3D, 0x04, 0x03, 0x02]);
    let mut tbs_content: Vec<u8> = Vec::new();
    tbs_content.extend_from_slice(&tlv(0xA0, &tlv(0x02, &[0x02]))); // [0] version 2 (v3)
    tbs_content.extend_from_slice(&tlv(0x02, &[0x01])); // serial 1
    tbs_content.extend_from_slice(&ecdsa_sha256); // signature algorithm
    tbs_content.extend_from_slice(&tlv(0x30, &[])); // issuer: empty name
    let utc_from = tlv(0x17, b"240101000000Z");
    let utc_to = tlv(0x17, b"330101000000Z");
    let mut validity = utc_from;
    validity.extend_from_slice(&utc_to);
    tbs_content.extend_from_slice(&tlv(0x30, &validity));
    tbs_content.extend_from_slice(&tlv(0x30, &[])); // subject: empty name
    tbs_content.extend_from_slice(spki);
    if let Some(v) = ext_value {
        let oid = tlv(0x06, &[0x2B, 0x06, 0x01, 0x04, 0x01, 0xD6, 0x79, 0x02, 0x04, 0x02]);
        let mut ext = oid;
        ext.extend_from_slice(&tlv(0x04, v));
        let ext_seq = tlv(0x30, &tlv(0x30, &ext));
        tbs_content.extend_from_slice(&tlv(0xA3, &ext_seq)); // [3] extensions
    }
    let tbs = tlv(0x30, &tbs_content);
    let mut cert_content = tbs;
    cert_content.extend_from_slice(&ecdsa_sha256);
    let mut sig_bits = vec![0x00];
    sig_bits.extend_from_slice(&[0xAB; 8]); // placeholder; the parse does not check it
    cert_content.extend_from_slice(&tlv(0x03, &sig_bits));
    tlv(0x30, &cert_content)
}

#[test]
fn three_valid_scts_all_report_valid() {
    let (l1, l2, l3) = (make_log(), make_log(), make_log());
    let registry = registry_of(&[&l1, &l2, &l3]);
    let entry = SignedEntry::X509 { certificate: b"entry the logs signed".to_vec() };
    let ts: u64 = 1_700_000_000_000;
    let records =
        vec![make_sct(&l1, ts, &entry), make_sct(&l2, ts, &entry), make_sct(&l3, ts, &entry)];
    let cert = certificate_with_extension(&l1.spki, Some(&sct_extension_value(&records)));
    let scan = verify_certificate(&registry, &cert, &entry, ts + 60_000, 0).expect("must scan");
    match scan {
        SctScan::Scts(report) => {
            assert_eq!(report.len(), 3);
            for i in 0..3 {
                assert_eq!(report.outcome_at(i), Some(VerificationOutcome::Valid));
            }
            assert_eq!(report.outcome_for_log(&l2.id), Some(VerificationOutcome::Valid));
        },
        SctScan::NoSctExtension => panic!("extension must be found"),
    }
}

#[test]
fn unknown_log_is_isolated_to_its_sct() {
    let (l1, l2, l3) = (make_log(), make_log(), make_log());
    // l2 is left out of the registry.
    let registry = registry_of(&[&l1, &l3]);
    let entry = SignedEntry::X509 { certificate: b"entry".to_vec() };
    let ts: u64 = 1_700_000_000_000;
    let records =
        vec![make_sct(&l1, ts, &entry), make_sct(&l2, ts, &entry), make_sct(&l3, ts, &entry)];
    let cert = certificate_with_extension(&l1.spki, Some(&sct_extension_value(&records)));
    let scan = verify_certificate(&registry, &cert, &entry, ts + 60_000, 0).expect("must scan");
    match scan {
        SctScan::Scts(report) => {
            assert_eq!(report.outcome_at(0), Some(VerificationOutcome::Valid));
            assert_eq!(report.outcome_at(1), Some(VerificationOutcome::UnknownLog));
            assert_eq!(report.outcome_at(2), Some(VerificationOutcome::Valid));
        },
        SctScan::NoSctExtension => panic!("extension must be found"),
    }
}

#[test]
fn timestamp_ten_years_ahead_is_future_timestamp() {
    let l1 = make_log();
    let registry = registry_of(&[&l1]);
    let entry = SignedEntry::X509 { certificate: b"entry".to_vec() };
    let now: u64 = 1_700_000_000_000;
    let ten_years_ms: u64 = 10 * 365 * 24 * 3600 * 1000;
    let raw = make_sct(&l1, now + ten_years_ms, &entry);
    let outcome = verify_sct_record(&registry, &raw, &entry, now, 1000);
    assert_eq!(outcome.outcome, VerificationOutcome::FutureTimestamp);
    assert_eq!(outcome.log_id.as_deref(), Some(l1.id.as_slice()));
}

#[test]
fn tampered_signature_is_signature_invalid() {
    let l1 = make_log();
    let registry = registry_of(&[&l1]);
    let entry = SignedEntry::X509 { certificate: b"entry".to_vec() };
    let ts: u64 = 1_700_000_000_000;
    let mut raw = make_sct(&l1, ts, &entry);
    let last = raw.len() - 1;
    raw[last] ^= 0x01;
    let outcome = verify_sct_record(&registry, &raw, &entry, ts + 1000, 0);
    assert_eq!(outcome.outcome, VerificationOutcome::SignatureInvalid);
}

#[test]
fn unsupported_algorithm_pair_is_signature_invalid() {
    let l1 = make_log();
    let registry = registry_of(&[&l1]);
    let entry = SignedEntry::X509 { certificate: b"entry".to_vec() };
    let ts: u64 = 1_700_000_000_000;
    let mut raw = make_sct(&l1, ts, &entry);
    // hash algorithm byte sits right after the (empty) extensions field
    raw[43] = 5; // SHA-384: not a pair this verifier accepts
    let outcome = verify_sct_record(&registry, &raw, &entry, ts + 1000, 0);
    assert_eq!(outcome.outcome, VerificationOutcome::SignatureInvalid);
}

#[test]
fn rsa_algorithm_pair_with_wrong_signature_is_signature_invalid() {
    let l1 = make_log();
    let registry = registry_of(&[&l1]);
    let entry = SignedEntry::X509 { certificate: b"entry".to_vec() };
    let ts: u64 = 1_700_000_000_000;
    let sct = Sct {
        version: 0,
        log_id: l1.id.clone(),
        timestamp: ts,
        extensions: Vec::new(),
        hash_alg: 4,
        sig_alg: 1, // RSA, against an EC key: can never verify
        signature: vec![0x55; 64],
    };
    let raw = encode_sct(&sct);
    let outcome = verify_sct_record(&registry, &raw, &entry, ts + 1000, 0);
    assert_eq!(outcome.outcome, VerificationOutcome::SignatureInvalid);
}

#[test]
fn malformed_record_is_isolated_to_its_sct() {
    let l1 = make_log();
    let registry = registry_of(&[&l1]);
    let entry = SignedEntry::X509 { certificate: b"entry".to_vec() };
    let ts: u64 = 1_700_000_000_000;
    let records = vec![vec![0xFF, 0x00, 0x01], make_sct(&l1, ts, &entry)];
    let cert = certificate_with_extension(&l1.spki, Some(&sct_extension_value(&records)));
    let scan = verify_certificate(&registry, &cert, &entry, ts + 60_000, 0).expect("must scan");
    match scan {
        SctScan::Scts(report) => {
            assert_eq!(report.outcome_at(0), Some(VerificationOutcome::Malformed));
            assert_eq!(report.outcome_at(1), Some(VerificationOutcome::Valid));
        },
        SctScan::NoSctExtension => panic!("extension must be found"),
    }
}

#[test]
fn entry_length_past_buffer_fails_whole_extension_with_no_outcomes() {
    let l1 = make_log();
    let registry = registry_of(&[&l1]);
    let entry = SignedEntry::X509 { certificate: b"entry".to_vec() };
    // Entry declares 0x40 bytes but only 2 follow.
    let mut body = be16(4).to_vec();
    body.extend_from_slice(&[0x00, 0x40, 0xAA, 0xBB]);
    let ext_value = tlv(0x04, &body);
    let cert = certificate_with_extension(&l1.spki, Some(&ext_value));
    match verify_certificate(&registry, &cert, &entry, 1_700_000_000_000, 0) {
        Err(VerifyError::Extension(_)) => {},
        Err(VerifyError::Certificate(_)) => panic!("certificate itself must parse"),
        Ok(_) => panic!("malformed extension must fail, returning no outcomes"),
    }
}

#[test]
fn certificate_without_sct_extension_reports_no_scts() {
    let l1 = make_log();
    let registry = registry_of(&[&l1]);
    let entry = SignedEntry::X509 { certificate: b"entry".to_vec() };
    let cert = certificate_with_extension(&l1.spki, None);
    match verify_certificate(&registry, &cert, &entry, 1_700_000_000_000, 0) {
        Ok(SctScan::NoSctExtension) => {},
        _ => panic!("absence of the extension is a distinct, non-error outcome"),
    }
}

#[test]
fn undecodable_certificate_is_bad_encoding() {
    let l1 = make_log();
    let registry = registry_of(&[&l1]);
    let entry = SignedEntry::X509 { certificate: b"entry".to_vec() };
    match verify_certificate(&registry, &[0x13, 0x37], &entry, 1_700_000_000_000, 0) {
        Err(VerifyError::Certificate(_)) => {},
        _ => panic!("junk bytes must fail with a certificate error"),
    }
}

#[test]
fn precert_entry_signature_verifies_too() {
    let l1 = make_log();
    let registry = registry_of(&[&l1]);
    let entry = SignedEntry::Precert {
        issuer_key_hash: sha256(b"issuer spki"),
        tbs_certificate: b"tbs with poison removed".to_vec(),
    };
    let ts: u64 = 1_700_000_000_000;
    let raw = make_sct(&l1, ts, &entry);
    let outcome = verify_sct_record(&registry, &raw, &entry, ts + 1000, 0);
    assert_eq!(outcome.outcome, VerificationOutcome::Valid);
}
