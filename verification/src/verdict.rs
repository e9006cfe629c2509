//! Per-SCT verification: decode the record, resolve the log, reconstruct the
//! signed byte sequence, check the signature, then the timestamp; and the
//! whole-certificate pipeline that collects one outcome per embedded SCT.

use vstd::prelude::*;
use crate::bytes::{lemma_be_val_bound, pow256};
use crate::certificate::{
    cert_extensions_of, parse_certificate, sct_extension_oid, spec_find_extension,
    CertificateError,
};
use crate::crypto::{
    ecdsa_p256_sha256_valid, ecdsa_p256_sha256_verify, rsa_pkcs1_sha256_valid,
    rsa_pkcs1_sha256_verify,
};
use crate::der::{extract_spki_payload, spki_payload};
use crate::registry::{spec_lookup, CTLogView, LogRegistry};
use crate::sct::{
    decode_sct, spec_decode_sct, spec_signed_data, build_signed_data, signed_entry_wf, SctView,
    SignedEntry, SignedEntryView,
};
use crate::sct_list::{parse_sct_list, spec_sct_list, views_of, ExtensionFormatError};

verus! {

/// The verdict on one embedded SCT.
#[derive(Clone, Copy, Debug, PartialEq, Eq, Structural)]
pub enum VerificationOutcome {
    /// Signed by a known log, signature valid, timestamp not in the future.
    Valid,
    /// The signature does not verify under the resolved log's key, or the
    /// algorithm pair is not one this verifier supports.
    SignatureInvalid,
    /// No registry entry carries the SCT's log id.
    UnknownLog,
    /// The timestamp exceeds the verification time plus the allowed skew.
    FutureTimestamp,
    /// The record is truncated, carries trailing bytes, or is not version 1.
    Malformed,
}

/// Whether the SCT's signature verifies under the log's SubjectPublicKeyInfo
/// for the record's algorithm pair (SHA-256 with ECDSA P-256 or RSA).
pub open spec fn spec_sig_ok(spki: Seq<u8>, s: SctView, data: Seq<u8>) -> bool {
    match spki_payload(spki) {
        Some(key) => {
            if s.hash_alg == 4 && s.sig_alg == 3 {
                ecdsa_p256_sha256_valid(key, data, s.signature)
            } else if s.hash_alg == 4 && s.sig_alg == 1 {
                rsa_pkcs1_sha256_valid(key, data, s.signature)
            } else {
                false
            }
        },
        None => false,
    }
}

/// The verdict on one raw record, given the registry's entries, the signed
/// entry, the verification time and the allowed clock skew (milliseconds).
pub open spec fn spec_verify_sct(
    logs: Seq<CTLogView>,
    raw: Seq<u8>,
    entry: SignedEntryView,
    now_ms: u64,
    skew_ms: u64,
) -> VerificationOutcome {
    match spec_decode_sct(raw) {
        None => VerificationOutcome::Malformed,
        Some(s) => match spec_lookup(logs, s.log_id) {
            None => VerificationOutcome::UnknownLog,
            Some(log) => {
                if !spec_sig_ok(
                    log.public_key,
                    s,
                    spec_signed_data(s.version, s.timestamp, entry, s.extensions),
                ) {
                    VerificationOutcome::SignatureInvalid
                } else if s.timestamp > now_ms + skew_ms {
                    VerificationOutcome::FutureTimestamp
                } else {
                    VerificationOutcome::Valid
                }
            },
        },
    }
}

/// One SCT's verdict, with the log id its record named when it decoded.
pub struct SctOutcome {
    pub log_id: Option<Vec<u8>>,
    pub outcome: VerificationOutcome,
}

/// Verifies one raw SCT record against the registry.
pub fn verify_sct_record(
    registry: &LogRegistry,
    raw: &[u8],
    entry: &SignedEntry,
    now_ms: u64,
    skew_ms: u64,
) -> (r: SctOutcome)
    requires
        signed_entry_wf(entry@),
    ensures
        r.outcome == spec_verify_sct(registry.log_views(), raw@, entry@, now_ms, skew_ms),
        (match spec_decode_sct(raw@) {
            Some(s) => r.log_id matches Some(v) && v@ == s.log_id,
            None => r.log_id is None,
        }),
{
    let sct = match decode_sct(raw) {
        Some(s) => s,
        None => {
            return SctOutcome { log_id: None, outcome: VerificationOutcome::Malformed };
        },
    };
    proof {
        lemma_be_val_bound(raw@.subrange(41, 43));
        reveal_with_fuel(pow256, 3);
    }
    let outcome = match registry.lookup(sct.log_id.as_slice()) {
        Some(log) => {
            let data = build_signed_data(
                sct.version,
                sct.timestamp,
                entry,
                sct.extensions.as_slice(),
            );
            let sig_ok = match extract_spki_payload(log.public_key.as_slice()) {
                Some(key) => {
                    if sct.hash_alg == 4 && sct.sig_alg == 3 {
                        ecdsa_p256_sha256_verify(
                            key.as_slice(),
                            data.as_slice(),
                            sct.signature.as_slice(),
                        )
                    } else if sct.hash_alg == 4 && sct.sig_alg == 1 {
                        rsa_pkcs1_sha256_verify(
                            key.as_slice(),
                            data.as_slice(),
                            sct.signature.as_slice(),
                        )
                    } else {
                        false
                    }
                },
                None => false,
            };
            if !sig_ok {
                VerificationOutcome::SignatureInvalid
            } else if (sct.timestamp as u128) > (now_ms as u128) + (skew_ms as u128) {
                VerificationOutcome::FutureTimestamp
            } else {
                VerificationOutcome::Valid
            }
        },
        None => VerificationOutcome::UnknownLog,
    };
    SctOutcome { log_id: Some(sct.log_id), outcome }
}

/// One verdict per embedded SCT, in the extension's order.
pub struct SctReport {
    pub entries: Vec<SctOutcome>,
}

/// First recorded verdict for the given log id, if any.
pub open spec fn spec_outcome_for_log(entries: Seq<SctOutcome>, id: Seq<u8>) -> Option<
    VerificationOutcome,
>
    decreases entries.len(),
{
    if entries.len() == 0 {
        None
    } else if entries[0].log_id matches Some(v) && v@ == id {
        Some(entries[0].outcome)
    } else {
        spec_outcome_for_log(entries.skip(1), id)
    }
}

impl SctReport {
    /// Number of SCTs the extension carried.
    pub fn len(&self) -> (n: usize)
        ensures
            n == self.entries@.len(),
    {
        self.entries.len()
    }

    /// The verdict at position `i`.
    pub fn outcome_at(&self, i: usize) -> (r: Option<VerificationOutcome>)
        ensures
            match r {
                Some(o) => i < self.entries@.len() && o == self.entries@[i as int].outcome,
                None => i >= self.entries@.len(),
            },
    {
        if i < self.entries.len() {
            Some(self.entries[i].outcome)
        } else {
            None
        }
    }

    /// First verdict recorded for the given log id.
    pub fn outcome_for_log(&self, id: &[u8]) -> (r: Option<VerificationOutcome>)
        ensures
            r == spec_outcome_for_log(self.entries@, id@),
    {
        let ghost entries = self.entries@;
        proof {
            assert(entries.skip(0) =~= entries);
        }
        let mut k: usize = 0;
        while k < self.entries.len()
            invariant
                0 <= k <= entries.len(),
                entries == self.entries@,
                spec_outcome_for_log(entries, id@) == spec_outcome_for_log(
                    entries.skip(k as int),
                    id@,
                ),
            decreases entries.len() - k,
        {
            proof {
                assert(entries.skip(k as int)[0] == entries[k as int]);
                assert(entries.skip(k as int).skip(1) =~= entries.skip(k + 1));
            }
            let hit = match &self.entries[k].log_id {
                Some(v) => crate::bytes::bytes_eq(v.as_slice(), id),
                None => false,
            };
            if hit {
                return Some(self.entries[k].outcome);
            }
            k = k + 1;
        }
        proof {
            assert(entries.skip(k as int).len() == 0);
        }
        None
    }
}

/// A state the certificate can be in with respect to embedded SCTs.
pub enum SctScan {
    /// The certificate carries no SCT-list extension; a legitimate outcome,
    /// distinct from any error.
    NoSctExtension,
    /// One verdict per embedded SCT.
    Scts(SctReport),
}

/// Why no verdicts could be produced at all.
#[derive(Clone, Copy, Debug, PartialEq, Eq, Structural)]
pub enum VerifyError {
    /// The certificate's DER did not parse.
    Certificate(CertificateError),
    /// The SCT-list extension's value is malformed.
    Extension(ExtensionFormatError),
}

/// Verifies every SCT embedded in a DER certificate: parses the certificate,
/// locates the SCT-list extension, decodes the list, and verifies each
/// record independently, in order.
pub fn verify_certificate(
    registry: &LogRegistry,
    der: &[u8],
    entry: &SignedEntry,
    now_ms: u64,
    skew_ms: u64,
) -> (r: Result<SctScan, VerifyError>)
    requires
        signed_entry_wf(entry@),
    ensures
        match r {
            Err(VerifyError::Certificate(_)) => cert_extensions_of(der@) is None,
            Err(VerifyError::Extension(_)) => cert_extensions_of(der@) matches Some(exts)
                && spec_find_extension(exts, sct_extension_oid()) matches Some(v) && spec_sct_list(
                v,
            ) is None,
            Ok(SctScan::NoSctExtension) => cert_extensions_of(der@) matches Some(exts)
                && spec_find_extension(exts, sct_extension_oid()) is None,
            Ok(SctScan::Scts(report)) => cert_extensions_of(der@) matches Some(exts)
                && spec_find_extension(exts, sct_extension_oid()) matches Some(v) && spec_sct_list(
                v,
            ) matches Some(raws) && report.entries@.len() == raws.len() && (forall|m: int|
                0 <= m < raws.len() ==> (#[trigger] report.entries@[m]).outcome == spec_verify_sct(
                    registry.log_views(),
                    raws[m],
                    entry@,
                    now_ms,
                    skew_ms,
                ) && (match spec_decode_sct(raws[m]) {
                    Some(s) => report.entries@[m].log_id matches Some(v) && v@ == s.log_id,
                    None => report.entries@[m].log_id is None,
                })),
        },
{
    let pc = match parse_certificate(der) {
        Ok(pc) => pc,
        Err(e) => {
            return Err(VerifyError::Certificate(e));
        },
    };
    let ext = match pc.find_sct_extension() {
        Some(v) => v,
        None => {
            return Ok(SctScan::NoSctExtension);
        },
    };
    let raws = match parse_sct_list(ext.as_slice()) {
        Ok(l) => l,
        Err(e) => {
            return Err(VerifyError::Extension(e));
        },
    };
    let ghost raw_views = views_of(raws@);
    let mut entries: Vec<SctOutcome> = Vec::new();
    let mut idx: usize = 0;
    while idx < raws.len()
        invariant
            0 <= idx <= raws@.len(),
            raw_views == views_of(raws@),
            signed_entry_wf(entry@),
            entries@.len() == idx,
            forall|m: int|
                0 <= m < idx ==> (#[trigger] entries@[m]).outcome == spec_verify_sct(
                    registry.log_views(),
                    raw_views[m],
                    entry@,
                    now_ms,
                    skew_ms,
                ) && (match spec_decode_sct(raw_views[m]) {
                    Some(s) => entries@[m].log_id matches Some(v) && v@ == s.log_id,
                    None => entries@[m].log_id is None,
                }),
        decreases raws@.len() - idx,
    {
        let o = verify_sct_record(registry, raws[idx].as_slice(), entry, now_ms, skew_ms);
        proof {
            assert(raw_views[idx as int] == raws@[idx as int]@);
        }
        entries.push(o);
        idx = idx + 1;
    }
    Ok(SctScan::Scts(SctReport { entries }))
}

} // verus!
