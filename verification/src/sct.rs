//! The serialized SCT record (RFC 6962 §3.2): decoding into fields, the
//! inverse encoding, and reconstruction of the TLS "digitally-signed" byte
//! sequence a log signs over.

use vstd::prelude::*;
use crate::bytes::{
    be_bytes, be_val, lemma_be_bytes_len, lemma_be_bytes_val, lemma_be_val_bound,
    lemma_be_val_bytes, pow256, push_be, push_bytes, read_be, read_be16,
};

verus! {

/// A decoded Signed Certificate Timestamp.
pub struct Sct {
    /// SCT version; 0 is v1, the only version this format describes.
    pub version: u8,
    /// 32-byte identifier of the issuing log.
    pub log_id: Vec<u8>,
    /// Milliseconds since the Unix epoch.
    pub timestamp: u64,
    /// Opaque per-SCT extensions, at most 65535 bytes.
    pub extensions: Vec<u8>,
    /// TLS hash-algorithm identifier (4 is SHA-256).
    pub hash_alg: u8,
    /// TLS signature-algorithm identifier (1 is RSA, 3 is ECDSA).
    pub sig_alg: u8,
    /// Signature over the reconstructed digitally-signed struct.
    pub signature: Vec<u8>,
}

/// Mathematical image of an `Sct`.
pub struct SctView {
    pub version: u8,
    pub log_id: Seq<u8>,
    pub timestamp: u64,
    pub extensions: Seq<u8>,
    pub hash_alg: u8,
    pub sig_alg: u8,
    pub signature: Seq<u8>,
}

impl View for Sct {
    type V = SctView;

    open spec fn view(&self) -> SctView {
        SctView {
            version: self.version,
            log_id: self.log_id@,
            timestamp: self.timestamp,
            extensions: self.extensions@,
            hash_alg: self.hash_alg,
            sig_alg: self.sig_alg,
            signature: self.signature@,
        }
    }
}

/// Field bounds that every record the decoder accepts satisfies.
pub open spec fn sct_wf(s: SctView) -> bool {
    &&& s.version == 0
    &&& s.log_id.len() == 32
    &&& s.extensions.len() < 0x10000
    &&& s.signature.len() < 0x10000
}

/// The fields a raw record encodes, or nothing if it is truncated, carries
/// trailing bytes, or is not version 1.
pub open spec fn spec_decode_sct(b: Seq<u8>) -> Option<SctView> {
    if b.len() >= 43 && b[0] == 0 {
        let el = be_val(b.subrange(41, 43)) as int;
        if b.len() >= 47 + el {
            let sl = be_val(b.subrange(45 + el, 47 + el)) as int;
            if b.len() == 47 + el + sl {
                Some(SctView {
                    version: 0,
                    log_id: b.subrange(1, 33),
                    timestamp: be_val(b.subrange(33, 41)) as u64,
                    extensions: b.subrange(43, 43 + el),
                    hash_alg: b[43 + el],
                    sig_alg: b[44 + el],
                    signature: b.subrange(47 + el, b.len() as int),
                })
            } else {
                None
            }
        } else {
            None
        }
    } else {
        None
    }
}

/// The serialized form of an SCT's fields.
pub open spec fn spec_encode_sct(s: SctView) -> Seq<u8> {
    seq![s.version] + s.log_id + be_bytes(s.timestamp as nat, 8) + be_bytes(s.extensions.len(), 2)
        + s.extensions + seq![s.hash_alg, s.sig_alg] + be_bytes(s.signature.len(), 2) + s.signature
}

/// Decodes one raw SCT record; rejects exactly the malformed records.
pub fn decode_sct(b: &[u8]) -> (r: Option<Sct>)
    ensures
        match r {
            Some(s) => spec_decode_sct(b@) == Some(s@),
            None => spec_decode_sct(b@) is None,
        },
{
    let n = b.len();
    if n < 43 || b[0] != 0 {
        return None;
    }
    let el = read_be16(b, 41);
    if n < 47 || n - 47 < el {
        return None;
    }
    let sl = read_be16(b, 45 + el);
    if n - 47 - el != sl {
        return None;
    }
    let log_id = vstd::slice::slice_to_vec(vstd::slice::slice_subrange(b, 1, 33));
    let timestamp = read_be(b, 33, 8);
    let extensions = vstd::slice::slice_to_vec(vstd::slice::slice_subrange(b, 43, 43 + el));
    let hash_alg = b[43 + el];
    let sig_alg = b[44 + el];
    let signature = vstd::slice::slice_to_vec(vstd::slice::slice_subrange(b, 47 + el, n));
    Some(Sct { version: 0, log_id, timestamp, extensions, hash_alg, sig_alg, signature })
}

/// Serializes an SCT's fields back into a raw record.
pub fn encode_sct(s: &Sct) -> (r: Vec<u8>)
    requires
        s.extensions@.len() < 0x10000,
        s.signature@.len() < 0x10000,
    ensures
        r@ == spec_encode_sct(s@),
{
    let mut out: Vec<u8> = Vec::new();
    out.push(s.version);
    push_bytes(&mut out, s.log_id.as_slice());
    push_be(&mut out, s.timestamp, 8);
    push_be(&mut out, s.extensions.len() as u64, 2);
    push_bytes(&mut out, s.extensions.as_slice());
    out.push(s.hash_alg);
    out.push(s.sig_alg);
    push_be(&mut out, s.signature.len() as u64, 2);
    push_bytes(&mut out, s.signature.as_slice());
    proof {
        assert(out@ =~= spec_encode_sct(s@));
    }
    out
}

/// What a log signed over: the final certificate as submitted, or the
/// precertificate's data. Which one applies depends on how the SCT was
/// obtained, so the caller supplies it.
pub enum SignedEntry {
    /// `x509_entry`: the raw DER certificate.
    X509 { certificate: Vec<u8> },
    /// `precert_entry`: the SHA-256 hash of the issuer's public key and the
    /// TBSCertificate with the poison extension removed.
    Precert { issuer_key_hash: Vec<u8>, tbs_certificate: Vec<u8> },
}

/// Mathematical image of a `SignedEntry`.
pub enum SignedEntryView {
    X509 { certificate: Seq<u8> },
    Precert { issuer_key_hash: Seq<u8>, tbs_certificate: Seq<u8> },
}

impl View for SignedEntry {
    type V = SignedEntryView;

    open spec fn view(&self) -> SignedEntryView {
        match self {
            SignedEntry::X509 { certificate } => (SignedEntryView::X509 {
                certificate: certificate@,
            }),
            SignedEntry::Precert { issuer_key_hash, tbs_certificate } => (SignedEntryView::Precert {
                issuer_key_hash: issuer_key_hash@,
                tbs_certificate: tbs_certificate@,
            }),
        }
    }
}

/// Format bounds on a signed entry: lengths fit their three-byte prefixes and
/// the issuer key hash is a SHA-256 output.
pub open spec fn signed_entry_wf(e: SignedEntryView) -> bool {
    match e {
        SignedEntryView::X509 { certificate } => certificate.len() < 0x1000000,
        SignedEntryView::Precert { issuer_key_hash, tbs_certificate } => issuer_key_hash.len()
            == 32 && tbs_certificate.len() < 0x1000000,
    }
}

/// The entry-type tag and entry data portion of the digitally-signed struct.
pub open spec fn spec_entry_bytes(e: SignedEntryView) -> Seq<u8> {
    match e {
        SignedEntryView::X509 { certificate } => be_bytes(0, 2) + be_bytes(certificate.len(), 3)
            + certificate,
        SignedEntryView::Precert { issuer_key_hash, tbs_certificate } => be_bytes(1, 2)
            + issuer_key_hash + be_bytes(tbs_certificate.len(), 3) + tbs_certificate,
    }
}

/// The exact byte sequence a log signs for an SCT: version, signature type 0
/// (certificate_timestamp), timestamp, entry, then the SCT's extensions.
pub open spec fn spec_signed_data(
    version: u8,
    timestamp: u64,
    e: SignedEntryView,
    extensions: Seq<u8>,
) -> Seq<u8> {
    seq![version, 0u8] + be_bytes(timestamp as nat, 8) + spec_entry_bytes(e) + be_bytes(
        extensions.len(),
        2,
    ) + extensions
}

/// Reconstructs the digitally-signed byte sequence for one SCT.
pub fn build_signed_data(version: u8, timestamp: u64, entry: &SignedEntry, extensions: &[u8]) -> (r:
    Vec<u8>)
    requires
        signed_entry_wf(entry@),
        extensions@.len() < 0x10000,
    ensures
        r@ == spec_signed_data(version, timestamp, entry@, extensions@),
{
    let mut out: Vec<u8> = Vec::new();
    out.push(version);
    out.push(0);
    push_be(&mut out, timestamp, 8);
    match entry {
        SignedEntry::X509 { certificate } => {
            push_be(&mut out, 0, 2);
            push_be(&mut out, certificate.len() as u64, 3);
            push_bytes(&mut out, certificate.as_slice());
        },
        SignedEntry::Precert { issuer_key_hash, tbs_certificate } => {
            push_be(&mut out, 1, 2);
            push_bytes(&mut out, issuer_key_hash.as_slice());
            push_be(&mut out, tbs_certificate.len() as u64, 3);
            push_bytes(&mut out, tbs_certificate.as_slice());
        },
    }
    push_be(&mut out, extensions.len() as u64, 2);
    push_bytes(&mut out, extensions);
    proof {
        assert(out@ =~= spec_signed_data(version, timestamp, entry@, extensions@));
    }
    out
}

/// Law: decoding a raw record then re-encoding its fields reproduces the
/// record byte for byte, and the fields are well formed.
pub proof fn lemma_sct_decode_encode(b: Seq<u8>)
    requires
        spec_decode_sct(b) is Some,
    ensures
        sct_wf(spec_decode_sct(b)->Some_0),
        spec_encode_sct(spec_decode_sct(b)->Some_0) == b,
{
    let s = spec_decode_sct(b)->Some_0;
    let el = be_val(b.subrange(41, 43)) as int;
    let sl = be_val(b.subrange(45 + el, 47 + el)) as int;
    lemma_be_val_bound(b.subrange(41, 43));
    lemma_be_val_bound(b.subrange(45 + el, 47 + el));
    lemma_be_val_bound(b.subrange(33, 41));
    assert(pow256(2) == 0x10000) by {
        reveal_with_fuel(pow256, 3);
    }
    assert(pow256(8) == 0x10000000000000000) by {
        reveal_with_fuel(pow256, 9);
    }
    lemma_be_val_bytes(b.subrange(33, 41));
    lemma_be_val_bytes(b.subrange(41, 43));
    lemma_be_val_bytes(b.subrange(45 + el, 47 + el));
    assert(s.extensions.len() == el);
    assert(s.signature.len() == sl);
    assert(be_bytes(s.timestamp as nat, 8) == b.subrange(33, 41));
    assert(be_bytes(s.extensions.len(), 2) == b.subrange(41, 43));
    assert(be_bytes(s.signature.len(), 2) == b.subrange(45 + el, 47 + el));
    assert(seq![s.version] =~= b.subrange(0, 1));
    assert(seq![s.hash_alg, s.sig_alg] =~= b.subrange(43 + el, 45 + el));
    assert(spec_encode_sct(s) =~= b);
}

/// Law: encoding well-formed SCT fields then decoding returns them intact.
pub proof fn lemma_sct_encode_decode(s: SctView)
    requires
        sct_wf(s),
    ensures
        spec_decode_sct(spec_encode_sct(s)) == Some(s),
{
    let enc = spec_encode_sct(s);
    let el = s.extensions.len() as int;
    let sl = s.signature.len() as int;
    lemma_be_bytes_len(s.timestamp as nat, 8);
    lemma_be_bytes_len(s.extensions.len(), 2);
    lemma_be_bytes_len(s.signature.len(), 2);
    assert(enc.len() == 47 + el + sl);
    assert(pow256(2) == 0x10000) by {
        reveal_with_fuel(pow256, 3);
    }
    assert(pow256(8) == 0x10000000000000000) by {
        reveal_with_fuel(pow256, 9);
    }
    lemma_be_bytes_val(s.extensions.len(), 2);
    lemma_be_bytes_val(s.signature.len(), 2);
    lemma_be_bytes_val(s.timestamp as nat, 8);
    assert(enc.subrange(41, 43) =~= be_bytes(s.extensions.len(), 2));
    assert(enc[0] == s.version);
    assert(be_val(enc.subrange(41, 43)) == el);
    assert(enc.subrange(45 + el, 47 + el) =~= be_bytes(s.signature.len(), 2));
    assert(be_val(enc.subrange(45 + el, 47 + el)) == sl);
    assert(enc.subrange(1, 33) =~= s.log_id);
    assert(enc.subrange(33, 41) =~= be_bytes(s.timestamp as nat, 8));
    assert(enc.subrange(43, 43 + el) =~= s.extensions);
    assert(enc[43 + el] == s.hash_alg);
    assert(enc[44 + el] == s.sig_alg);
    assert(enc.subrange(47 + el, enc.len() as int) =~= s.signature);
    assert(spec_decode_sct(enc) == Some(s));
}

} // verus!
