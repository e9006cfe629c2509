//! Cryptographic primitives the verifier relies on, each behind a trusted
//! wrapper around `ring`. Every result named here is a function of the
//! argument bytes alone.

use vstd::prelude::*;

verus! {

/// The SHA-256 digest of a byte sequence.
pub uninterp spec fn sha256_of(data: Seq<u8>) -> Seq<u8>;

/// Whether `sig` is a valid ECDSA P-256 signature (ASN.1 form, SHA-256
/// digest) over `msg` under the uncompressed-point public key `key`.
pub uninterp spec fn ecdsa_p256_sha256_valid(key: Seq<u8>, msg: Seq<u8>, sig: Seq<u8>) -> bool;

/// Whether `sig` is a valid RSA PKCS#1 v1.5 SHA-256 signature over `msg`
/// under the DER `RSAPublicKey` `key`.
pub uninterp spec fn rsa_pkcs1_sha256_valid(key: Seq<u8>, msg: Seq<u8>, sig: Seq<u8>) -> bool;

/// Relies on `ring::digest::digest` with `SHA256`: the digest is a function
/// of the input bytes alone and is 32 bytes long.
#[verifier::external_body]
pub fn sha256(data: &[u8]) -> (r: Vec<u8>)
    ensures
        r@ == sha256_of(data@),
        r@.len() == 32,
{
    ring::digest::digest(&ring::digest::SHA256, data).as_ref().to_vec()
}

/// Relies on `ring::signature::UnparsedPublicKey::verify` with
/// `ECDSA_P256_SHA256_ASN1`: acceptance is a function of key, message and
/// signature bytes alone.
#[verifier::external_body]
pub fn ecdsa_p256_sha256_verify(key: &[u8], msg: &[u8], sig: &[u8]) -> (r: bool)
    ensures
        r == ecdsa_p256_sha256_valid(key@, msg@, sig@),
{
    ring::signature::UnparsedPublicKey::new(&ring::signature::ECDSA_P256_SHA256_ASN1, key)
        .verify(msg, sig)
        .is_ok()
}

/// Relies on `ring::signature::UnparsedPublicKey::verify` with
/// `RSA_PKCS1_2048_8192_SHA256`: acceptance is a function of key, message
/// and signature bytes alone.
#[verifier::external_body]
pub fn rsa_pkcs1_sha256_verify(key: &[u8], msg: &[u8], sig: &[u8]) -> (r: bool)
    ensures
        r == rsa_pkcs1_sha256_valid(key@, msg@, sig@),
{
    ring::signature::UnparsedPublicKey::new(&ring::signature::RSA_PKCS1_2048_8192_SHA256, key)
        .verify(msg, sig)
        .is_ok()
}

} // verus!
