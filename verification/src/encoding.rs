//! Base64 decoding of the dataset's `log_id` and `key` fields, behind a
//! trusted wrapper around the `base64` crate.

use vstd::prelude::*;
use base64::Engine;

verus! {

/// What the standard-alphabet base64 decoder yields on `s`: the decoded
/// bytes, or nothing when `s` is not valid base64.
pub uninterp spec fn base64_decoded(s: Seq<char>) -> Option<Seq<u8>>;

/// Relies on `base64::engine::Engine::decode` with the standard-alphabet
/// engine: the result is a function of the input characters alone.
#[verifier::external_body]
pub fn base64_decode(s: &str) -> (r: Option<Vec<u8>>)
    ensures
        match r {
            Some(v) => base64_decoded(s@) == Some(v@),
            None => base64_decoded(s@) is None,
        },
{
    base64::engine::general_purpose::STANDARD.decode(s).ok()
}

} // verus!
