//! Decoding of the SCT-list extension value (RFC 6962 §3.3): a DER
//! OCTET STRING envelope around a two-byte total length followed by entries,
//! each a two-byte length prefix and that many bytes of one serialized SCT.

use vstd::prelude::*;
use crate::bytes::{be_val, read_be16};
use crate::der::{der_len_at, read_der_len};

verus! {

/// Why an SCT-list extension value was rejected. The offset is relative to
/// the start of the extension value.
#[derive(Clone, Copy, Debug, PartialEq, Eq, Structural)]
pub enum ExtensionFormatError {
    /// The OCTET STRING envelope is missing or its length does not cover the
    /// rest of the value.
    BadEnvelope,
    /// The two-byte list length does not match the bytes actually available.
    TotalLengthMismatch { declared: u64, available: u64 },
    /// An entry's length prefix is truncated or runs past the declared total.
    TruncatedEntry { offset: u64 },
}

/// Contents of the OCTET STRING envelope, when it covers the value exactly.
pub open spec fn sct_list_envelope(v: Seq<u8>) -> Option<Seq<u8>> {
    if v.len() >= 1 && v[0] == 0x04 {
        match der_len_at(v, 1) {
            Some((l, h)) => {
                let p: int = 1 + h as int;
                if p + l == v.len() {
                    Some(v.subrange(p, v.len() as int))
                } else {
                    None
                }
            },
            None => None,
        }
    } else {
        None
    }
}

/// Splits a region into length-prefixed entries, if it decomposes exactly.
pub open spec fn sct_entries(e: Seq<u8>) -> Option<Seq<Seq<u8>>>
    decreases e.len(),
{
    if e.len() == 0 {
        Some(Seq::empty())
    } else if e.len() >= 2 {
        let n = be_val(e.subrange(0, 2)) as int;
        if 2 + n <= e.len() {
            match sct_entries(e.skip(2 + n)) {
                Some(rest) => Some(seq![e.subrange(2, 2 + n)] + rest),
                None => None,
            }
        } else {
            None
        }
    } else {
        None
    }
}

/// The sequence of raw SCT records an extension value encodes, or nothing if
/// the value is malformed.
pub open spec fn spec_sct_list(v: Seq<u8>) -> Option<Seq<Seq<u8>>> {
    match sct_list_envelope(v) {
        Some(body) => {
            if body.len() >= 2 && 2 + be_val(body.subrange(0, 2)) == body.len() {
                sct_entries(body.skip(2))
            } else {
                None
            }
        },
        None => None,
    }
}

/// Law: an extension value whose envelope holds a zero total length encodes
/// the empty sequence of records — an outcome, not an error.
pub proof fn lemma_empty_list(v: Seq<u8>)
    requires
        sct_list_envelope(v) matches Some(body) && body.len() == 2 && be_val(body.subrange(0, 2))
            == 0,
    ensures
        spec_sct_list(v) == Some(Seq::<Seq<u8>>::empty()),
{
    let body = sct_list_envelope(v)->Some_0;
    assert(body.skip(2).len() == 0);
}

/// Law: a region whose first entry's declared length runs past the region's
/// end decomposes into no records at all.
pub proof fn lemma_truncated_entry(e: Seq<u8>)
    requires
        e.len() >= 2,
        2 + be_val(e.subrange(0, 2)) > e.len(),
    ensures
        sct_entries(e) is None,
{
}

/// The views of a vector of byte vectors.
pub open spec fn views_of(s: Seq<Vec<u8>>) -> Seq<Seq<u8>> {
    s.map_values(|x: Vec<u8>| x@)
}

/// Decodes the extension value into its raw SCT records, in order. Exactly
/// the malformed values are rejected, and a rejection returns no records.
pub fn parse_sct_list(v: &[u8]) -> (r: Result<Vec<Vec<u8>>, ExtensionFormatError>)
    ensures
        match r {
            Ok(list) => spec_sct_list(v@) == Some(views_of(list@)),
            Err(_) => spec_sct_list(v@) is None,
        },
{
    let len = v.len();
    if len < 1 || v[0] != 0x04 {
        return Err(ExtensionFormatError::BadEnvelope);
    }
    let (l, h) = match read_der_len(v, 1) {
        Some(x) => x,
        None => { return Err(ExtensionFormatError::BadEnvelope); },
    };
    let p = 1 + h;
    if !(p <= len && len - p == l) {
        return Err(ExtensionFormatError::BadEnvelope);
    }
    let ghost body = v@.subrange(p as int, len as int);
    if len - p < 2 {
        return Err(ExtensionFormatError::BadEnvelope);
    }
    let total = read_be16(v, p);
    proof {
        assert(body.subrange(0, 2) =~= v@.subrange(p as int, p + 2));
    }
    if len - p - 2 != total {
        return Err(ExtensionFormatError::TotalLengthMismatch {
            declared: total as u64,
            available: (len - p - 2) as u64,
        });
    }
    let s0 = p + 2;
    proof {
        assert(body.skip(2) =~= v@.subrange(s0 as int, len as int));
    }
    let mut out: Vec<Vec<u8>> = Vec::new();
    let mut off = s0;
    proof {
        assert(sct_list_envelope(v@) == Some(body));
        assert(body.subrange(0, 2) =~= v@.subrange(s0 - 2, s0 as int));
        assert(spec_sct_list(v@) == sct_entries(body.skip(2)));
        assert(v@.subrange(off as int, len as int) =~= body.skip(2));
        assert(views_of(out@) =~= Seq::<Seq<u8>>::empty());
    }
    while off < len
        invariant
            s0 <= off <= len,
            len == v@.len(),
            spec_sct_list(v@) == sct_entries(body.skip(2)),
            (match sct_entries(v@.subrange(off as int, len as int)) {
                Some(rest) => sct_entries(body.skip(2)) == Some(views_of(out@) + rest),
                None => sct_entries(body.skip(2)) is None,
            }),
        decreases len - off,
    {
        let ghost region = v@.subrange(off as int, len as int);
        if len - off < 2 {
            assert(sct_entries(region) is None);
            return Err(ExtensionFormatError::TruncatedEntry { offset: off as u64 });
        }
        let n = read_be16(v, off);
        proof {
            assert(region.subrange(0, 2) =~= v@.subrange(off as int, off + 2));
        }
        if len - off - 2 < n {
            assert(sct_entries(region) is None);
            return Err(ExtensionFormatError::TruncatedEntry { offset: off as u64 });
        }
        let entry_slice = vstd::slice::slice_subrange(v, off + 2, off + 2 + n);
        let entry = vstd::slice::slice_to_vec(entry_slice);
        proof {
            let next = v@.subrange(off + 2 + n, len as int);
            assert(region.subrange(2, 2 + n as int) =~= entry@);
            assert(region.skip(2 + n as int) =~= next);
            assert(sct_entries(region) == (match sct_entries(next) {
                Some(rest) => Some(seq![entry@] + rest),
                None => None::<Seq<Seq<u8>>>,
            }));
            assert(views_of(out@.push(entry)) =~= views_of(out@).push(entry@));
            if sct_entries(next) is Some {
                let rest = sct_entries(next)->Some_0;
                assert(views_of(out@) + (seq![entry@] + rest) =~= views_of(out@.push(entry))
                    + rest);
            }
        }
        out.push(entry);
        off = off + 2 + n;
    }
    proof {
        assert(v@.subrange(off as int, len as int).len() == 0);
        assert(sct_entries(v@.subrange(off as int, len as int)) == Some(Seq::<Seq<u8>>::empty()));
        assert(views_of(out@) + Seq::<Seq<u8>>::empty() =~= views_of(out@));
    }
    Ok(out)
}

} // verus!
