//! The few DER pieces this pipeline needs: length fields (short form and the
//! one- and two-byte long forms) and the payload of a SubjectPublicKeyInfo's
//! BIT STRING, which is the key material the signature check consumes.

use vstd::prelude::*;
use crate::bytes::{be_val, read_be16};

verus! {

/// The DER length field starting at `at`: its value and the number of bytes
/// the field itself occupies, or nothing if no supported form is present.
pub open spec fn der_len_at(b: Seq<u8>, at: int) -> Option<(nat, nat)> {
    if 0 <= at < b.len() {
        if b[at] < 0x80 {
            Some((b[at] as nat, 1))
        } else if b[at] == 0x81 && at + 1 < b.len() {
            Some((b[at + 1] as nat, 2))
        } else if b[at] == 0x82 && at + 2 < b.len() {
            Some((be_val(b.subrange(at + 1, at + 3)), 3))
        } else {
            None
        }
    } else {
        None
    }
}

/// Reads the DER length field starting at `at`.
pub fn read_der_len(b: &[u8], at: usize) -> (r: Option<(usize, usize)>)
    requires
        at <= b@.len(),
    ensures
        match r {
            Some((l, h)) => der_len_at(b@, at as int) == Some((l as nat, h as nat)) && l < 0x10000
                && 1 <= h <= 3,
            None => der_len_at(b@, at as int) is None,
        },
{
    if at >= b.len() {
        return None;
    }
    let l0 = b[at];
    if l0 < 0x80 {
        Some((l0 as usize, 1))
    } else if l0 == 0x81 && b.len() - at > 1 {
        Some((b[at + 1] as usize, 2))
    } else if l0 == 0x82 && b.len() - at > 2 {
        Some((read_be16(b, at + 1), 3))
    } else {
        None
    }
}

/// The BIT STRING payload of a DER SubjectPublicKeyInfo: for an EC key the
/// uncompressed point, for an RSA key the DER `RSAPublicKey`.
pub open spec fn spki_payload(v: Seq<u8>) -> Option<Seq<u8>> {
    if v.len() >= 1 && v[0] == 0x30 {
        match der_len_at(v, 1) {
            Some((l, h)) => {
                let p: int = 1 + h as int;
                if p + l == v.len() && p < v.len() && v[p] == 0x30 {
                    match der_len_at(v, p + 1) {
                        Some((l2, h2)) => {
                            let q: int = p + 1 + h2 as int + l2 as int;
                            if q < v.len() && v[q] == 0x03 {
                                match der_len_at(v, q + 1) {
                                    Some((l3, h3)) => {
                                        let k: int = q + 1 + h3 as int;
                                        if k + l3 == v.len() && l3 >= 1 && v[k] == 0x00 {
                                            Some(v.subrange(k + 1, v.len() as int))
                                        } else {
                                            None
                                        }
                                    },
                                    None => None,
                                }
                            } else {
                                None
                            }
                        },
                        None => None,
                    }
                } else {
                    None
                }
            },
            None => None,
        }
    } else {
        None
    }
}

/// Extracts the BIT STRING payload of a SubjectPublicKeyInfo.
pub fn extract_spki_payload(v: &[u8]) -> (r: Option<Vec<u8>>)
    ensures
        match r {
            Some(p) => spki_payload(v@) == Some(p@),
            None => spki_payload(v@) is None,
        },
{
    if v.len() < 1 || v[0] != 0x30 {
        return None;
    }
    let (l, h) = match read_der_len(v, 1) {
        Some(x) => x,
        None => { return None; },
    };
    let p = 1 + h;
    if !(p <= v.len() && v.len() - p == l) || p >= v.len() || v[p] != 0x30 {
        return None;
    }
    let (l2, h2) = match read_der_len(v, p + 1) {
        Some(x) => x,
        None => { return None; },
    };
    let q = p + 1 + h2 + l2;
    if q >= v.len() || v[q] != 0x03 {
        return None;
    }
    let (l3, h3) = match read_der_len(v, q + 1) {
        Some(x) => x,
        None => { return None; },
    };
    if h3 > v.len() - q - 1 {
        return None;
    }
    let k = q + 1 + h3;
    if v.len() - k != l3 || l3 < 1 || v[k] != 0x00 {
        return None;
    }
    let payload = vstd::slice::slice_subrange(v, k + 1, v.len());
    Some(vstd::slice::slice_to_vec(payload))
}

} // verus!
