//! Locating the SCT-list extension inside a DER certificate. The DER parse
//! itself is the `x509-parser` crate's, behind a trusted wrapper that hands
//! back each extension as its OID's content bytes and its raw value; the
//! search for the extension of interest is verified.

use vstd::prelude::*;
use x509_parser::prelude::FromDer;
use crate::bytes::bytes_eq;

verus! {

/// What parsing a DER certificate yields: for each extension in order, the
/// DER content bytes of its OID and its raw value; or nothing when the
/// certificate does not parse.
pub uninterp spec fn cert_extensions_of(der: Seq<u8>) -> Option<Seq<(Seq<u8>, Seq<u8>)>>;

/// The views of a vector of (OID, value) pairs.
pub open spec fn ext_views(s: Seq<(Vec<u8>, Vec<u8>)>) -> Seq<(Seq<u8>, Seq<u8>)> {
    s.map_values(|p: (Vec<u8>, Vec<u8>)| (p.0@, p.1@))
}

/// Relies on `x509_parser::certificate::X509Certificate::from_der` and the
/// `oid` and `value` fields of its extensions: the parse result is a function
/// of the DER bytes alone.
#[verifier::external_body]
fn parse_cert_extensions(der: &[u8]) -> (r: Option<Vec<(Vec<u8>, Vec<u8>)>>)
    ensures
        match r {
            Some(v) => cert_extensions_of(der@) == Some(ext_views(v@)),
            None => cert_extensions_of(der@) is None,
        },
{
    match x509_parser::certificate::X509Certificate::from_der(der) {
        Ok((_, cert)) => Some(
            cert.extensions().iter().map(|e| (e.oid.as_bytes().to_vec(), e.value.to_vec())).collect(),
        ),
        Err(_) => None,
    }
}

/// The certificate's bytes did not parse as DER.
#[derive(Clone, Copy, Debug, PartialEq, Eq, Structural)]
pub enum CertificateError {
    BadEncoding,
}

/// A decoded certificate: its DER bytes and its extensions.
pub struct ParsedCertificate {
    pub der: Vec<u8>,
    pub extensions: Vec<(Vec<u8>, Vec<u8>)>,
}

impl ParsedCertificate {
    pub open spec fn wf(&self) -> bool {
        cert_extensions_of(self.der@) == Some(ext_views(self.extensions@))
    }
}

/// DER content bytes of 1.3.6.1.4.1.11129.2.4.2, the id of the embedded
/// SCT-list extension.
pub open spec fn sct_extension_oid() -> Seq<u8> {
    seq![0x2Bu8, 0x06, 0x01, 0x04, 0x01, 0xD6, 0x79, 0x02, 0x04, 0x02]
}

fn sct_oid_bytes() -> (r: Vec<u8>)
    ensures
        r@ == sct_extension_oid(),
{
    let out: Vec<u8> = vec![0x2B, 0x06, 0x01, 0x04, 0x01, 0xD6, 0x79, 0x02, 0x04, 0x02];
    proof {
        assert(out@ =~= sct_extension_oid());
    }
    out
}

/// Decodes a DER certificate; exactly the certificates `x509-parser` rejects
/// fail with `BadEncoding`.
pub fn parse_certificate(der: &[u8]) -> (r: Result<ParsedCertificate, CertificateError>)
    ensures
        match r {
            Ok(pc) => pc.wf() && pc.der@ == der@ && cert_extensions_of(der@) is Some,
            Err(_) => cert_extensions_of(der@) is None,
        },
{
    match parse_cert_extensions(der) {
        Some(extensions) => Ok(
            ParsedCertificate { der: vstd::slice::slice_to_vec(der), extensions },
        ),
        None => Err(CertificateError::BadEncoding),
    }
}

/// The value of the first extension whose OID is `oid`, if any.
pub open spec fn spec_find_extension(exts: Seq<(Seq<u8>, Seq<u8>)>, oid: Seq<u8>) -> Option<
    Seq<u8>,
>
    decreases exts.len(),
{
    if exts.len() == 0 {
        None
    } else if exts[0].0 == oid {
        Some(exts[0].1)
    } else {
        spec_find_extension(exts.skip(1), oid)
    }
}

impl ParsedCertificate {
    /// Raw value of the embedded SCT-list extension; `None` when the
    /// certificate carries no such extension, which is a legitimate outcome.
    pub fn find_sct_extension(&self) -> (r: Option<Vec<u8>>)
        requires
            self.wf(),
        ensures
            match r {
                Some(v) => spec_find_extension(
                    cert_extensions_of(self.der@)->Some_0,
                    sct_extension_oid(),
                ) == Some(v@),
                None => spec_find_extension(
                    cert_extensions_of(self.der@)->Some_0,
                    sct_extension_oid(),
                ) is None,
            },
    {
        let oid = sct_oid_bytes();
        let ghost exts = ext_views(self.extensions@);
        proof {
            assert(exts.skip(0) =~= exts);
        }
        let mut k: usize = 0;
        while k < self.extensions.len()
            invariant
                0 <= k <= self.extensions@.len(),
                exts == ext_views(self.extensions@),
                cert_extensions_of(self.der@) == Some(exts),
                oid@ == sct_extension_oid(),
                spec_find_extension(exts, sct_extension_oid()) == spec_find_extension(
                    exts.skip(k as int),
                    sct_extension_oid(),
                ),
            decreases self.extensions@.len() - k,
        {
            proof {
                assert(exts.skip(k as int)[0] == (self.extensions@[k as int].0@, self.extensions@[
                    k as int].1@));
                assert(exts.skip(k as int).skip(1) =~= exts.skip(k + 1));
            }
            if bytes_eq(self.extensions[k].0.as_slice(), oid.as_slice()) {
                let value = vstd::slice::slice_to_vec(self.extensions[k].1.as_slice());
                return Some(value);
            }
            k = k + 1;
        }
        proof {
            assert(exts.skip(k as int).len() == 0);
        }
        None
    }
}

} // verus!
