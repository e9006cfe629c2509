//! Verification of Signed Certificate Timestamps (SCTs) embedded in X.509
//! certificates, per RFC 6962: a registry of known Certificate Transparency
//! logs, location and decoding of the SCT-list extension, reconstruction of
//! the byte sequence each log signed, and one verdict per SCT.

pub mod bytes;
pub mod certificate;
pub mod crypto;
pub mod dataset;
pub mod der;
pub mod registry;
pub mod sct;
pub mod sct_list;
pub mod verdict;
pub mod encoding;
