//! Decides whether an application package comes from a trusted origin by reading
//! its own structure: the ZIP End-Of-Central-Directory record, the signing block
//! before the central directory, the block's ID-value pairs, the first certificate
//! of the signature-scheme V2 signer, and that certificate's MD5 fingerprint, which
//! a fixed table maps to a trust code.
//!
//! Every step works on the package's bytes and reports a malformed structure as an
//! error, never as a panic; the whole check turns any error into the untrusted code.
use vstd::prelude::*;

pub mod bytes;
pub mod error;
pub mod fingerprint;
pub mod package;
pub mod signature_block;
pub mod v2signature;
pub mod zip_util;

verus! {

} // verus!
