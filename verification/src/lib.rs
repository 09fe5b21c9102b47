//! A development-mode substitute for a hardware TEE attestation service.
//!
//! Given a snapshot of a dataset (a list of relative paths and file bytes),
//! the library scans it for sensitive patterns, reduces the findings to a
//! verdict, derives a deterministic content handle, canonically serializes
//! and hashes the resulting compliance report, signs the payload with an
//! Ed25519 keypair and assembles the signed attestation envelope.

pub mod addresser;
pub mod assembler;
pub mod crypto;
pub mod models;
pub mod resolver;
pub mod scanner;
pub mod json;

use vstd::prelude::*;

verus! {

/// A file inside a dataset snapshot: its path relative to the snapshot root
/// and its raw bytes.
pub struct FileEntry {
    pub path: String,
    pub data: Vec<u8>,
}

impl FileEntry {
    /// The mathematical content of an entry: its path as a character
    /// sequence and its bytes.
    pub open spec fn entry_view(&self) -> (Seq<char>, Seq<u8>) {
        (self.path@, self.data@)
    }
}

} // verus!
