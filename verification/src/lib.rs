//! Verified core of a peer-to-peer content store.
//!
//! Files are split into chunks, each chunk is encrypted with an integrity
//! tag, chunks are placed on capacity-checked nodes, and stored data is
//! audited by a randomized challenge-response check.

use vstd::prelude::*;

pub mod api;
pub mod auth;
pub mod bytes;
pub mod crypto;
pub mod file_system;
pub mod node;
pub mod p2p;
pub mod pbe;
pub mod pipeline;
pub mod platform;
pub mod proof_of_spacetime;
pub mod storage_api;
pub mod textform;
pub mod token_management;
pub mod transfer;
pub mod validation;
pub mod validator_network;
pub mod vault;

verus! {

/// The typed errors that the storage engine surfaces to callers.
#[derive(Clone, Copy, Debug, PartialEq, Eq, Structural)]
pub enum StorageError {
    /// Integrity tag mismatch: data tampered with, or wrong key.
    Integrity,
    /// Malformed chunk framing in an encrypted blob.
    Corruption,
    /// No key record exists for the requested identifier.
    KeyNotFound,
    /// A key record decrypted to key material of the wrong shape.
    KeyCorruption,
    /// No registered node has enough free space.
    NoSuitableNode,
    /// A chunk transfer exhausted its retries.
    Transfer,
    /// A stored chunk's content hash no longer matches its record.
    ChunkIntegrity,
    /// The caller does not own the file it tried to modify.
    Authorization,
    /// No file is registered under the requested identifier.
    NotFound,
}

} // verus!
