//! Plain data shapes exchanged with the layers around the engine: the
//! shared node table behind the request handlers, request and response
//! bodies, disk bookkeeping records, and chain-side stake records. The
//! handlers themselves, and any serialisation, live outside the
//! verified core.

use vstd::prelude::*;
use crate::node::StorageNode;

verus! {

/// The node table the request handlers share.
pub struct AppState {
    pub nodes: Vec<StorageNode>,
}

impl AppState {
    /// An empty table.
    pub fn new() -> (r: AppState)
        ensures
            r.nodes@.len() == 0,
    {
        AppState { nodes: Vec::new() }
    }
}

/// A request naming a file path.
pub struct FileRequest {
    pub file_path: String,
}

/// A plain message response.
pub struct FileResponse {
    pub message: String,
}

/// An upload request naming the file to store.
pub struct UploadRequest {
    pub file_id: String,
}

/// A stored file's identity as the node-side handlers report it.
pub struct FileInfo {
    pub id: String,
    pub name: String,
    pub size: u64,
}

/// A node-side handler's outcome report.
pub struct StorageResponse {
    pub status: String,
    pub message: String,
}

/// Hex-rendered key material, as exchanged with the legacy handlers.
pub struct EncryptionKey {
    pub key: String,
    pub iv: String,
}

/// Connection settings for the chain-side metadata anchor.
pub struct BSCConfig {
    pub rpc_url: String,
    pub contract_address: String,
    pub private_key: String,
}

/// A user's stake as the chain reports it.
pub struct StakeInfo {
    pub amount: u64,
    pub timestamp: u64,
    pub storage_limit: u64,
    pub active: bool,
}

/// Disk limits for a node's store: capacity, and space always held
/// back.
pub struct DiskConfig {
    pub base_path: String,
    pub max_capacity: u64,
    pub reserved_space: u64,
}

/// A disk-side file record.
pub struct DiskFileRecord {
    pub file_id: String,
    pub file_name: String,
    pub node_id: String,
    pub size: u64,
    pub created_at: u64,
    pub checksum: String,
}

/// A node's health report.
pub struct HealthStatus {
    pub node_id: String,
    pub available_space: u64,
    pub total_space: u64,
    pub is_healthy: bool,
    pub last_checked: u64,
}

impl DiskConfig {
    /// Whether a store can take `required_space` more bytes while
    /// keeping its reserve: used space plus request plus reserve must
    /// stay within capacity.
    pub fn check_space(&self, used: u64, required_space: u64) -> (r: bool)
        ensures
            r <==> used + required_space + self.reserved_space <= self.max_capacity,
    {
        used as u128 + required_space as u128 + self.reserved_space as u128 <= self.max_capacity
            as u128
    }

    /// The space still free: capacity minus use, floored at zero.
    pub fn available_space(&self, used: u64) -> (r: u64)
        ensures
            r == if used <= self.max_capacity {
                self.max_capacity - used
            } else {
                0
            },
    {
        if used <= self.max_capacity {
            self.max_capacity - used
        } else {
            0
        }
    }
}

} // verus!
