//! A single storage node's own bookkeeping: capacity validation against
//! the filesystem, advertised free space, and health state.

use vstd::prelude::*;
use vstd::string::StringExecFns;
use crate::StorageError;
use crate::file_system::FileSystem;
use crate::platform::now_secs;

verus! {

/// One storage node's state.
pub struct StorageNode {
    pub node_id: String,
    pub storage_path: String,
    pub total_space: u64,
    pub available_space: u64,
    pub health_status: bool,
    pub last_checked: u64,
}

/// The mathematical content of a `StorageNode`.
#[verifier::ext_equal]
pub struct StorageNodeV {
    pub node_id: Seq<char>,
    pub storage_path: Seq<char>,
    pub total_space: u64,
    pub available_space: u64,
    pub health_status: bool,
    pub last_checked: u64,
}

impl View for StorageNode {
    type V = StorageNodeV;

    open spec fn view(&self) -> StorageNodeV {
        StorageNodeV {
            node_id: self.node_id@,
            storage_path: self.storage_path@,
            total_space: self.total_space,
            available_space: self.available_space,
            health_status: self.health_status,
            last_checked: self.last_checked,
        }
    }
}

impl Clone for StorageNode {
    fn clone(&self) -> (r: StorageNode)
        ensures
            r@ == self@,
    {
        StorageNode {
            node_id: self.node_id.clone(),
            storage_path: self.storage_path.clone(),
            total_space: self.total_space,
            available_space: self.available_space,
            health_status: self.health_status,
            last_checked: self.last_checked,
        }
    }
}

impl StorageNode {
    /// Accepts a capacity only if the filesystem can hold a file that
    /// large.
    pub fn validate_capacity(file_system: FileSystem, capacity: u64) -> (r: bool)
        ensures
            r <==> capacity as nat <= file_system.spec_max_file_size(),
    {
        let max_size = file_system.max_file_size();
        capacity as u128 <= max_size
    }

    /// Builds a node from plain values, after validating the capacity
    /// against the detected filesystem. The storage directory itself is
    /// prepared by the surrounding program. Failure reports that no
    /// acceptable filesystem was detected for the capacity.
    pub fn new(node_id: String, total_space: u64) -> (r: Result<StorageNode, StorageError>)
        ensures
            r matches Ok(n) ==> n@ == (StorageNodeV {
                node_id: node_id@,
                storage_path: "storage/"@ + node_id@,
                total_space,
                available_space: total_space,
                health_status: true,
                last_checked: 0,
            }),
    {
        let fs = match FileSystem::detect_file_system() {
            Some(fs) => fs,
            None => {
                return Err(StorageError::NoSuitableNode);
            },
        };
        if !Self::validate_capacity(fs, total_space) {
            return Err(StorageError::NoSuitableNode);
        }
        let prefix = "storage/";
        proof {
            reveal_strlit("storage/");
        }
        let storage_path = String::from_str(prefix).concat(node_id.as_str());
        Ok(
            StorageNode {
                node_id,
                storage_path,
                total_space,
                available_space: total_space,
                health_status: true,
                last_checked: 0,
            },
        )
    }

    /// Recomputes the advertised free space from the bytes currently in
    /// use under the storage path, as reported by the caller: capacity
    /// minus use, floored at zero.
    pub fn update_available_space(&mut self, used: u64)
        ensures
            final(self)@ == (StorageNodeV {
                available_space: if used <= old(self).total_space {
                    (old(self).total_space - used) as u64
                } else {
                    0
                },
                ..old(self)@
            }),
    {
        if used <= self.total_space {
            self.available_space = self.total_space - used;
        } else {
            self.available_space = 0;
        }
    }

    /// Records the outcome of a health probe, stamping the check time.
    pub fn update_health_status(&mut self, is_healthy: bool)
        ensures
            final(self).health_status == is_healthy,
            final(self).node_id == old(self).node_id,
            final(self).storage_path == old(self).storage_path,
            final(self).total_space == old(self).total_space,
            final(self).available_space == old(self).available_space,
    {
        self.health_status = is_healthy;
        self.last_checked = now_secs();
    }
}

} // verus!
