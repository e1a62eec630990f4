//! Filesystem limits: the largest file each supported filesystem can
//! hold, and detection of the running system's filesystem.

use vstd::prelude::*;
use crate::platform::os_type_name;
use crate::textform::str_equal;

verus! {

/// The filesystems whose size limits the storage engine knows.
#[derive(Clone, Copy, Debug, PartialEq, Eq, Structural)]
pub enum FileSystem {
    FAT32,
    ExFat,
    NTFS,
    Ext4,
    APFS,
}

impl FileSystem {
    /// The largest file size the filesystem supports, in bytes.
    pub open spec fn spec_max_file_size(self) -> nat {
        match self {
            FileSystem::FAT32 => 4 * 1024 * 1024 * 1024,
            FileSystem::ExFat => 16 * 1024 * 1024 * 1024 * 1024 * 1024 * 1024,
            FileSystem::NTFS => 16 * 1024 * 1024 * 1024 * 1024 * 1024 * 1024,
            FileSystem::Ext4 => 16 * 1024 * 1024 * 1024 * 1024,
            FileSystem::APFS => 8 * 1024 * 1024 * 1024 * 1024 * 1024 * 1024,
        }
    }

    /// The largest file size the filesystem supports, in bytes.
    pub fn max_file_size(&self) -> (r: u128)
        ensures
            r == self.spec_max_file_size(),
    {
        match self {
            FileSystem::FAT32 => 4 * 1024 * 1024 * 1024,
            FileSystem::ExFat => 16 * 1024 * 1024 * 1024 * 1024 * 1024 * 1024,
            FileSystem::NTFS => 16 * 1024 * 1024 * 1024 * 1024 * 1024 * 1024,
            FileSystem::Ext4 => 16 * 1024 * 1024 * 1024 * 1024,
            FileSystem::APFS => 8 * 1024 * 1024 * 1024 * 1024 * 1024 * 1024,
        }
    }

    /// The filesystem assumed for a kernel name.
    pub open spec fn spec_for_os(os: Seq<char>) -> Option<FileSystem> {
        if os == "Windows"@ {
            Some(FileSystem::NTFS)
        } else if os == "Linux"@ {
            Some(FileSystem::Ext4)
        } else if os == "Darwin"@ {
            Some(FileSystem::APFS)
        } else {
            None
        }
    }

    /// Maps a kernel name to the filesystem assumed for it.
    pub fn for_os(os: &str) -> (r: Option<FileSystem>)
        ensures
            r == Self::spec_for_os(os@),
    {
        if str_equal(os, "Windows") {
            Some(FileSystem::NTFS)
        } else if str_equal(os, "Linux") {
            Some(FileSystem::Ext4)
        } else if str_equal(os, "Darwin") {
            Some(FileSystem::APFS)
        } else {
            None
        }
    }

    /// Asks the platform for the kernel name and maps it. The result
    /// depends on the machine; whatever comes back is the mapping of
    /// some kernel name.
    pub fn detect_file_system() -> (r: Option<FileSystem>)
        ensures
            r matches Some(fs) ==> exists|os: Seq<char>| Self::spec_for_os(os) == Some(fs),
    {
        match os_type_name() {
            None => None,
            Some(name) => {
                let r = Self::for_os(name.as_str());
                proof {
                    if r is Some {
                        assert(Self::spec_for_os(name@) == r);
                    }
                }
                r
            },
        }
    }
}

} // verus!
