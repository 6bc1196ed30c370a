//! Point-in-time capsules of a fixed set of directories.
//!
//! A capsule is a single archive file holding the full contents of a set of
//! source directories, every member stored under a relative, forward-slash
//! path.  The library builds such archives from walked directory entries,
//! lists and orders the capsules found in a store directory, plans the
//! displacement of live directories before a restore, and turns archive
//! entries back into the write steps that repopulate the tree.  All file and
//! terminal I/O stays with the caller; the library works on plain values.

pub mod paths;
pub mod store;
pub mod builder;
pub mod clock;
pub mod codec;
pub mod displace;
pub mod restore;

use vstd::prelude::*;

verus! {

/// Why a capsule operation was refused.
#[derive(Clone, Copy, Debug, PartialEq, Eq, Structural)]
pub enum CapsuleError {
    /// An entry path was absolute, contained a `..` segment, or was
    /// otherwise unfit to be joined under the restore root.
    UnsafeEntryPath,
    /// The archive container refused a write or could not be finalized.
    ArchiveWrite,
    /// The archive container could not be opened or an entry read failed.
    ArchiveRead,
}

} // verus!
