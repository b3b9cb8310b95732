//! Archive transcoding engine for App Inventor extension containers.
//!
//! The library extracts ZIP-based extension containers, locates the base
//! directory of each extension by a marker-file suffix, and repacks a
//! directory tree into a new container while normalizing path separators
//! and optionally unwrapping one directory level from the entry namespace.
//!
//! All archive and path logic is verified; the surrounding process —
//! filesystem reads and writes, spawning the external tools — lives with
//! the caller, which hands this library plain bytes and takes plain bytes
//! back.

use vstd::prelude::*;

pub mod archive;
pub mod dexer;
pub mod extract;
pub mod jetifier;
pub mod paths;
pub mod pipeline;
pub mod tree;
pub mod util;

verus! {

/// Why an archive operation failed.
#[derive(Clone, Copy, Debug, PartialEq, Eq, Structural)]
pub enum ArchiveError {
    /// The source archive, or an expected marker entry inside it, is missing.
    NotFound,
    /// The source could not be accessed.
    PermissionDenied,
    /// The container's central directory could not be parsed.
    MalformedArchive,
    /// A read or write failed while copying entry contents.
    IoFailure,
    /// An entry name cannot be mapped safely into the output directory.
    InvalidPath,
}

} // verus!
