pub mod filter;
pub mod fs_path;
pub mod laws;
pub mod resolver;
pub mod session;
pub mod stamp;
pub mod tree;
pub mod walker;

use vstd::prelude::*;
use vstd::string::StringExecFns;

verus! {

/// Represents an archive-related error.
///
/// The per-entry errors are caught where they occur during the walk and
/// reported; only the fatal ones surface from a whole run.
#[derive(Debug)]
pub enum ArchiveError {
    /// A directory could not be read for its files; its sub-tree is absent.
    FailedToReadDirectory,
    /// A file could not be read for its contents; it is skipped.
    FailedToReadFile,
    /// A file's contents could not be copied to the archive.
    FailedToCopyFile(String),
    /// A new entry could not be marked in the archive.
    FailedToMarkEntry(String),
    /// The finished archive could not be saved.
    FailedToFinishArchive(String),
    /// The prefix for an entry could not be stripped: the entry does not
    /// lie under the shared parent path.
    FailedToStripPrefix,
    /// The shared parent path between entries could not be determined.
    FailedToDetermineParentPath,
}

/// The short description of an archive error, with the archive writer's
/// own message embedded where one was carried.
pub open spec fn spec_message(e: ArchiveError) -> Seq<char> {
    match e {
        ArchiveError::FailedToReadDirectory => "failed to read directory"@,
        ArchiveError::FailedToReadFile => "failed to read file"@,
        ArchiveError::FailedToCopyFile(m) => "failed to copy file to archive ["@ + m@ + "]"@,
        ArchiveError::FailedToMarkEntry(m) => "failed to mark entry in archive ["@ + m@ + "]"@,
        ArchiveError::FailedToFinishArchive(m) => "failed to finish archive ["@ + m@ + "]"@,
        ArchiveError::FailedToStripPrefix => "failed to strip prefix"@,
        ArchiveError::FailedToDetermineParentPath => "failed to determine shared parent path"@,
    }
}

impl ArchiveError {
    /// The error's description, for diagnostic lines.
    pub fn message(&self) -> (r: String)
        ensures
            r@ == spec_message(*self),
    {
        match self {
            ArchiveError::FailedToReadDirectory => String::from_str("failed to read directory"),
            ArchiveError::FailedToReadFile => String::from_str("failed to read file"),
            ArchiveError::FailedToCopyFile(m) => {
                let mut r = String::from_str("failed to copy file to archive [");
                r.append(m.as_str());
                r.append("]");
                r
            },
            ArchiveError::FailedToMarkEntry(m) => {
                let mut r = String::from_str("failed to mark entry in archive [");
                r.append(m.as_str());
                r.append("]");
                r
            },
            ArchiveError::FailedToFinishArchive(m) => {
                let mut r = String::from_str("failed to finish archive [");
                r.append(m.as_str());
                r.append("]");
                r
            },
            ArchiveError::FailedToStripPrefix => String::from_str("failed to strip prefix"),
            ArchiveError::FailedToDetermineParentPath => {
                String::from_str("failed to determine shared parent path")
            },
        }
    }
}

/// A declarative description of what to archive and what to exclude.
///
/// Constructed once per run and read-only afterwards: `directories` are the
/// roots to include, `ignores` the wildcard patterns whose matches (by base
/// name) are excluded.
pub struct Profile {
    /// The display name.
    pub name: String,
    /// The paths of directories that will be included.
    pub directories: Vec<crate::fs_path::FsPath>,
    /// The wildcard patterns for directory names and file names that should be ignored.
    pub ignores: Vec<String>,
}

} // verus!


