//! What a driver reports of the disk.
//!
//! The store reads no file. Whoever drives it looks at the disk and says
//! what was there: when a file was last modified, what it holds, and where a
//! path leads once links are resolved. Times are nanoseconds since the Unix
//! epoch, negative for earlier ones.

use vstd::prelude::*;
use vstd::string::*;

verus! {

/// What the driver found when it looked at a file. The metadata is read
/// first and the content afterwards, and the content only where it is
/// wanted.
#[derive(Debug, PartialEq, Eq)]
pub enum FileObservation {
    /// The metadata could not be read: the file is gone, or access to it
    /// was refused.
    MetadataFailed,
    /// The file was last modified at `modified`. Its content is not at
    /// hand: it could not be read, or nobody tried.
    Unread { modified: i128 },
    /// The file was last modified at `modified` and holds `content`.
    Read { modified: i128, content: String },
}

/// Why a file could not be taken into the store or brought up to date.
#[derive(Clone, Copy, Debug, PartialEq, Eq, Structural)]
pub enum FileError {
    /// The file's metadata could not be read.
    Metadata,
    /// The file's content was needed and is not at hand.
    Content,
}

/// The failure that an observation stands for, if it stands for one.
pub open spec fn observation_error(observed: FileObservation) -> Option<FileError> {
    match observed {
        FileObservation::MetadataFailed => Some(FileError::Metadata),
        FileObservation::Unread { .. } => Some(FileError::Content),
        FileObservation::Read { .. } => None,
    }
}

/// When the observed file was last modified, where its metadata was read.
pub open spec fn observed_time(observed: FileObservation) -> Option<int> {
    match observed {
        FileObservation::MetadataFailed => None,
        FileObservation::Unread { modified } => Some(modified as int),
        FileObservation::Read { modified, .. } => Some(modified as int),
    }
}

/// What the driver found at one path.
#[derive(Debug, PartialEq, Eq)]
pub struct PathReport {
    /// The path as it was given or reported.
    pub path: String,
    /// The canonical absolute form of `path`, `None` where it could not be
    /// resolved (the file vanished before anyone looked).
    pub canonical: Option<String>,
    /// Whether anything exists at `path`.
    pub exists: bool,
    /// Whether `path` leads to a regular file.
    pub is_file: bool,
    /// What was found of the file at the resolved path.
    pub observed: FileObservation,
}

impl PathReport {
    /// The path that stands for the file: the canonical one, and the path
    /// as reported where there is none.
    pub open spec fn resolved(self) -> Seq<char> {
        match self.canonical {
            Some(canonical) => canonical@,
            None => self.path@,
        }
    }

    /// The path that stands for the file.
    pub fn resolved_path(&self) -> (path: &str)
        ensures
            path@ == self.resolved(),
    {
        match &self.canonical {
            Some(canonical) => canonical.as_str(),
            None => self.path.as_str(),
        }
    }
}

} // verus!
