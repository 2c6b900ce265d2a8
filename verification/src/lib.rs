//! Matching of subtitle files to media files.
//!
//! The library pairs per-title subtitle directories with media files in a
//! destination directory: it builds an index of the destination keyed by
//! filename stem, filters and orders the subtitle candidates of each paired
//! directory, selects one, and plans the link or copy that puts the chosen
//! subtitle beside its media file.  All filesystem reads and writes, as well
//! as the interactive prompts, are performed by the surrounding program; the
//! library works on plain values handed to it and its results say exactly
//! which entry was chosen and what transfer is to be made.

use vstd::prelude::*;

pub mod index;
pub mod plan;
pub mod run;
pub mod select;
pub mod text;

verus! {

/// One direct child of a directory, as plain values.
///
/// The surrounding program enumerates a directory and hands the library one
/// `FsEntry` per child: its file name, its full path, its size in bytes, and
/// whether it is a regular file or a directory.
pub struct FsEntry {
    pub name: String,
    pub path: String,
    pub size: u64,
    pub is_file: bool,
    pub is_dir: bool,
}

impl FsEntry {
    /// An exact copy of the entry.
    pub fn duplicate(&self) -> (r: FsEntry)
        ensures
            r == *self,
    {
        FsEntry {
            name: self.name.clone(),
            path: self.path.clone(),
            size: self.size,
            is_file: self.is_file,
            is_dir: self.is_dir,
        }
    }
}

/// The error taxonomy of a run.
///
/// `EmptyDestination` is fatal: with no destination entries no pairing can be
/// made.  `NoCandidates` and `TargetExists` concern one pairing only; the run
/// goes on with the remaining pairings.  `IoFailure` stands for a filesystem
/// operation that failed while a pairing was being performed.
#[derive(Clone, Copy, Debug, PartialEq, Eq, Structural)]
pub enum SyncError {
    EmptyDestination,
    NoCandidates,
    TargetExists,
    IoFailure,
}

impl SyncError {
    /// A short description of the error, for reporting.
    pub fn describe(&self) -> (r: &'static str)
        ensures
            *self == SyncError::EmptyDestination ==> r@ == "no destination files"@,
            *self == SyncError::NoCandidates ==> r@ == "no subtitle candidates"@,
            *self == SyncError::TargetExists ==> r@ == "target already exists"@,
            *self == SyncError::IoFailure ==> r@ == "filesystem operation failed"@,
    {
        match self {
            SyncError::EmptyDestination => "no destination files",
            SyncError::NoCandidates => "no subtitle candidates",
            SyncError::TargetExists => "target already exists",
            SyncError::IoFailure => "filesystem operation failed",
        }
    }
}

} // verus!
