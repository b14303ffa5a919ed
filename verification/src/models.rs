//! The plain records that cross the library's boundary.

use vstd::prelude::*;

verus! {

/// A percentage is kept in hundredths of a percent; this is 100%.
pub const FULL_PERCENTAGE: u32 = 10_000;

/// One entry of a directory listing.
pub struct FileEntry {
    pub name: String,
    pub path: String,
    pub is_dir: bool,
    pub size: u64,
}

/// A directory listing: the directory, relative to the served root, and what
/// it holds.
pub struct DirResponse {
    pub current_path: String,
    pub entries: Vec<FileEntry>,
}

/// A request to stop serving.
pub struct StopRequest {
    pub confirm: bool,
}

/// A request for a directory, with the job it belongs to if it has one.
pub struct DownloadQuery {
    pub path: String,
    pub operation_id: Option<String>,
}

/// A request for the progress of a job.
pub struct ProgressQuery {
    pub id: String,
}

/// The one failure a caller of a build is told of.
#[derive(Debug)]
pub struct ZipCreationError;

/// The progress of one job: what is being worked on, how many files are done,
/// how many there are, and how far that is in hundredths of a percent.
#[derive(Debug)]
pub struct ZipProgress {
    pub current_file: String,
    pub processed_files: usize,
    pub total_files: usize,
    pub percentage: u32,
}

/// What a progress record says.
pub struct ProgressView {
    pub current_file: Seq<char>,
    pub processed_files: nat,
    pub total_files: nat,
    pub percentage: nat,
}

impl View for ZipProgress {
    type V = ProgressView;

    open spec fn view(&self) -> ProgressView {
        ProgressView {
            current_file: self.current_file@,
            processed_files: self.processed_files as nat,
            total_files: self.total_files as nat,
            percentage: self.percentage as nat,
        }
    }
}

impl ProgressView {
    /// The record of a job of which nothing is known.
    pub open spec fn empty() -> ProgressView {
        ProgressView {
            current_file: Seq::empty(),
            processed_files: 0,
            total_files: 0,
            percentage: 0,
        }
    }

    /// What every record of a job keeps to: once the total is known, no more
    /// files are done than there are, and the percentage never passes 100%.
    pub open spec fn well_formed(self) -> bool {
        &&& self.total_files > 0 ==> self.processed_files <= self.total_files
        &&& self.percentage <= FULL_PERCENTAGE
    }
}

impl Default for ZipProgress {
    fn default() -> (record: ZipProgress)
        ensures
            record@ == ProgressView::empty(),
    {
        ZipProgress { current_file: String::new(), processed_files: 0, total_files: 0, percentage: 0 }
    }
}

impl Clone for ZipProgress {
    fn clone(&self) -> (copy: ZipProgress)
        ensures
            copy == *self,
    {
        ZipProgress {
            current_file: self.current_file.clone(),
            processed_files: self.processed_files,
            total_files: self.total_files,
            percentage: self.percentage,
        }
    }
}

} // verus!
