//! The ways in which browsing an archive fails.

use vstd::prelude::*;
use crate::format::ArchiveFormat;

verus! {

/// Why a listing, a read or an extraction did not come about.
#[derive(Debug, Clone, Copy, PartialEq, Eq, Structural)]
pub enum ArchiveError {
    /// The file name ends in no known archive suffix.
    UnrecognizedFormat,
    /// The container cannot be opened or one of its records cannot be read.
    NotAValidArchive,
    /// No record has the path that was asked for.
    EntryNotFound,
    /// The format is recognised, but nothing is at hand that reads it.
    FeatureNotCompiled(ArchiveFormat),
    /// The host's file system refused an open, a read or a write.
    IoFailure,
    /// A helper that reads the format for the library failed or delivered
    /// nothing usable.
    BackendProcessFailure,
}

impl ArchiveError {
    /// The name of the failure as it is reported to a caller.
    pub open spec fn code_text(self) -> Seq<char> {
        match self {
            ArchiveError::UnrecognizedFormat => "UNRECOGNIZED_FORMAT"@,
            ArchiveError::NotAValidArchive => "NOT_A_VALID_ARCHIVE"@,
            ArchiveError::EntryNotFound => "ENTRY_NOT_FOUND"@,
            ArchiveError::FeatureNotCompiled(_) => "FEATURE_NOT_COMPILED"@,
            ArchiveError::IoFailure => "IO_FAILURE"@,
            ArchiveError::BackendProcessFailure => "BACKEND_PROCESS_FAILURE"@,
        }
    }

    /// The name of the failure as it is reported to a caller.
    pub fn code(&self) -> (s: &'static str)
        ensures
            s@ == self.code_text(),
    {
        match self {
            ArchiveError::UnrecognizedFormat => "UNRECOGNIZED_FORMAT",
            ArchiveError::NotAValidArchive => "NOT_A_VALID_ARCHIVE",
            ArchiveError::EntryNotFound => "ENTRY_NOT_FOUND",
            ArchiveError::FeatureNotCompiled(_) => "FEATURE_NOT_COMPILED",
            ArchiveError::IoFailure => "IO_FAILURE",
            ArchiveError::BackendProcessFailure => "BACKEND_PROCESS_FAILURE",
        }
    }
}

/// A failure of one of the entry points, with what it failed on: the
/// archive, and the inner path or selected path that was asked for.
#[derive(Debug, Clone, PartialEq, Eq)]
pub struct Failure {
    pub kind: ArchiveError,
    /// Path of the archive on the host.
    pub archive_path: String,
    /// The inner path that was asked for; for an extraction the selected
    /// path that the archive holds nothing for, and empty where the failure
    /// is about no path.
    pub entry: String,
}

/// A `Failure` as a mathematical value.
pub struct FailureModel {
    pub kind: ArchiveError,
    pub archive_path: Seq<char>,
    pub entry: Seq<char>,
}

impl View for Failure {
    type V = FailureModel;

    open spec fn view(&self) -> FailureModel {
        FailureModel { kind: self.kind, archive_path: self.archive_path@, entry: self.entry@ }
    }
}

/// The outcome without what it failed on.
pub open spec fn kind_of<T>(r: Result<T, Failure>) -> Result<T, ArchiveError> {
    match r {
        Ok(value) => Ok(value),
        Err(failure) => Err(failure.kind),
    }
}

impl Failure {
    /// The failure `kind` on the archive at `archive_path`, about `entry`.
    pub fn new(kind: ArchiveError, archive_path: &str, entry: &str) -> (f: Failure)
        ensures
            f@ == (FailureModel { kind, archive_path: archive_path@, entry: entry@ }),
    {
        Failure { kind, archive_path: archive_path.to_owned(), entry: entry.to_owned() }
    }
}

} // verus!
