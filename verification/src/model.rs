//! The values that a listing is made of, and the records that a container
//! format hands over for it.

use vstd::prelude::*;

verus! {

/// What a node of the tree is.
#[derive(Debug, Clone, Copy, PartialEq, Eq, Structural)]
pub enum ArchiveEntryType {
    File,
    Directory,
}

/// One node of the tree that a listing shows.
#[derive(Debug, Clone)]
pub struct ArchiveEntry {
    /// Last segment of `inner_path`.
    pub name: String,
    /// Full canonical path from the archive's root.
    pub inner_path: String,
    pub entry_type: ArchiveEntryType,
    /// Uncompressed size in bytes; 0 for a directory.
    pub size: u64,
    /// Compressed size in bytes; 0 where it is not known.
    pub compressed_size: u64,
    /// Last modification, seconds since the Unix epoch; 0 where it is not
    /// known.
    pub modified: i64,
    /// Label of the compression method.
    pub compression: String,
}

/// An `ArchiveEntry` as a mathematical value.
pub struct EntryModel {
    pub name: Seq<char>,
    pub inner_path: Seq<char>,
    pub is_dir: bool,
    pub size: u64,
    pub compressed_size: u64,
    pub modified: i64,
    pub compression: Seq<char>,
}

impl View for ArchiveEntry {
    type V = EntryModel;

    open spec fn view(&self) -> EntryModel {
        EntryModel {
            name: self.name@,
            inner_path: self.inner_path@,
            is_dir: self.entry_type == ArchiveEntryType::Directory,
            size: self.size,
            compressed_size: self.compressed_size,
            modified: self.modified,
            compression: self.compression@,
        }
    }
}

/// The entries of a vector as mathematical values.
pub open spec fn entry_models(v: Seq<ArchiveEntry>) -> Seq<EntryModel> {
    Seq::new(v.len(), |i: int| v[i]@)
}

/// The result of listing one level of an archive.
#[derive(Debug, Clone)]
pub struct ArchiveListing {
    /// Path of the archive on the host.
    pub archive_path: String,
    /// The canonical parent that was listed; empty for the root.
    pub inner_path: String,
    /// Label of the archive's format.
    pub format: String,
    /// The direct children of `inner_path`.
    pub entries: Vec<ArchiveEntry>,
    /// Sum of `size` over `entries`.
    pub total_size: u64,
}

/// One record as a container stores it, before any tree is made of it.
#[derive(Debug, Clone)]
pub struct RawEntry {
    /// The path as stored, in either slash direction.
    pub path: String,
    pub is_dir: bool,
    pub size: u64,
    pub compressed_size: u64,
    pub modified: i64,
    pub compression: String,
}

/// A `RawEntry` as a mathematical value.
pub struct RawModel {
    pub path: Seq<char>,
    pub is_dir: bool,
    pub size: u64,
    pub compressed_size: u64,
    pub modified: i64,
    pub compression: Seq<char>,
}

impl View for RawEntry {
    type V = RawModel;

    open spec fn view(&self) -> RawModel {
        RawModel {
            path: self.path@,
            is_dir: self.is_dir,
            size: self.size,
            compressed_size: self.compressed_size,
            modified: self.modified,
            compression: self.compression@,
        }
    }
}

/// The records of a vector as mathematical values.
pub open spec fn raw_models(v: Seq<RawEntry>) -> Seq<RawModel> {
    Seq::new(v.len(), |i: int| v[i]@)
}

/// Sum of the sizes of `entries`.
pub open spec fn total_size_of(entries: Seq<EntryModel>) -> nat
    decreases entries.len(),
{
    if entries.len() == 0 {
        0
    } else {
        total_size_of(entries.drop_last()) + entries.last().size as nat
    }
}

} // verus!
