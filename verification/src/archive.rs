//! The dispatcher: from the name of an archive and what a caller hands over
//! of it, its bytes or the records that a helper read, to a listing, to
//! the content of one entry, and to the steps of an extraction.

use vstd::prelude::*;
use crate::containers::{
    container_located, container_records, content_or_invalid, copy_bytes, decode_stream,
    decoded_of, entry_or_invalid, fails_with, gives, lemma_sought_is_first,
    lemma_zip_sought_is_first, list_records, lists, locate_record, located, plans, read_cab_file,
    read_tar_file, read_zip_file, scan_limit, scan_records, single_record, tar_content,
    tar_read_of, zip_entry_content, zip_read_of, zip_readable, zip_records, zip_records_of,
    Container,
};
use crate::error::{kind_of, ArchiveError, Failure};
use crate::format::{detected, ArchiveFormat};
use crate::model::{entry_models, raw_models, ArchiveListing, RawEntry, RawModel};
use crate::outside::{
    tar_content_of, tar_entries, tar_next, tar_next_content, tar_open, tar_position_of,
    tar_stream_of, tar_unwalked_of, zip_bytes_of, zip_content, zip_open, zip_opens, TarStream,
    TarWalk,
};
use crate::paths::{file_stem, normalized};
use crate::records::{
    all_present, is_first_absent, law_plan_steps_are_selected, law_step_is_found_by_read, plan_of,
    plan_or_absent, planned, selection_paths, ExtractStep, StepModel,
};

verus! {

/// Which of the optional backends are switched on. A format whose backend
/// is off is recognised by name and refused.
#[derive(Debug, Clone, Copy)]
pub struct Backends {
    pub seven_zip: bool,
    pub rar: bool,
    pub cab: bool,
    pub arj: bool,
    pub lzh: bool,
    pub ace: bool,
}

/// What a caller hands over of an archive: its bytes, or the records that
/// a helper outside the library has read from it.
#[derive(Debug, Clone)]
pub enum ArchiveContent {
    Bytes(Vec<u8>),
    Records(Vec<RawEntry>),
}

/// An `ArchiveContent` as a mathematical value.
pub enum ContentModel {
    Bytes(Seq<u8>),
    Records(Seq<RawModel>),
}

impl View for ArchiveContent {
    type V = ContentModel;

    open spec fn view(&self) -> ContentModel {
        match self {
            ArchiveContent::Bytes(data) => ContentModel::Bytes(data@),
            ArchiveContent::Records(records) => ContentModel::Records(raw_models(records@)),
        }
    }
}

/// What a read hands back: the content itself, or the index of the record
/// whose content the caller's helper is to fetch.
#[derive(Debug, Clone)]
pub enum ReadOutcome {
    Content(Vec<u8>),
    Record(usize),
}

/// The backend of `format` is at hand.
pub open spec fn is_available(format: ArchiveFormat, backends: Backends) -> bool {
    match format {
        ArchiveFormat::SevenZip => backends.seven_zip,
        ArchiveFormat::Rar => backends.rar,
        ArchiveFormat::Cab => backends.cab,
        ArchiveFormat::Arj => backends.arj,
        ArchiveFormat::Lzh => backends.lzh,
        ArchiveFormat::Ace => backends.ace,
        _ => true,
    }
}

/// The library reads the records of `format` from its bytes itself. The
/// others are read by a helper of the caller, which hands over records.
pub open spec fn has_parser(format: ArchiveFormat) -> bool {
    match format {
        ArchiveFormat::SevenZip
        | ArchiveFormat::Rar
        | ArchiveFormat::Arj
        | ArchiveFormat::Lzh
        | ArchiveFormat::Ace => false,
        _ => true,
    }
}

/// The library reads the contents of the entries of `format` from its
/// bytes itself. Of a cabinet it reads the directory only: the contents are
/// fetched by a helper of the caller.
pub open spec fn has_reader(format: ArchiveFormat) -> bool {
    has_parser(format) && format != ArchiveFormat::Cab
}

/// A compressed stream without a container around it.
pub open spec fn is_single_file(format: ArchiveFormat) -> bool {
    match format {
        ArchiveFormat::Gz | ArchiveFormat::Bz2 | ArchiveFormat::Xz | ArchiveFormat::Zst => true,
        _ => false,
    }
}

/// A tar stream, bare or compressed.
pub open spec fn is_tar_family(format: ArchiveFormat) -> bool {
    match format {
        ArchiveFormat::Tar
        | ArchiveFormat::TarGz
        | ArchiveFormat::TarBz2
        | ArchiveFormat::TarXz
        | ArchiveFormat::TarZst => true,
        _ => false,
    }
}

/// The compression label of a directory that no record of `format` names.
pub open spec fn synth_label_of(format: ArchiveFormat) -> Seq<char> {
    match format {
        ArchiveFormat::Zip => "Stored"@,
        ArchiveFormat::Rar => "RAR"@,
        ArchiveFormat::Cab => "CAB"@,
        ArchiveFormat::Arj => "ARJ"@,
        ArchiveFormat::Lzh => "LZH"@,
        ArchiveFormat::Ace => "ACE"@,
        _ => format.label(),
    }
}

/// The records that the library reads from the bytes of an archive of
/// `format`; `None` where they are no valid archive of that format.
pub open spec fn parsed(format: ArchiveFormat, archive_path: Seq<char>, data: Seq<u8>) -> Option<
    Seq<RawModel>,
> {
    if format == ArchiveFormat::Zip {
        if zip_readable(data) {
            Some(zip_records_of(data))
        } else {
            None
        }
    } else if is_tar_family(format) {
        match decoded_of(format, data) {
            None => None,
            Some(stream) => container_records(Container::Tar, stream, format.label()),
        }
    } else if is_single_file(format) {
        Some(seq![single_record(archive_path, data.len(), format)])
    } else if format == ArchiveFormat::Cab {
        container_records(Container::Cab, data, format.label())
    } else {
        None
    }
}

/// The format that a call works on: the one detected from the name, where
/// its backend is at hand.
pub open spec fn resolved_format(archive_path: Seq<char>, backends: Backends) -> Result<
    ArchiveFormat,
    ArchiveError,
> {
    match detected(archive_path) {
        None => Err(ArchiveError::UnrecognizedFormat),
        Some(format) => if is_available(format, backends) {
            Ok(format)
        } else {
            Err(ArchiveError::FeatureNotCompiled(format))
        },
    }
}

/// The records that a call works on: those handed over, or those read from
/// the bytes handed over.
pub open spec fn source_records(
    format: ArchiveFormat,
    archive_path: Seq<char>,
    content: ContentModel,
) -> Result<Seq<RawModel>, ArchiveError> {
    match content {
        ContentModel::Records(raw) => Ok(raw),
        ContentModel::Bytes(data) => if !has_parser(format) {
            Err(ArchiveError::BackendProcessFailure)
        } else {
            match parsed(format, archive_path, data) {
                Some(raw) => Ok(raw),
                None => Err(ArchiveError::NotAValidArchive),
            }
        },
    }
}

impl Backends {
    /// The registry in which every optional backend is off.
    pub fn none() -> (b: Backends)
        ensures
            !b.seven_zip && !b.rar && !b.cab && !b.arj && !b.lzh && !b.ace,
    {
        Backends { seven_zip: false, rar: false, cab: false, arj: false, lzh: false, ace: false }
    }

    /// The registry of what the library lists by itself: cabinets are on,
    /// the formats that need a helper are off.
    pub fn built_in() -> (b: Backends)
        ensures
            b.cab && !b.seven_zip && !b.rar && !b.arj && !b.lzh && !b.ace,
    {
        Backends { seven_zip: false, rar: false, cab: true, arj: false, lzh: false, ace: false }
    }

    /// Whether the backend of `format` is at hand.
    pub fn supports(&self, format: ArchiveFormat) -> (r: bool)
        ensures
            r == is_available(format, *self),
    {
        match format {
            ArchiveFormat::SevenZip => self.seven_zip,
            ArchiveFormat::Rar => self.rar,
            ArchiveFormat::Cab => self.cab,
            ArchiveFormat::Arj => self.arj,
            ArchiveFormat::Lzh => self.lzh,
            ArchiveFormat::Ace => self.ace,
            _ => true,
        }
    }
}

/// The compression label of a directory that no record of `format` names.
pub fn synth_label(format: ArchiveFormat) -> (s: &'static str)
    ensures
        s@ == synth_label_of(format),
{
    match format {
        ArchiveFormat::Zip => "Stored",
        ArchiveFormat::Rar => "RAR",
        ArchiveFormat::Cab => "CAB",
        ArchiveFormat::Arj => "ARJ",
        ArchiveFormat::Lzh => "LZH",
        ArchiveFormat::Ace => "ACE",
        _ => format.as_str(),
    }
}

/// Whether `format` is a compressed stream without a container.
pub fn single_file(format: ArchiveFormat) -> (r: bool)
    ensures
        r == is_single_file(format),
{
    match format {
        ArchiveFormat::Gz | ArchiveFormat::Bz2 | ArchiveFormat::Xz | ArchiveFormat::Zst => true,
        _ => false,
    }
}

/// Whether `format` is a tar stream, bare or compressed.
pub fn tar_family(format: ArchiveFormat) -> (r: bool)
    ensures
        r == is_tar_family(format),
{
    match format {
        ArchiveFormat::Tar
        | ArchiveFormat::TarGz
        | ArchiveFormat::TarBz2
        | ArchiveFormat::TarXz
        | ArchiveFormat::TarZst => true,
        _ => false,
    }
}

/// The format that a call on `archive_path` works on, or the reason why
/// there is none: the name is not recognised, or the backend of its format
/// is not at hand.
pub fn resolve_format(archive_path: &str, backends: &Backends) -> (r: Result<ArchiveFormat, ArchiveError>)
    ensures
        r == resolved_format(archive_path@, *backends),
{
    match ArchiveFormat::detect(archive_path) {
        None => Err(ArchiveError::UnrecognizedFormat),
        Some(format) => if backends.supports(format) {
            Ok(format)
        } else {
            Err(ArchiveError::FeatureNotCompiled(format))
        },
    }
}

/// `r` holds the records `expected`, or is the failure `expected`.
pub open spec fn parses(
    r: Result<Vec<RawEntry>, ArchiveError>,
    expected: Result<Seq<RawModel>, ArchiveError>,
) -> bool {
    match expected {
        Ok(raw) => r is Ok && raw_models(r->Ok_0@) == raw,
        Err(e) => fails_with(r, e),
    }
}

/// The records of the archive of `format` whose bytes are `data`.
pub fn parse_bytes(format: ArchiveFormat, archive_path: &str, data: &Vec<u8>) -> (r: Result<
    Vec<RawEntry>,
    ArchiveError,
>)
    ensures
        parses(r, source_records(format, archive_path@, ContentModel::Bytes(data@))),
{
    match format {
        ArchiveFormat::Zip => zip_records(data),
        ArchiveFormat::Tar => scan_records(Container::Tar, data, format.as_str()),
        ArchiveFormat::TarGz
        | ArchiveFormat::TarBz2
        | ArchiveFormat::TarXz
        | ArchiveFormat::TarZst => match decode_stream(format, data) {
            Ok(stream) => scan_records(Container::Tar, &stream, format.as_str()),
            Err(e) => Err(e),
        },
        ArchiveFormat::Gz | ArchiveFormat::Bz2 | ArchiveFormat::Xz | ArchiveFormat::Zst => {
            let size = data.len() as u64;
            let record = RawEntry {
                path: file_stem(archive_path),
                is_dir: false,
                size,
                compressed_size: size,
                modified: 0,
                compression: format.as_str().to_owned(),
            };
            let mut out: Vec<RawEntry> = Vec::new();
            out.push(record);
            assert(raw_models(out@) =~= seq![
                single_record(archive_path@, data@.len(), format),
            ]);
            Ok(out)
        },
        ArchiveFormat::Cab => scan_records(Container::Cab, data, format.as_str()),
        _ => Err(ArchiveError::BackendProcessFailure),
    }
}

/// The parent that a listing of `format` shows: the root for a compressed
/// stream, which has no hierarchy, and the parent asked for otherwise.
pub open spec fn listed_parent(format: ArchiveFormat, inner_path: Seq<char>) -> Seq<char> {
    if is_single_file(format) {
        Seq::<char>::empty()
    } else {
        inner_path
    }
}

/// What `list_archive` returns.
pub open spec fn list_archive_result(
    r: Result<ArchiveListing, ArchiveError>,
    archive_path: Seq<char>,
    content: ContentModel,
    inner_path: Seq<char>,
    backends: Backends,
) -> bool {
    match resolved_format(archive_path, backends) {
        Err(e) => fails_with(r, e),
        Ok(format) => match source_records(format, archive_path, content) {
            Err(e) => fails_with(r, e),
            Ok(raw) => lists(
                r,
                archive_path,
                listed_parent(format, inner_path),
                format.label(),
                synth_label_of(format),
                raw,
            ),
        },
    }
}

/// The direct children of `inner_path` in the archive at `archive_path`.
///
/// The format is read off the name. A name that is not recognised, a
/// format whose backend is off, bytes of a format that only a helper reads,
/// and bytes that are no valid archive each give their own failure; so does
/// a listing whose sizes do not add up to a `u64`. The failure names the
/// archive and the inner path.
pub fn list_archive(
    archive_path: &str,
    content: &ArchiveContent,
    inner_path: &str,
    backends: &Backends,
) -> (r: Result<ArchiveListing, Failure>)
    ensures
        list_archive_result(kind_of(r), archive_path@, content@, inner_path@, *backends),
        r is Err ==> r->Err_0@.archive_path == archive_path@ && r->Err_0@.entry == inner_path@,
{
    match list_in(archive_path, content, inner_path, backends) {
        Ok(listing) => Ok(listing),
        Err(kind) => Err(Failure::new(kind, archive_path, inner_path)),
    }
}

/// The listing, or the kind of its failure.
fn list_in(
    archive_path: &str,
    content: &ArchiveContent,
    inner_path: &str,
    backends: &Backends,
) -> (r: Result<ArchiveListing, ArchiveError>)
    ensures
        list_archive_result(r, archive_path@, content@, inner_path@, *backends),
{
    let format = match resolve_format(archive_path, backends) {
        Ok(format) => format,
        Err(e) => {
            return Err(e);
        },
    };
    proof {
        reveal_strlit("");
        assert(""@ =~= Seq::<char>::empty());
    }
    let parent = if single_file(format) {
        ""
    } else {
        inner_path
    };
    match content {
        ArchiveContent::Records(records) => list_records(
            archive_path,
            records,
            parent,
            format.as_str(),
            synth_label(format),
        ),
        ArchiveContent::Bytes(data) => match parse_bytes(format, archive_path, data) {
            Ok(records) => list_records(
                archive_path,
                &records,
                parent,
                format.as_str(),
                synth_label(format),
            ),
            Err(e) => Err(e),
        },
    }
}

/// The content of the entry at `inner_path` of the archive of `format`
/// whose bytes are `data`. A compressed stream has one content, whatever
/// the path. A format whose contents the library does not read gives
/// `BackendProcessFailure`.
pub open spec fn read_of(format: ArchiveFormat, data: Seq<u8>, inner_path: Seq<char>) -> Result<
    Seq<u8>,
    ArchiveError,
> {
    if format == ArchiveFormat::Zip {
        zip_read_of(data, inner_path)
    } else if is_tar_family(format) {
        match decoded_of(format, data) {
            None => Err(ArchiveError::NotAValidArchive),
            Some(stream) => tar_read_of(stream, inner_path),
        }
    } else if is_single_file(format) {
        content_or_invalid(decoded_of(format, data))
    } else {
        Err(ArchiveError::BackendProcessFailure)
    }
}

/// The content of the entry at `inner_path` of the archive of `format`
/// whose bytes are `data`.
pub fn read_bytes(format: ArchiveFormat, data: &Vec<u8>, inner_path: &str) -> (r: Result<
    Vec<u8>,
    ArchiveError,
>)
    ensures
        gives(r, read_of(format, data@, inner_path@)),
{
    match format {
        ArchiveFormat::Zip => read_zip_file(data, inner_path),
        ArchiveFormat::Tar => read_tar_file(data, inner_path),
        ArchiveFormat::TarGz
        | ArchiveFormat::TarBz2
        | ArchiveFormat::TarXz
        | ArchiveFormat::TarZst => match decode_stream(format, data) {
            Ok(stream) => read_tar_file(&stream, inner_path),
            Err(e) => Err(e),
        },
        ArchiveFormat::Gz | ArchiveFormat::Bz2 | ArchiveFormat::Xz | ArchiveFormat::Zst => {
            decode_stream(format, data)
        },
        _ => Err(ArchiveError::BackendProcessFailure),
    }
}

/// What `read_archive_file` returns.
pub open spec fn read_archive_result(
    r: Result<ReadOutcome, ArchiveError>,
    archive_path: Seq<char>,
    content: ContentModel,
    inner_path: Seq<char>,
    backends: Backends,
) -> bool {
    match resolved_format(archive_path, backends) {
        Err(e) => fails_with(r, e),
        Ok(format) => match content {
            ContentModel::Records(raw) => match located(raw, inner_path) {
                Ok(i) => r is Ok && r->Ok_0 is Record && r->Ok_0->Record_0 == i,
                Err(e) => fails_with(r, e),
            },
            ContentModel::Bytes(data) => if format == ArchiveFormat::Cab {
                match container_located(Container::Cab, data, inner_path) {
                    Ok(i) => r is Ok && r->Ok_0 is Record && r->Ok_0->Record_0 == i,
                    Err(e) => fails_with(r, e),
                }
            } else {
                match read_of(format, data, inner_path) {
                    Ok(bytes) => r is Ok && r->Ok_0 is Content && r->Ok_0->Content_0@ == bytes,
                    Err(e) => fails_with(r, e),
                }
            },
        },
    }
}

/// The content of the entry at `inner_path` of the archive at
/// `archive_path`, whole and decompressed. Over records that a helper read,
/// and over the bytes of a cabinet, the answer is the index of the record
/// whose content the helper is to fetch. The failure names the archive and
/// the inner path.
pub fn read_archive_file(
    archive_path: &str,
    content: &ArchiveContent,
    inner_path: &str,
    backends: &Backends,
) -> (r: Result<ReadOutcome, Failure>)
    ensures
        read_archive_result(kind_of(r), archive_path@, content@, inner_path@, *backends),
        r is Err ==> r->Err_0@.archive_path == archive_path@ && r->Err_0@.entry == inner_path@,
{
    match read_in(archive_path, content, inner_path, backends) {
        Ok(outcome) => Ok(outcome),
        Err(kind) => Err(Failure::new(kind, archive_path, inner_path)),
    }
}

/// The content or the record to fetch, or the kind of the failure.
fn read_in(
    archive_path: &str,
    content: &ArchiveContent,
    inner_path: &str,
    backends: &Backends,
) -> (r: Result<ReadOutcome, ArchiveError>)
    ensures
        read_archive_result(r, archive_path@, content@, inner_path@, *backends),
{
    let format = match resolve_format(archive_path, backends) {
        Ok(format) => format,
        Err(e) => {
            return Err(e);
        },
    };
    match content {
        ArchiveContent::Records(records) => match locate_record(records, inner_path) {
            Ok(i) => Ok(ReadOutcome::Record(i)),
            Err(e) => Err(e),
        },
        ArchiveContent::Bytes(data) => if format == ArchiveFormat::Cab {
            match read_cab_file(data, inner_path) {
                Ok(i) => Ok(ReadOutcome::Record(i)),
                Err(e) => Err(e),
            }
        } else {
            match read_bytes(format, data, inner_path) {
                Ok(bytes) => Ok(ReadOutcome::Content(bytes)),
                Err(e) => Err(e),
            }
        },
    }
}

/// The steps of an extraction of `selection` from an archive of `format`,
/// or `EntryNotFound` where a selected path has no record at or below it.
/// A compressed stream holds one record, named by the stem of the
/// archive's name.
pub open spec fn extract_of(
    format: ArchiveFormat,
    archive_path: Seq<char>,
    content: ContentModel,
    selection: Seq<Seq<char>>,
) -> Result<Seq<StepModel>, ArchiveError> {
    match source_records(format, archive_path, content) {
        Err(e) => Err(e),
        Ok(raw) => planned(raw, selection),
    }
}

/// What `extract_archive` returns.
pub open spec fn extract_archive_result(
    r: Result<Vec<ExtractStep>, ArchiveError>,
    archive_path: Seq<char>,
    content: ContentModel,
    selection: Seq<Seq<char>>,
    backends: Backends,
) -> bool {
    match resolved_format(archive_path, backends) {
        Err(e) => fails_with(r, e),
        Ok(format) => plans(r, extract_of(format, archive_path, content, selection)),
    }
}

/// What an extraction failure is about: the first selected path that the
/// archive holds nothing for, where that is the failure, and no path
/// otherwise.
pub open spec fn extract_blame(
    entry: Seq<char>,
    archive_path: Seq<char>,
    content: ContentModel,
    selection: Seq<Seq<char>>,
    backends: Backends,
) -> bool {
    match resolved_format(archive_path, backends) {
        Err(_) => entry.len() == 0,
        Ok(format) => match source_records(format, archive_path, content) {
            Err(_) => entry.len() == 0,
            Ok(raw) => exists|k: int| is_first_absent(raw, selection, k) && entry == selection[k],
        },
    }
}

/// The steps that extract `selection` from the archive at `archive_path`,
/// in the order of its records: each names a record and the relative path
/// below the destination at which it is written, as a directory or a file.
/// An empty selection extracts everything. A selected path that the archive
/// holds nothing at or below gives `EntryNotFound`, which names that path,
/// and no step at all. The caller writes a step after the other, so what
/// was written stays where a later step fails.
pub fn extract_archive(
    archive_path: &str,
    content: &ArchiveContent,
    selection: &Vec<String>,
    backends: &Backends,
) -> (r: Result<Vec<ExtractStep>, Failure>)
    ensures
        extract_archive_result(
            kind_of(r),
            archive_path@,
            content@,
            selection_paths(selection@),
            *backends,
        ),
        r is Err ==> r->Err_0@.archive_path == archive_path@ && extract_blame(
            r->Err_0@.entry,
            archive_path@,
            content@,
            selection_paths(selection@),
            *backends,
        ),
{
    proof {
        reveal_strlit("");
        assert(""@ =~= Seq::<char>::empty());
    }
    let format = match resolve_format(archive_path, backends) {
        Ok(format) => format,
        Err(e) => {
            return Err(Failure::new(e, archive_path, ""));
        },
    };
    let planned = match content {
        ArchiveContent::Records(records) => plan_or_absent(records, selection),
        ArchiveContent::Bytes(data) => match parse_bytes(format, archive_path, data) {
            Ok(records) => plan_or_absent(&records, selection),
            Err(e) => {
                return Err(Failure::new(e, archive_path, ""));
            },
        },
    };
    match planned {
        Ok(steps) => Ok(steps),
        Err(k) => {
            assert(selection_paths(selection@)[k as int] == selection@[k as int]@);
            Err(Failure::new(ArchiveError::EntryNotFound, archive_path, selection[k].as_str()))
        },
    }
}

/// The content that the step with record `index` and path `path` writes,
/// for an archive of `format` whose bytes are `data`.
pub open spec fn step_content_of(
    format: ArchiveFormat,
    data: Seq<u8>,
    index: int,
    path: Seq<char>,
) -> Result<Seq<u8>, ArchiveError> {
    if format == ArchiveFormat::Zip {
        zip_entry_content(data, index)
    } else if is_tar_family(format) {
        match decoded_of(format, data) {
            None => Err(ArchiveError::NotAValidArchive),
            Some(stream) => entry_or_invalid(tar_content_of(stream, index)),
        }
    } else {
        read_of(format, data, path)
    }
}

/// What `step_content` returns.
pub open spec fn step_content_result(
    r: Result<Vec<u8>, ArchiveError>,
    archive_path: Seq<char>,
    data: Seq<u8>,
    step: StepModel,
    backends: Backends,
) -> bool {
    match resolved_format(archive_path, backends) {
        Err(e) => fails_with(r, e),
        Ok(format) => gives(r, step_content_of(format, data, step.index, step.path)),
    }
}

/// The content that `step` of an extraction writes, for the archive at
/// `archive_path` whose bytes are `data`. A zip or tar record is fetched by
/// its number; elsewhere the content is that of a read of the step's path.
/// The archive is opened for this one content: `open_archive` serves many.
pub fn step_content(archive_path: &str, data: &Vec<u8>, step: &ExtractStep, backends: &Backends) -> (r:
    Result<Vec<u8>, ArchiveError>)
    ensures
        step_content_result(r, archive_path@, data@, step@, *backends),
{
    let format = match resolve_format(archive_path, backends) {
        Ok(format) => format,
        Err(e) => {
            return Err(e);
        },
    };
    if format == ArchiveFormat::Zip {
        let mut archive = match zip_open(copy_bytes(data)) {
            Ok(archive) => archive,
            Err(_) => {
                return Err(ArchiveError::NotAValidArchive);
            },
        };
        match zip_content(&mut archive, step.index) {
            Ok(bytes) => Ok(bytes),
            Err(_) => Err(ArchiveError::NotAValidArchive),
        }
    } else if format == ArchiveFormat::Tar {
        tar_content(data, step.index)
    } else if tar_family(format) {
        match decode_stream(format, data) {
            Ok(stream) => tar_content(&stream, step.index),
            Err(e) => Err(e),
        }
    } else {
        read_bytes(format, data, step.path.as_str())
    }
}

/// What an opened archive reads the contents of its entries from.
enum Source {
    Zip(zip::ZipArchive<std::io::Cursor<Vec<u8>>>),
    Tar(Vec<u8>),
    Single(Vec<u8>),
}

/// An archive that was opened once, so that the contents of many entries
/// can be fetched from it: the container is parsed, and a compressed stream
/// is decoded, when the archive is opened and not again.
pub struct Opened {
    format: ArchiveFormat,
    source: Source,
    data: Ghost<Seq<u8>>,
}

impl Opened {
    /// The format that the archive was opened as.
    pub closed spec fn format(&self) -> ArchiveFormat {
        self.format
    }

    /// The bytes that the archive was opened on.
    pub closed spec fn bytes(&self) -> Seq<u8> {
        self.data@
    }

    /// The archive holds what opening the bytes as the format gives.
    pub closed spec fn well_formed(&self) -> bool {
        match self.source {
            Source::Zip(archive) => self.format == ArchiveFormat::Zip && zip_bytes_of(archive)
                == self.data@ && zip_opens(self.data@),
            Source::Tar(stream) => is_tar_family(self.format) && decoded_of(
                self.format,
                self.data@,
            ) == Some(stream@),
            Source::Single(content) => is_single_file(self.format) && decoded_of(
                self.format,
                self.data@,
            ) == Some(content@),
        }
    }

    /// The content that `step` of an extraction writes.
    pub fn content(&mut self, step: &ExtractStep) -> (r: Result<Vec<u8>, ArchiveError>)
        requires
            old(self).well_formed(),
        ensures
            final(self).well_formed(),
            final(self).bytes() == old(self).bytes(),
            final(self).format() == old(self).format(),
            gives(
                r,
                step_content_of(old(self).format(), old(self).bytes(), step@.index, step@.path),
            ),
    {
        match &mut self.source {
            Source::Zip(archive) => match zip_content(archive, step.index) {
                Ok(bytes) => Ok(bytes),
                Err(_) => Err(ArchiveError::NotAValidArchive),
            },
            Source::Tar(stream) => tar_content(stream, step.index),
            Source::Single(content) => Ok(copy_bytes(content)),
        }
    }
}

/// `r` is the archive of `format` opened on `data`, or the failure that is
/// reported where the library does not read the contents of that format or
/// the bytes cannot be opened as that format.
pub open spec fn opens(r: Result<Opened, ArchiveError>, format: ArchiveFormat, data: Seq<u8>) -> bool {
    if !has_reader(format) {
        fails_with(r, ArchiveError::BackendProcessFailure)
    } else if (format == ArchiveFormat::Zip && !zip_opens(data)) || ((is_tar_family(
        format,
    ) || is_single_file(format)) && decoded_of(format, data) is None) {
        fails_with(r, ArchiveError::NotAValidArchive)
    } else {
        r is Ok && r->Ok_0.well_formed() && r->Ok_0.bytes() == data && r->Ok_0.format() == format
    }
}

/// Opens the archive at `archive_path`, whose bytes are `data`, for
/// fetching the contents of its entries.
pub fn open_archive(archive_path: &str, data: Vec<u8>, backends: &Backends) -> (r: Result<
    Opened,
    ArchiveError,
>)
    ensures
        match resolved_format(archive_path@, *backends) {
            Err(e) => fails_with(r, e),
            Ok(format) => opens(r, format, data@),
        },
{
    let format = match resolve_format(archive_path, backends) {
        Ok(format) => format,
        Err(e) => {
            return Err(e);
        },
    };
    let ghost bytes = data@;
    let source = if format == ArchiveFormat::Zip {
        match zip_open(data) {
            Ok(archive) => Source::Zip(archive),
            Err(_) => {
                return Err(ArchiveError::NotAValidArchive);
            },
        }
    } else if format == ArchiveFormat::Tar {
        Source::Tar(data)
    } else if tar_family(format) {
        match decode_stream(format, &data) {
            Ok(stream) => Source::Tar(stream),
            Err(e) => {
                return Err(e);
            },
        }
    } else if single_file(format) {
        match decode_stream(format, &data) {
            Ok(content) => Source::Single(content),
            Err(e) => {
                return Err(e);
            },
        }
    } else {
        return Err(ArchiveError::BackendProcessFailure);
    };
    Ok(Opened { format, source, data: Ghost(bytes) })
}

/// A walk over a tar stream that hands out the contents of entries in
/// rising order of their numbers, as the steps of an extraction ask for
/// them: the stream is passed over once for all of them.
pub struct TarRun<'a> {
    walk: TarWalk<'a>,
    position: usize,
    data: Ghost<Seq<u8>>,
}

impl<'a> TarRun<'a> {
    /// The bytes of the stream that is walked.
    pub closed spec fn stream(&self) -> Seq<u8> {
        self.data@
    }

    /// The number of the entry that the walk stands before.
    pub closed spec fn position(&self) -> int {
        self.position as int
    }

    /// The walk is where it is taken to be.
    pub closed spec fn well_formed(&self) -> bool {
        tar_stream_of(self.walk) == self.data@ && tar_position_of(self.walk) == self.position
    }

    /// A walk that stands before the first entry of `stream`, on which no
    /// walk was started before. It always comes about.
    pub fn start(stream: &'a mut TarStream) -> (r: Result<TarRun<'a>, ArchiveError>)
        requires
            tar_unwalked_of(*old(stream)) is Some,
        ensures
            r is Ok,
            r->Ok_0.well_formed(),
            r->Ok_0.stream() == tar_unwalked_of(*old(stream)).unwrap(),
            r->Ok_0.position() == 0,
    {
        let ghost data = tar_unwalked_of(*stream).unwrap();
        match tar_entries(stream) {
            Ok(walk) => Ok(TarRun { walk, position: 0, data: Ghost(data) }),
            Err(_) => Err(ArchiveError::NotAValidArchive),
        }
    }

    /// The content of entry number `index`, which the walk has not passed
    /// yet; the walk then stands behind that entry. An entry that the walk
    /// has passed is not found again.
    pub fn content(&mut self, index: usize) -> (r: Result<Vec<u8>, ArchiveError>)
        requires
            old(self).well_formed(),
        ensures
            final(self).well_formed(),
            final(self).stream() == old(self).stream(),
            index < old(self).position() ==> fails_with(r, ArchiveError::EntryNotFound)
                && final(self).position() == old(self).position(),
            index >= old(self).position() && index == usize::MAX ==> fails_with(
                r,
                ArchiveError::NotAValidArchive,
            ),
            index >= old(self).position() && index < usize::MAX ==> gives(
                r,
                entry_or_invalid(tar_content_of(old(self).stream(), index as int)),
            ) && final(self).position() == index + 1,
    {
        if index < self.position {
            return Err(ArchiveError::EntryNotFound);
        }
        if index == usize::MAX {
            return Err(ArchiveError::NotAValidArchive);
        }
        while self.position < index
            invariant
                self.well_formed(),
                self.stream() == old(self).stream(),
                self.position <= index < usize::MAX,
            decreases index - self.position,
        {
            let _ = tar_next(&mut self.walk);
            self.position = self.position + 1;
        }
        let found = tar_next_content(&mut self.walk);
        self.position = self.position + 1;
        match found {
            Ok(Some(bytes)) => Ok(bytes),
            _ => Err(ArchiveError::NotAValidArchive),
        }
    }
}

/// The tar stream of the archive at `archive_path`, whose bytes are `data`,
/// with the codec of its format taken off, ready for one walk.
pub fn open_tar_stream(archive_path: &str, data: Vec<u8>, backends: &Backends) -> (r: Result<
    TarStream,
    ArchiveError,
>)
    ensures
        match resolved_format(archive_path@, *backends) {
            Err(e) => fails_with(r, e),
            Ok(format) => if !is_tar_family(format) || decoded_of(format, data@) is None {
                fails_with(r, ArchiveError::NotAValidArchive)
            } else {
                r is Ok && tar_unwalked_of(r->Ok_0) == decoded_of(format, data@)
            },
        },
{
    let format = match resolve_format(archive_path, backends) {
        Ok(format) => format,
        Err(e) => {
            return Err(e);
        },
    };
    if format == ArchiveFormat::Tar {
        Ok(tar_open(data))
    } else if tar_family(format) {
        match decode_stream(format, &data) {
            Ok(stream) => Ok(tar_open(stream)),
            Err(e) => Err(e),
        }
    } else {
        Err(ArchiveError::NotAValidArchive)
    }
}

/// Two listings of the same archive under the same parent are the same:
/// both fail in the same way and name the same, or both hold the same
/// entries in the same order under the same header.
pub proof fn law_list_archive_is_repeatable(
    first: Result<ArchiveListing, Failure>,
    second: Result<ArchiveListing, Failure>,
    archive_path: Seq<char>,
    content: ContentModel,
    inner_path: Seq<char>,
    backends: Backends,
)
    requires
        list_archive_result(kind_of(first), archive_path, content, inner_path, backends),
        list_archive_result(kind_of(second), archive_path, content, inner_path, backends),
        first is Err ==> first->Err_0@.archive_path == archive_path && first->Err_0@.entry
            == inner_path,
        second is Err ==> second->Err_0@.archive_path == archive_path && second->Err_0@.entry
            == inner_path,
    ensures
        first is Ok <==> second is Ok,
        first is Err ==> first->Err_0@ == second->Err_0@,
        first is Ok ==> {
            &&& first->Ok_0.archive_path@ == second->Ok_0.archive_path@
            &&& first->Ok_0.inner_path@ == second->Ok_0.inner_path@
            &&& first->Ok_0.format@ == second->Ok_0.format@
            &&& entry_models(first->Ok_0.entries@) == entry_models(second->Ok_0.entries@)
            &&& first->Ok_0.total_size == second->Ok_0.total_size
        },
{
}

/// What an extraction writes for a step is what a read of the step's path
/// returns, for every archive whose contents the library reads, unless an
/// earlier record of the archive has the step's path: there the read
/// returns the earlier record's content, and the extraction writes one
/// after the other.
pub proof fn law_extracted_is_what_read_returns(
    format: ArchiveFormat,
    archive_path: Seq<char>,
    data: Seq<u8>,
    selection: Seq<Seq<char>>,
    i: int,
)
    requires
        has_reader(format),
        parsed(format, archive_path, data) is Some,
        all_present(parsed(format, archive_path, data).unwrap(), selection),
        0 <= i < plan_of(parsed(format, archive_path, data).unwrap(), selection).len(),
        forall|j: int|
            0 <= j < plan_of(parsed(format, archive_path, data).unwrap(), selection)[i].index
                ==> normalized(parsed(format, archive_path, data).unwrap()[j].path) != plan_of(
                parsed(format, archive_path, data).unwrap(),
                selection,
            )[i].path,
    ensures
        extract_of(format, archive_path, ContentModel::Bytes(data), selection) == Ok::<
            Seq<StepModel>,
            ArchiveError,
        >(plan_of(parsed(format, archive_path, data).unwrap(), selection)),
        step_content_of(
            format,
            data,
            plan_of(parsed(format, archive_path, data).unwrap(), selection)[i].index,
            plan_of(parsed(format, archive_path, data).unwrap(), selection)[i].path,
        ) == read_of(
            format,
            data,
            plan_of(parsed(format, archive_path, data).unwrap(), selection)[i].path,
        ),
{
    let raw = parsed(format, archive_path, data).unwrap();
    let step = plan_of(raw, selection)[i];
    law_step_is_found_by_read(raw, selection, i);
    law_plan_steps_are_selected(raw, selection);
    if format == ArchiveFormat::Zip {
        lemma_zip_sought_is_first(data, normalized(step.path), 0);
        assert(zip_records_of(data).skip(0) =~= raw);
    } else if is_tar_family(format) {
        let stream = decoded_of(format, data).unwrap();
        lemma_sought_is_first(
            Container::Tar,
            stream,
            format.label(),
            normalized(step.path),
            0,
            scan_limit(Container::Tar, stream),
        );
    }
}

} // verus!
