//! The calls into the crates that read the container formats. Nothing in
//! this file is proved: each contract states what the crate is taken to do.
//!
//! Every call works on the archive's bytes in memory, so its result depends
//! on the bytes and the other arguments alone. A zip archive and a cabinet
//! are opened once and then asked entry by entry. Of a cabinet only the
//! directory is read here. A tar stream is walked for its records, and
//! once more, up to the entry asked for, for a content; what lies between
//! is skipped by seeking.

use vstd::prelude::*;

verus! {

/// `std::io::Error`, carried through as it comes; nothing is read off it.
#[verifier::external_type_specification]
#[verifier::external_body]
pub struct ExIoError(std::io::Error);

/// `zip::result::ZipError`, carried through as it comes; nothing is read
/// off it.
#[verifier::external_type_specification]
#[verifier::external_body]
pub struct ExZipError(zip::result::ZipError);

/// `std::io::Cursor`, the reader that the opened containers hold.
#[verifier::external_type_specification]
#[verifier::external_body]
#[verifier::reject_recursive_types(T)]
pub struct ExCursor<T>(std::io::Cursor<T>);

/// `zip::ZipArchive`, an opened zip archive. What it holds is spoken of
/// through `zip_bytes_of`.
#[verifier::external_type_specification]
#[verifier::external_body]
#[verifier::reject_recursive_types(R)]
pub struct ExZipArchive<R>(zip::ZipArchive<R>);

/// A zip entry's time of last modification, as the container stores it.
#[derive(Debug, Clone, Copy)]
pub struct ZipStamp {
    pub year: u16,
    pub month: u8,
    pub day: u8,
    pub hour: u8,
    pub minute: u8,
    pub second: u8,
}

/// What the zip crate reports of one entry.
#[derive(Debug, Clone)]
pub struct ZipRecord {
    pub name: String,
    pub is_dir: bool,
    pub size: u64,
    pub compressed_size: u64,
    pub compression: String,
    pub stamp: Option<ZipStamp>,
}

/// A `ZipRecord` as a mathematical value.
pub struct ZipRecordModel {
    pub name: Seq<char>,
    pub is_dir: bool,
    pub size: u64,
    pub compressed_size: u64,
    pub compression: Seq<char>,
    pub stamp: Option<ZipStamp>,
}

impl View for ZipRecord {
    type V = ZipRecordModel;

    open spec fn view(&self) -> ZipRecordModel {
        ZipRecordModel {
            name: self.name@,
            is_dir: self.is_dir,
            size: self.size,
            compressed_size: self.compressed_size,
            compression: self.compression@,
            stamp: self.stamp,
        }
    }
}

/// What the tar crate reports of one entry. A size or a time that the
/// header does not hold in readable form is `None`.
#[derive(Debug, Clone)]
pub struct TarRecord {
    pub path: String,
    pub is_dir: bool,
    pub size: Option<u64>,
    pub modified: Option<u64>,
}

/// A `TarRecord` as a mathematical value.
pub struct TarRecordModel {
    pub path: Seq<char>,
    pub is_dir: bool,
    pub size: Option<u64>,
    pub modified: Option<u64>,
}

impl View for TarRecord {
    type V = TarRecordModel;

    open spec fn view(&self) -> TarRecordModel {
        TarRecordModel {
            path: self.path@,
            is_dir: self.is_dir,
            size: self.size,
            modified: self.modified,
        }
    }
}

/// Whether the zip crate opens the bytes `data` as a zip archive.
pub uninterp spec fn zip_opens(data: Seq<u8>) -> bool;

/// How many entries the zip crate finds in the central directory of the
/// zip archive `data`.
pub uninterp spec fn zip_count_of(data: Seq<u8>) -> nat;

/// What the zip crate reports of entry `index` of the zip archive `data`;
/// `None` where it cannot open the entry.
pub uninterp spec fn zip_record_of(data: Seq<u8>, index: int) -> Option<ZipRecordModel>;

/// The decompressed content of entry `index` of the zip archive `data`;
/// `None` where the zip crate cannot open or decompress the entry.
pub uninterp spec fn zip_content_of(data: Seq<u8>, index: int) -> Option<Seq<u8>>;

/// Seconds since the Unix epoch of a civil date and time in UTC, as chrono
/// computes them; `None` where the fields name no date or time.
pub uninterp spec fn utc_seconds_of(
    year: int,
    month: int,
    day: int,
    hour: int,
    minute: int,
    second: int,
) -> Option<i64>;

/// What the tar crate yields as entry number `index` of the stream `data`:
/// `None` where it fails, `Some(None)` behind the last entry, else the
/// entry.
pub uninterp spec fn tar_record_of(data: Seq<u8>, index: int) -> Option<Option<TarRecordModel>>;

/// The content of entry number `index` of the tar stream `data`: `None`
/// where the tar crate fails, `Some(None)` behind the last entry.
pub uninterp spec fn tar_content_of(data: Seq<u8>, index: int) -> Option<Option<Seq<u8>>>;

/// The bytes that flate2 decodes the gzip stream `data` to; `None` where it
/// fails.
pub uninterp spec fn gunzip_of(data: Seq<u8>) -> Option<Seq<u8>>;

/// The bytes that the bzip2 crate decodes the stream `data` to; `None`
/// where it fails.
pub uninterp spec fn bunzip2_of(data: Seq<u8>) -> Option<Seq<u8>>;

/// The bytes that xz2 decodes the stream `data` to; `None` where it fails.
pub uninterp spec fn unxz_of(data: Seq<u8>) -> Option<Seq<u8>>;

/// The bytes that the zstd crate decodes the stream `data` to; `None` where
/// it fails.
pub uninterp spec fn unzstd_of(data: Seq<u8>) -> Option<Seq<u8>>;

/// The bytes that an opened zip archive reads from.
pub uninterp spec fn zip_bytes_of(archive: zip::ZipArchive<std::io::Cursor<Vec<u8>>>) -> Seq<u8>;

/// `zip::ZipArchive::new` on a cursor over the bytes: the opened archive,
/// which reads from these bytes, or the crate's error where they are no
/// zip archive.
#[verifier::external_body]
pub(crate) fn zip_open(data: Vec<u8>) -> (r: Result<
    zip::ZipArchive<std::io::Cursor<Vec<u8>>>,
    zip::result::ZipError,
>)
    ensures
        r is Ok <==> zip_opens(data@),
        r is Ok ==> zip_bytes_of(r.unwrap()) == data@,
{
    zip::ZipArchive::new(std::io::Cursor::new(data))
}

/// `zip::ZipArchive::len`: the number of entries of the central directory.
#[verifier::external_body]
pub(crate) fn zip_count(archive: &zip::ZipArchive<std::io::Cursor<Vec<u8>>>) -> (n: usize)
    ensures
        n == zip_count_of(zip_bytes_of(*archive)),
{
    archive.len()
}

/// `zip::ZipArchive::by_index`: the entry's name, kind, sizes, compression
/// method and stored time, copied field by field, or the crate's error.
/// The archive goes on reading from the same bytes.
#[verifier::external_body]
pub(crate) fn zip_record(archive: &mut zip::ZipArchive<std::io::Cursor<Vec<u8>>>, index: usize) -> (r:
    Result<ZipRecord, zip::result::ZipError>)
    ensures
        zip_bytes_of(*final(archive)) == zip_bytes_of(*old(archive)),
        r is Ok <==> zip_record_of(zip_bytes_of(*old(archive)), index as int) is Some,
        r is Ok ==> r.unwrap()@ == zip_record_of(zip_bytes_of(*old(archive)), index as int).unwrap(),
{
    let entry = archive.by_index(index)?;
    Ok(ZipRecord {
        name: entry.name()?.into_owned(),
        is_dir: entry.is_dir(),
        size: entry.size(),
        compressed_size: entry.compressed_size(),
        compression: format!("{:?}", entry.compression()),
        stamp: entry.last_modified().map(|t| ZipStamp {
            year: t.year(), month: t.month(), day: t.day(),
            hour: t.hour(), minute: t.minute(), second: t.second(),
        }),
    })
}

/// `std::io::Read::read_to_end` on the entry that `zip::ZipArchive::by_index`
/// opens: the entry's decompressed bytes, or the crate's error. The archive
/// goes on reading from the same bytes.
#[verifier::external_body]
pub(crate) fn zip_content(archive: &mut zip::ZipArchive<std::io::Cursor<Vec<u8>>>, index: usize) -> (r:
    Result<Vec<u8>, zip::result::ZipError>)
    ensures
        zip_bytes_of(*final(archive)) == zip_bytes_of(*old(archive)),
        r is Ok <==> zip_content_of(zip_bytes_of(*old(archive)), index as int) is Some,
        r is Ok ==> r.unwrap()@ == zip_content_of(zip_bytes_of(*old(archive)), index as int).unwrap(),
{
    let mut entry = archive.by_index(index)?;
    let mut out = Vec::new();
    std::io::Read::read_to_end(&mut entry, &mut out)?;
    Ok(out)
}

/// `chrono::TimeZone::with_ymd_and_hms` on `Utc`, then the timestamp of
/// the single result: `None` where chrono accepts no such date or time.
#[verifier::external_body]
pub(crate) fn utc_seconds(year: i32, month: u32, day: u32, hour: u32, minute: u32, second: u32) -> (r:
    Option<i64>)
    ensures
        r == utc_seconds_of(
            year as int,
            month as int,
            day as int,
            hour as int,
            minute as int,
            second as int,
        ),
{
    chrono::TimeZone::with_ymd_and_hms(&chrono::Utc, year, month, day, hour, minute, second)
        .single()
        .map(|at| at.timestamp())
}

/// A tar stream that is about to be walked: a `tar::Archive` over a cursor.
/// The crate's type is bound by `std::io::Read` and cannot be declared as
/// it is, so it is held here and spoken of through `tar_unwalked_of`.
#[verifier::external_body]
pub struct TarStream {
    archive: tar::Archive<std::io::Cursor<Vec<u8>>>,
}

/// A walk over the entries of a tar stream: a `tar::Entries`, held here for
/// the same reason. The stream it walks and the number of the entry it
/// stands before are spoken of through `tar_stream_of` and
/// `tar_position_of`.
#[verifier::external_body]
pub struct TarWalk<'a> {
    entries: tar::Entries<'a, std::io::Cursor<Vec<u8>>>,
}

/// The bytes of a tar stream that no walk has been started on yet; `None`
/// once a walk was started.
pub uninterp spec fn tar_unwalked_of(stream: TarStream) -> Option<Seq<u8>>;

/// The bytes of the stream that a walk goes over.
pub uninterp spec fn tar_stream_of(walk: TarWalk<'_>) -> Seq<u8>;

/// The number of the entry that a walk stands before.
pub uninterp spec fn tar_position_of(walk: TarWalk<'_>) -> int;

/// `tar::Archive::new` on a cursor over the bytes.
#[verifier::external_body]
pub(crate) fn tar_open(data: Vec<u8>) -> (stream: TarStream)
    ensures
        tar_unwalked_of(stream) == Some(data@),
{
    TarStream { archive: tar::Archive::new(std::io::Cursor::new(data)) }
}

/// `tar::Archive::entries_with_seek` on a stream that no walk was started
/// on: a walk that stands before the first entry. The crate fails here only
/// on a stream that was walked before, which `requires` leaves out.
#[verifier::external_body]
pub(crate) fn tar_entries<'a>(stream: &'a mut TarStream) -> (r: Result<TarWalk<'a>, std::io::Error>)
    requires
        tar_unwalked_of(*old(stream)) is Some,
    ensures
        r is Ok,
        tar_stream_of(r.unwrap()) == tar_unwalked_of(*old(stream)).unwrap(),
        tar_position_of(r.unwrap()) == 0,
{
    stream.archive.entries_with_seek().map(|entries| TarWalk { entries })
}

/// `Iterator::next` on a walk: the path, kind, size and time of the entry
/// that the walk stood before, copied field by field; `Ok(None)` behind the
/// last entry; the crate's error where it fails. The walk then stands
/// before the next entry of the same stream.
#[verifier::external_body]
pub(crate) fn tar_next(walk: &mut TarWalk<'_>) -> (r: Result<Option<TarRecord>, std::io::Error>)
    ensures
        tar_stream_of(*final(walk)) == tar_stream_of(*old(walk)),
        tar_position_of(*final(walk)) == tar_position_of(*old(walk)) + 1,
        r is Ok <==> tar_record_of(tar_stream_of(*old(walk)), tar_position_of(*old(walk)))
            is Some,
        r is Ok ==> (r.unwrap() is Some <==> tar_record_of(
            tar_stream_of(*old(walk)),
            tar_position_of(*old(walk)),
        ).unwrap() is Some),
        r is Ok && r.unwrap() is Some ==> r.unwrap().unwrap()@ == tar_record_of(
            tar_stream_of(*old(walk)),
            tar_position_of(*old(walk)),
        ).unwrap().unwrap(),
{
    let Some(entry) = walk.entries.next() else { return Ok(None) };
    let entry = entry?;
    Ok(Some(TarRecord {
        path: entry.path()?.to_string_lossy().into_owned(),
        is_dir: entry.header().entry_type().is_dir(),
        size: entry.header().size().ok(),
        modified: entry.header().mtime().ok(),
    }))
}

/// `Iterator::next` on a walk, and `std::io::Read::read_to_end` on the entry
/// that it yields: the content of the entry that the walk stood before;
/// `Ok(None)` behind the last entry; the crate's error where it fails. The
/// walk then stands before the next entry of the same stream.
#[verifier::external_body]
pub(crate) fn tar_next_content(walk: &mut TarWalk<'_>) -> (r: Result<Option<Vec<u8>>, std::io::Error>)
    ensures
        tar_stream_of(*final(walk)) == tar_stream_of(*old(walk)),
        tar_position_of(*final(walk)) == tar_position_of(*old(walk)) + 1,
        r is Ok <==> tar_content_of(tar_stream_of(*old(walk)), tar_position_of(*old(walk)))
            is Some,
        r is Ok ==> (r.unwrap() is Some <==> tar_content_of(
            tar_stream_of(*old(walk)),
            tar_position_of(*old(walk)),
        ).unwrap() is Some),
        r is Ok && r.unwrap() is Some ==> r.unwrap().unwrap()@ == tar_content_of(
            tar_stream_of(*old(walk)),
            tar_position_of(*old(walk)),
        ).unwrap().unwrap(),
{
    let Some(entry) = walk.entries.next() else { return Ok(None) };
    let mut out = Vec::new();
    std::io::Read::read_to_end(&mut entry?, &mut out)?;
    Ok(Some(out))
}

/// `flate2::read::GzDecoder` over the bytes, read to its end.
#[verifier::external_body]
pub(crate) fn gunzip(data: &Vec<u8>) -> (r: Result<Vec<u8>, std::io::Error>)
    ensures
        r is Ok <==> gunzip_of(data@) is Some,
        r is Ok ==> r.unwrap()@ == gunzip_of(data@).unwrap(),
{
    let mut out = Vec::new();
    std::io::Read::read_to_end(&mut flate2::read::GzDecoder::new(data.as_slice()), &mut out)?;
    Ok(out)
}

/// `bzip2::read::BzDecoder` over the bytes, read to its end.
#[verifier::external_body]
pub(crate) fn bunzip2(data: &Vec<u8>) -> (r: Result<Vec<u8>, std::io::Error>)
    ensures
        r is Ok <==> bunzip2_of(data@) is Some,
        r is Ok ==> r.unwrap()@ == bunzip2_of(data@).unwrap(),
{
    let mut out = Vec::new();
    std::io::Read::read_to_end(&mut bzip2::read::BzDecoder::new(data.as_slice()), &mut out)?;
    Ok(out)
}

/// `xz2::read::XzDecoder` over the bytes, read to its end.
#[verifier::external_body]
pub(crate) fn unxz(data: &Vec<u8>) -> (r: Result<Vec<u8>, std::io::Error>)
    ensures
        r is Ok <==> unxz_of(data@) is Some,
        r is Ok ==> r.unwrap()@ == unxz_of(data@).unwrap(),
{
    let mut out = Vec::new();
    std::io::Read::read_to_end(&mut xz2::read::XzDecoder::new(data.as_slice()), &mut out)?;
    Ok(out)
}

/// `zstd::Decoder` over the bytes, read to its end.
#[verifier::external_body]
pub(crate) fn unzstd(data: &Vec<u8>) -> (r: Result<Vec<u8>, std::io::Error>)
    ensures
        r is Ok <==> unzstd_of(data@) is Some,
        r is Ok ==> r.unwrap()@ == unzstd_of(data@).unwrap(),
{
    let mut out = Vec::new();
    std::io::Read::read_to_end(&mut zstd::Decoder::new(data.as_slice())?, &mut out)?;
    Ok(out)
}

/// `cab::Cabinet`, an opened cabinet. What it holds is spoken of through
/// `cab_bytes_of`.
#[verifier::external_type_specification]
#[verifier::external_body]
#[verifier::reject_recursive_types(R)]
pub struct ExCabinet<R: ?Sized>(cab::Cabinet<R>);

/// What the cab crate reports of one file: its name, its size when
/// decompressed, and the compression scheme of its folder.
#[derive(Debug, Clone)]
pub struct CabRecord {
    pub name: String,
    pub size: u32,
    pub compression: String,
}

/// A `CabRecord` as a mathematical value.
pub struct CabRecordModel {
    pub name: Seq<char>,
    pub size: u32,
    pub compression: Seq<char>,
}

impl View for CabRecord {
    type V = CabRecordModel;

    open spec fn view(&self) -> CabRecordModel {
        CabRecordModel { name: self.name@, size: self.size, compression: self.compression@ }
    }
}

/// Whether the cab crate opens the bytes `data` as a cabinet.
pub uninterp spec fn cab_opens(data: Seq<u8>) -> bool;

/// File number `index` of the cabinet `data`, counted folder by folder;
/// `None` behind the last file.
pub uninterp spec fn cab_record_of(data: Seq<u8>, index: int) -> Option<CabRecordModel>;

/// The bytes that an opened cabinet reads from.
pub uninterp spec fn cab_bytes_of(cabinet: cab::Cabinet<std::io::Cursor<Vec<u8>>>) -> Seq<u8>;

/// `cab::Cabinet::new` on a cursor over the bytes: the opened cabinet,
/// which reads from these bytes, or the crate's error where they are no
/// cabinet.
#[verifier::external_body]
pub(crate) fn cab_open(data: Vec<u8>) -> (r: Result<
    cab::Cabinet<std::io::Cursor<Vec<u8>>>,
    std::io::Error,
>)
    ensures
        r is Ok <==> cab_opens(data@),
        r is Ok ==> cab_bytes_of(r.unwrap()) == data@,
{
    cab::Cabinet::new(std::io::Cursor::new(data))
}

/// The files of `cab::Cabinet::folder_entries` and of each folder's
/// `file_entries`, in order, advanced to number `index`: the file's name
/// and size and its folder's compression scheme; `None` behind the last.
#[verifier::external_body]
pub(crate) fn cab_record(cabinet: &cab::Cabinet<std::io::Cursor<Vec<u8>>>, index: usize) -> (r:
    Option<CabRecord>)
    ensures
        cab_record_of(cab_bytes_of(*cabinet), index as int) == (match r {
            Some(rec) => Some(rec@),
            None => None,
        }),
{
    let found = cabinet
        .folder_entries()
        .flat_map(|folder| folder.file_entries().map(move |file| (folder, file)))
        .nth(index);
    found.map(|(folder, file)| CabRecord {
        name: file.name().to_owned(),
        size: file.uncompressed_size(),
        compression: format!("{:?}", folder.compression_type()),
    })
}

} // verus!
