//! The backends: what each container format gives, as records and as
//! contents, and the listing, the read and the extraction of each format.

use vstd::prelude::*;
use crate::error::ArchiveError;
use crate::format::ArchiveFormat;
use crate::listing::{build_listing, is_listing_of, listing_entries};
use crate::model::{raw_models, total_size_of, ArchiveListing, RawEntry, RawModel};
use crate::outside::{
    bunzip2, bunzip2_of, cab_bytes_of, cab_open, cab_opens, cab_record, cab_record_of, gunzip,
    gunzip_of, tar_content_of, tar_entries, tar_next, tar_next_content, tar_open, tar_position_of,
    tar_record_of, tar_stream_of, unxz, unxz_of, unzstd, unzstd_of, utc_seconds, utc_seconds_of,
    zip_bytes_of, zip_content, zip_content_of, zip_count, zip_count_of, zip_open, zip_opens,
    zip_record, zip_record_of, CabRecord, CabRecordModel, TarRecord, TarRecordModel, TarWalk,
    ZipRecord, ZipRecordModel, ZipStamp,
};
use crate::paths::{normalise_chars, normalized, same_chars, stem_of};
use crate::records::{
    find_entry, first_match, matches_target, plan_selected, planned, selection_paths,
    step_models, ExtractStep, StepModel,
};

verus! {

/// The containers whose entries are reached one after the other.
#[derive(Debug, Clone, Copy, PartialEq, Eq, Structural)]
pub enum Container {
    Tar,
    Cab,
}

/// `r` is the failure `e`.
pub open spec fn fails_with<T>(r: Result<T, ArchiveError>, e: ArchiveError) -> bool {
    r is Err && r->Err_0 == e
}

/// The stream inside the codec of `format`: the bytes themselves where the
/// format has no codec, `None` where the codec fails.
pub open spec fn decoded_of(format: ArchiveFormat, data: Seq<u8>) -> Option<Seq<u8>> {
    match format {
        ArchiveFormat::TarGz | ArchiveFormat::Gz => gunzip_of(data),
        ArchiveFormat::TarBz2 | ArchiveFormat::Bz2 => bunzip2_of(data),
        ArchiveFormat::TarXz | ArchiveFormat::Xz => unxz_of(data),
        ArchiveFormat::TarZst | ArchiveFormat::Zst => unzstd_of(data),
        _ => Some(data),
    }
}

/// The time of a zip entry in seconds since the Unix epoch; 0 where the
/// entry has none or its fields name no time.
pub open spec fn zip_modified(stamp: Option<ZipStamp>) -> i64 {
    match stamp {
        None => 0,
        Some(s) => match utc_seconds_of(
            s.year as int,
            s.month as int,
            s.day as int,
            s.hour as int,
            s.minute as int,
            s.second as int,
        ) {
            Some(t) => t,
            None => 0,
        },
    }
}

/// A zip entry as a record.
pub open spec fn zip_raw(rec: ZipRecordModel) -> RawModel {
    RawModel {
        path: rec.name,
        is_dir: rec.is_dir,
        size: rec.size,
        compressed_size: rec.compressed_size,
        modified: zip_modified(rec.stamp),
        compression: rec.compression,
    }
}

/// A tar entry as a record. The stream's own root marker `.` counts as a
/// record without a name; a size or time that cannot be read, or a time
/// beyond `i64`, counts as 0.
pub open spec fn tar_raw(rec: TarRecordModel, label: Seq<char>) -> RawModel {
    RawModel {
        path: if normalized(rec.path) == seq!['.'] {
            Seq::<char>::empty()
        } else {
            rec.path
        },
        is_dir: rec.is_dir,
        size: match rec.size {
            Some(n) => n,
            None => 0,
        },
        compressed_size: 0,
        modified: match rec.modified {
            Some(t) => if t <= i64::MAX as u64 {
                t as i64
            } else {
                0
            },
            None => 0,
        },
        compression: label,
    }
}

/// A file of a cabinet as a record.
pub open spec fn cab_raw(rec: CabRecordModel) -> RawModel {
    RawModel {
        path: rec.name,
        is_dir: false,
        size: rec.size as u64,
        compressed_size: 0,
        modified: 0,
        compression: rec.compression,
    }
}

/// The one record of a compressed stream of `len` bytes at `archive_path`:
/// a file named by the stem of the path, with the size of the compressed
/// stream, since the size of the content is not known without decoding.
pub open spec fn single_record(archive_path: Seq<char>, len: nat, format: ArchiveFormat) -> RawModel {
    RawModel {
        path: stem_of(archive_path),
        is_dir: false,
        size: len as u64,
        compressed_size: len as u64,
        modified: 0,
        compression: format.label(),
    }
}

/// Entry number `i` of the stream `data` in the container `kind`: `None`
/// where the container cannot be read, `Some(None)` behind the last entry.
pub open spec fn entry_at(kind: Container, data: Seq<u8>, label: Seq<char>, i: int) -> Option<
    Option<RawModel>,
> {
    match kind {
        Container::Tar => match tar_record_of(data, i) {
            None => None,
            Some(None) => Some(None),
            Some(Some(rec)) => Some(Some(tar_raw(rec, label))),
        },
        Container::Cab => if !cab_opens(data) {
            None
        } else {
            match cab_record_of(data, i) {
                None => Some(None),
                Some(rec) => Some(Some(cab_raw(rec))),
            }
        },
    }
}

/// The records of the container from entry `i` on; `None` where an entry
/// cannot be read or the entries do not end before `limit`.
pub open spec fn scanned(
    kind: Container,
    data: Seq<u8>,
    label: Seq<char>,
    i: int,
    limit: int,
) -> Option<Seq<RawModel>>
    decreases limit - i,
{
    if i >= limit {
        None
    } else {
        match entry_at(kind, data, label, i) {
            None => None,
            Some(None) => Some(Seq::<RawModel>::empty()),
            Some(Some(r)) => match scanned(kind, data, label, i + 1, limit) {
                None => None,
                Some(rest) => Some(seq![r] + rest),
            },
        }
    }
}

/// A number that the entries of the container end before. A tar stream and
/// a cabinet spend many bytes on each entry, so they hold no more entries
/// than bytes, and the end is met at the latest at the number of bytes.
pub open spec fn scan_limit(kind: Container, data: Seq<u8>) -> int {
    data.len() as int + 1
}

/// The number of the first entry at the canonical path `target`, looking
/// from entry `i` on and no further than the first match: `EntryNotFound`
/// where the entries end before one matches, `NotAValidArchive` where an
/// entry before the match cannot be read.
pub open spec fn sought(kind: Container, data: Seq<u8>, target: Seq<char>, i: int, limit: int) -> Result<
    int,
    ArchiveError,
>
    decreases limit - i,
{
    if i >= limit {
        Err(ArchiveError::NotAValidArchive)
    } else {
        match entry_at(kind, data, Seq::<char>::empty(), i) {
            None => Err(ArchiveError::NotAValidArchive),
            Some(None) => Err(ArchiveError::EntryNotFound),
            Some(Some(r)) => if matches_target(r, target) {
                Ok(i)
            } else {
                sought(kind, data, target, i + 1, limit)
            },
        }
    }
}

/// The number of the first entry of the container at `inner_path`.
pub open spec fn container_located(kind: Container, data: Seq<u8>, inner_path: Seq<char>) -> Result<
    int,
    ArchiveError,
> {
    sought(kind, data, normalized(inner_path), 0, scan_limit(kind, data))
}

/// The number of the first entry of the zip archive `data` at the canonical
/// path `target`, looking from entry `i` on and no further than the first
/// match.
pub open spec fn zip_sought(data: Seq<u8>, target: Seq<char>, i: int) -> Result<int, ArchiveError>
    decreases zip_count_of(data) - i,
{
    if i >= zip_count_of(data) {
        Err(ArchiveError::EntryNotFound)
    } else {
        match zip_record_of(data, i) {
            None => Err(ArchiveError::NotAValidArchive),
            Some(rec) => if matches_target(zip_raw(rec), target) {
                Ok(i)
            } else {
                zip_sought(data, target, i + 1)
            },
        }
    }
}

/// All records of the container `kind` in `data`.
pub open spec fn container_records(kind: Container, data: Seq<u8>, label: Seq<char>) -> Option<
    Seq<RawModel>,
> {
    scanned(kind, data, label, 0, scan_limit(kind, data))
}

/// Every entry of the zip archive `data` can be opened.
pub open spec fn zip_readable(data: Seq<u8>) -> bool {
    &&& zip_opens(data)
    &&& forall|i: int| 0 <= i < zip_count_of(data) ==> zip_record_of(data, i) is Some
}

/// The records of the zip archive `data`, in the order of its directory.
pub open spec fn zip_records_of(data: Seq<u8>) -> Seq<RawModel> {
    Seq::new(
        zip_count_of(data),
        |i: int| zip_raw(zip_record_of(data, i).unwrap()),
    )
}

/// `r` is the listing of `inner_path` over `raw`, or the failure that is
/// reported where the listed sizes do not add up to a `u64`.
pub open spec fn lists(
    r: Result<ArchiveListing, ArchiveError>,
    archive_path: Seq<char>,
    inner_path: Seq<char>,
    format: Seq<char>,
    synth_label: Seq<char>,
    raw: Seq<RawModel>,
) -> bool {
    if total_size_of(listing_entries(raw, normalized(inner_path), synth_label)) <= u64::MAX {
        r is Ok && is_listing_of(r->Ok_0, archive_path, inner_path, format, synth_label, raw)
    } else {
        fails_with(r, ArchiveError::NotAValidArchive)
    }
}

/// The index of the first record of `raw` at `inner_path`, or the failure
/// that is reported where there is none.
pub open spec fn located(raw: Seq<RawModel>, inner_path: Seq<char>) -> Result<int, ArchiveError> {
    let i = first_match(raw, normalized(inner_path));
    if i < raw.len() {
        Ok(i)
    } else {
        Err(ArchiveError::EntryNotFound)
    }
}

/// `r` is the index `expected`, or the failure `expected`.
pub open spec fn finds(r: Result<usize, ArchiveError>, expected: Result<int, ArchiveError>) -> bool {
    match expected {
        Ok(i) => r is Ok && r->Ok_0 == i,
        Err(e) => fails_with(r, e),
    }
}

/// `r` holds the bytes `expected`, or is the failure `expected`.
pub open spec fn gives(r: Result<Vec<u8>, ArchiveError>, expected: Result<Seq<u8>, ArchiveError>) -> bool {
    match expected {
        Ok(bytes) => r is Ok && r->Ok_0@ == bytes,
        Err(e) => fails_with(r, e),
    }
}

/// `r` holds the steps `expected`, or is the failure `expected`.
pub open spec fn plans(
    r: Result<Vec<ExtractStep>, ArchiveError>,
    expected: Result<Seq<StepModel>, ArchiveError>,
) -> bool {
    match expected {
        Ok(steps) => r is Ok && step_models(r->Ok_0@) == steps,
        Err(e) => fails_with(r, e),
    }
}

/// Content that a crate decoded, or the failure that is reported where it
/// did not.
pub open spec fn content_or_invalid(content: Option<Seq<u8>>) -> Result<Seq<u8>, ArchiveError> {
    match content {
        Some(bytes) => Ok(bytes),
        None => Err(ArchiveError::NotAValidArchive),
    }
}

/// The content of an entry of a stream, or the failure that is reported
/// where the stream cannot be read that far.
pub open spec fn entry_or_invalid(content: Option<Option<Seq<u8>>>) -> Result<
    Seq<u8>,
    ArchiveError,
> {
    match content {
        Some(Some(bytes)) => Ok(bytes),
        _ => Err(ArchiveError::NotAValidArchive),
    }
}

/// The listing of `inner_path` over records that are at hand.
pub fn list_records(
    archive_path: &str,
    records: &Vec<RawEntry>,
    inner_path: &str,
    format: &str,
    synth_label: &str,
) -> (r: Result<ArchiveListing, ArchiveError>)
    ensures
        lists(r, archive_path@, inner_path@, format@, synth_label@, raw_models(records@)),
{
    match build_listing(archive_path, inner_path, format, synth_label, records) {
        Some(listing) => Ok(listing),
        None => Err(ArchiveError::NotAValidArchive),
    }
}

/// The index of the record at `inner_path` among records that are at hand.
pub fn locate_record(records: &Vec<RawEntry>, inner_path: &str) -> (r: Result<usize, ArchiveError>)
    ensures
        finds(r, located(raw_models(records@), inner_path@)),
{
    match find_entry(records, inner_path) {
        Some(i) => Ok(i),
        None => Err(ArchiveError::EntryNotFound),
    }
}

/// A zip entry as a record.
fn zip_to_raw(rec: ZipRecord) -> (r: RawEntry)
    ensures
        r@ == zip_raw(rec@),
{
    let modified: i64 = match rec.stamp {
        None => 0,
        Some(s) => match utc_seconds(
            s.year as i32,
            s.month as u32,
            s.day as u32,
            s.hour as u32,
            s.minute as u32,
            s.second as u32,
        ) {
            Some(t) => t,
            None => 0,
        },
    };
    RawEntry {
        path: rec.name,
        is_dir: rec.is_dir,
        size: rec.size,
        compressed_size: rec.compressed_size,
        modified,
        compression: rec.compression,
    }
}

/// A tar entry as a record.
fn tar_to_raw(rec: TarRecord, label: &str) -> (r: RawEntry)
    ensures
        r@ == tar_raw(rec@, label@),
{
    let n = normalise_chars(rec.path.as_str());
    let is_root = n.len() == 1 && n[0] == '.';
    proof {
        if is_root {
            assert(n@ =~= seq!['.']);
        }
    }
    let size: u64 = match rec.size {
        Some(s) => s,
        None => 0,
    };
    let modified: i64 = match rec.modified {
        Some(t) => if t <= i64::MAX as u64 {
            t as i64
        } else {
            0
        },
        None => 0,
    };
    RawEntry {
        path: if is_root {
            String::new()
        } else {
            rec.path
        },
        is_dir: rec.is_dir,
        size,
        compressed_size: 0,
        modified,
        compression: label.to_owned(),
    }
}

/// A file of a cabinet as a record.
fn cab_to_raw(rec: CabRecord) -> (r: RawEntry)
    ensures
        r@ == cab_raw(rec@),
{
    RawEntry {
        path: rec.name,
        is_dir: false,
        size: rec.size as u64,
        compressed_size: 0,
        modified: 0,
        compression: rec.compression,
    }
}

/// A container in which entries are taken one after the other: a walk
/// over a tar stream, or an opened cabinet.
enum Handle<'a> {
    Tar(TarWalk<'a>),
    Cab(&'a cab::Cabinet<std::io::Cursor<Vec<u8>>>),
}

/// `handle` stands for the container `kind` over the bytes `data`, and
/// entry number `i` is the next that it gives.
spec fn handle_at(handle: Handle<'_>, kind: Container, data: Seq<u8>, i: int) -> bool {
    match handle {
        Handle::Tar(walk) => kind == Container::Tar && tar_stream_of(walk) == data
            && tar_position_of(walk) == i,
        Handle::Cab(cabinet) => kind == Container::Cab && cab_bytes_of(*cabinet) == data
            && cab_opens(data),
    }
}

/// Entry number `i` of the container, as a record.
fn read_entry_at(
    handle: &mut Handle<'_>,
    kind: Container,
    Ghost(data): Ghost<Seq<u8>>,
    label: &str,
    i: usize,
) -> (r: Option<Option<RawEntry>>)
    requires
        handle_at(*old(handle), kind, data, i as int),
    ensures
        handle_at(*final(handle), kind, data, i + 1),
        r is Some <==> entry_at(kind, data, label@, i as int) is Some,
        r is Some ==> (r.unwrap() is Some <==> entry_at(kind, data, label@, i as int).unwrap()
            is Some),
        r is Some && r.unwrap() is Some ==> r.unwrap().unwrap()@ == entry_at(
            kind,
            data,
            label@,
            i as int,
        ).unwrap().unwrap(),
{
    match handle {
        Handle::Tar(walk) => match tar_next(walk) {
            Err(_) => None,
            Ok(None) => Some(None),
            Ok(Some(rec)) => Some(Some(tar_to_raw(rec, label))),
        },
        Handle::Cab(cabinet) => match cab_record(cabinet, i) {
            None => Some(None),
            Some(rec) => Some(Some(cab_to_raw(rec))),
        },
    }
}

/// `acc` in front of what a scan still finds.
spec fn joined(acc: Seq<RawModel>, rest: Option<Seq<RawModel>>) -> Option<Seq<RawModel>> {
    match rest {
        None => None,
        Some(more) => Some(acc + more),
    }
}

/// All records of the container that `handle` stands for, which holds
/// `len` bytes.
fn scan_handle(
    handle: &mut Handle<'_>,
    kind: Container,
    Ghost(data): Ghost<Seq<u8>>,
    len: usize,
    label: &str,
) -> (r: Result<Vec<RawEntry>, ArchiveError>)
    requires
        handle_at(*old(handle), kind, data, 0),
        len == data.len(),
    ensures
        r is Ok <==> container_records(kind, data, label@) is Some,
        r is Ok ==> raw_models(r->Ok_0@) == container_records(kind, data, label@).unwrap(),
        r is Err ==> r->Err_0 == ArchiveError::NotAValidArchive,
{
    let ghost whole = container_records(kind, data, label@);
    let ghost limit = scan_limit(kind, data);
    let mut out: Vec<RawEntry> = Vec::new();
    let mut i: usize = 0;
    proof {
        let first = scanned(kind, data, label@, 0, limit);
        assert(joined(raw_models(out@), first) == first) by {
            if first is Some {
                assert(raw_models(out@) + first.unwrap() =~= first.unwrap());
            }
        }
    }
    loop
        invariant
            i <= len == data.len(),
            limit == scan_limit(kind, data),
            handle_at(*handle, kind, data, i as int),
            whole == container_records(kind, data, label@),
            whole == joined(raw_models(out@), scanned(kind, data, label@, i as int, limit)),
        decreases len - i,
    {
        let ghost acc = raw_models(out@);
        match read_entry_at(handle, kind, Ghost(data), label, i) {
            None => {
                return Err(ArchiveError::NotAValidArchive);
            },
            Some(None) => {
                assert(acc + Seq::<RawModel>::empty() =~= acc);
                return Ok(out);
            },
            Some(Some(rec)) => {
                let ghost m = rec@;
                out.push(rec);
                proof {
                    assert(raw_models(out@) =~= acc.push(m));
                    let rest = scanned(kind, data, label@, i + 1, limit);
                    if rest is Some {
                        assert(acc + (seq![m] + rest.unwrap()) =~= acc.push(m) + rest.unwrap());
                    }
                }
            },
        }
        if i == len {
            return Err(ArchiveError::NotAValidArchive);
        }
        i += 1;
    }
}

/// The number of the first entry at the canonical path `target` in the
/// container that `handle` stands for, which holds `len` bytes. The entries
/// behind the match are not looked at.
fn seek_handle(
    handle: &mut Handle<'_>,
    kind: Container,
    Ghost(data): Ghost<Seq<u8>>,
    len: usize,
    target: &Vec<char>,
) -> (r: Result<usize, ArchiveError>)
    requires
        handle_at(*old(handle), kind, data, 0),
        len == data.len(),
    ensures
        match sought(kind, data, target@, 0, scan_limit(kind, data)) {
            Ok(i) => r is Ok && r->Ok_0 == i,
            Err(e) => fails_with(r, e),
        },
{
    proof {
        reveal_strlit("");
        assert(""@ =~= Seq::<char>::empty());
    }
    let ghost limit = scan_limit(kind, data);
    let ghost whole = sought(kind, data, target@, 0, limit);
    let mut i: usize = 0;
    loop
        invariant
            i <= len == data.len(),
            limit == scan_limit(kind, data),
            ""@ == Seq::<char>::empty(),
            handle_at(*handle, kind, data, i as int),
            whole == sought(kind, data, target@, 0, limit),
            whole == sought(kind, data, target@, i as int, limit),
        decreases len - i,
    {
        match read_entry_at(handle, kind, Ghost(data), "", i) {
            None => {
                return Err(ArchiveError::NotAValidArchive);
            },
            Some(None) => {
                return Err(ArchiveError::EntryNotFound);
            },
            Some(Some(rec)) => {
                let n = normalise_chars(rec.path.as_str());
                if n.len() > 0 && same_chars(&n, target) {
                    return Ok(i);
                }
            },
        }
        if i == len {
            return Err(ArchiveError::NotAValidArchive);
        }
        i += 1;
    }
}

/// The content of entry number `index` of the tar stream `data`: the walk
/// passes over the entries before it and reads this one.
pub fn tar_content(data: &Vec<u8>, index: usize) -> (r: Result<Vec<u8>, ArchiveError>)
    ensures
        gives(r, entry_or_invalid(tar_content_of(data@, index as int))),
{
    let mut stream = tar_open(copy_bytes(data));
    let mut walk = match tar_entries(&mut stream) {
        Ok(walk) => walk,
        Err(_) => {
            return Err(ArchiveError::NotAValidArchive);
        },
    };
    let mut i: usize = 0;
    while i < index
        invariant
            i <= index,
            tar_stream_of(walk) == data@,
            tar_position_of(walk) == i,
        decreases index - i,
    {
        let _ = tar_next(&mut walk);
        i += 1;
    }
    match tar_next_content(&mut walk) {
        Ok(Some(bytes)) => Ok(bytes),
        _ => Err(ArchiveError::NotAValidArchive),
    }
}

/// All records of a container whose entries are reached one after the
/// other. `label` is the compression label that the records of a tar
/// stream get. A stream without entries has no records and is no failure.
pub fn scan_records(kind: Container, data: &Vec<u8>, label: &str) -> (r: Result<
    Vec<RawEntry>,
    ArchiveError,
>)
    ensures
        r is Ok <==> container_records(kind, data@, label@) is Some,
        r is Ok ==> raw_models(r->Ok_0@) == container_records(kind, data@, label@).unwrap(),
        r is Err ==> r->Err_0 == ArchiveError::NotAValidArchive,
{
    let n = data.len();
    match kind {
        Container::Tar => {
            let mut stream = tar_open(copy_bytes(data));
            match tar_entries(&mut stream) {
                Ok(walk) => {
                    let mut handle = Handle::Tar(walk);
                    scan_handle(&mut handle, kind, Ghost(data@), n, label)
                },
                Err(_) => Err(ArchiveError::NotAValidArchive),
            }
        },
        Container::Cab => match cab_open(copy_bytes(data)) {
            Ok(cabinet) => {
                let mut handle = Handle::Cab(&cabinet);
                scan_handle(&mut handle, kind, Ghost(data@), n, label)
            },
            Err(_) => Err(ArchiveError::NotAValidArchive),
        },
    }
}

/// The number of the first entry at `inner_path` in a container whose
/// entries are reached one after the other. Only the entries up to the
/// match are read, so damage behind it does not matter.
pub fn seek_record(kind: Container, data: &Vec<u8>, inner_path: &str) -> (r: Result<
    usize,
    ArchiveError,
>)
    ensures
        finds(r, container_located(kind, data@, inner_path@)),
{
    let n = data.len();
    let target = normalise_chars(inner_path);
    match kind {
        Container::Tar => {
            let mut stream = tar_open(copy_bytes(data));
            match tar_entries(&mut stream) {
                Ok(walk) => {
                    let mut handle = Handle::Tar(walk);
                    seek_handle(&mut handle, kind, Ghost(data@), n, &target)
                },
                Err(_) => Err(ArchiveError::NotAValidArchive),
            }
        },
        Container::Cab => match cab_open(copy_bytes(data)) {
            Ok(cabinet) => {
                let mut handle = Handle::Cab(&cabinet);
                seek_handle(&mut handle, kind, Ghost(data@), n, &target)
            },
            Err(_) => Err(ArchiveError::NotAValidArchive),
        },
    }
}

/// The number of the first entry of an opened zip archive at the canonical
/// path `target`. Only the entries up to the match are opened.
fn zip_seek_in(archive: &mut zip::ZipArchive<std::io::Cursor<Vec<u8>>>, target: &Vec<char>) -> (r:
    Result<usize, ArchiveError>)
    ensures
        zip_bytes_of(*final(archive)) == zip_bytes_of(*old(archive)),
        match zip_sought(zip_bytes_of(*old(archive)), target@, 0) {
            Ok(i) => r is Ok && r->Ok_0 == i,
            Err(e) => fails_with(r, e),
        },
{
    let ghost data = zip_bytes_of(*archive);
    let count = zip_count(archive);
    let mut i: usize = 0;
    while i < count
        invariant
            i <= count == zip_count_of(data),
            zip_bytes_of(*archive) == data,
            zip_bytes_of(*old(archive)) == data,
            zip_sought(data, target@, 0) == zip_sought(data, target@, i as int),
        decreases count - i,
    {
        match zip_record(archive, i) {
            Ok(rec) => {
                let raw = zip_to_raw(rec);
                let n = normalise_chars(raw.path.as_str());
                if n.len() > 0 && same_chars(&n, target) {
                    return Ok(i);
                }
            },
            Err(_) => {
                return Err(ArchiveError::NotAValidArchive);
            },
        }
        i += 1;
    }
    Err(ArchiveError::EntryNotFound)
}

/// The records of an opened zip archive, in the order of its central
/// directory.
fn zip_records_in(archive: &mut zip::ZipArchive<std::io::Cursor<Vec<u8>>>) -> (r: Result<
    Vec<RawEntry>,
    ArchiveError,
>)
    requires
        zip_opens(zip_bytes_of(*old(archive))),
    ensures
        zip_bytes_of(*final(archive)) == zip_bytes_of(*old(archive)),
        r is Ok <==> zip_readable(zip_bytes_of(*old(archive))),
        r is Ok ==> raw_models(r->Ok_0@) == zip_records_of(zip_bytes_of(*old(archive))),
        r is Err ==> r->Err_0 == ArchiveError::NotAValidArchive,
{
    let ghost data = zip_bytes_of(*archive);
    let count = zip_count(archive);
    let mut out: Vec<RawEntry> = Vec::new();
    let mut i: usize = 0;
    while i < count
        invariant
            i <= count,
            zip_bytes_of(*archive) == data,
            zip_bytes_of(*old(archive)) == data,
            zip_opens(data),
            count == zip_count_of(data),
            out.len() == i,
            forall|j: int| 0 <= j < i ==> zip_record_of(data, j) is Some,
            forall|j: int|
                0 <= j < i ==> (#[trigger] out@[j])@ == zip_raw(zip_record_of(data, j).unwrap()),
        decreases count - i,
    {
        match zip_record(archive, i) {
            Ok(rec) => {
                out.push(zip_to_raw(rec));
            },
            Err(_) => {
                return Err(ArchiveError::NotAValidArchive);
            },
        }
        i += 1;
    }
    assert(raw_models(out@) =~= zip_records_of(data));
    Ok(out)
}

/// The records of a zip archive, in the order of its central directory.
pub fn zip_records(data: &Vec<u8>) -> (r: Result<Vec<RawEntry>, ArchiveError>)
    ensures
        r is Ok <==> zip_readable(data@),
        r is Ok ==> raw_models(r->Ok_0@) == zip_records_of(data@),
        r is Err ==> r->Err_0 == ArchiveError::NotAValidArchive,
{
    let mut archive = match zip_open(copy_bytes(data)) {
        Ok(archive) => archive,
        Err(_) => {
            return Err(ArchiveError::NotAValidArchive);
        },
    };
    zip_records_in(&mut archive)
}

/// A copy of `data`.
pub(crate) fn copy_bytes(data: &Vec<u8>) -> (out: Vec<u8>)
    ensures
        out@ == data@,
{
    let out = data.clone();
    assert(out@ =~= data@);
    out
}

/// The stream inside the codec of `format`; a copy of the bytes where the
/// format has no codec.
pub fn decode_stream(format: ArchiveFormat, data: &Vec<u8>) -> (r: Result<Vec<u8>, ArchiveError>)
    ensures
        gives(r, content_or_invalid(decoded_of(format, data@))),
{
    let decoded = match format {
        ArchiveFormat::TarGz | ArchiveFormat::Gz => gunzip(data),
        ArchiveFormat::TarBz2 | ArchiveFormat::Bz2 => bunzip2(data),
        ArchiveFormat::TarXz | ArchiveFormat::Xz => unxz(data),
        ArchiveFormat::TarZst | ArchiveFormat::Zst => unzstd(data),
        _ => {
            return Ok(copy_bytes(data));
        },
    };
    match decoded {
        Ok(bytes) => Ok(bytes),
        Err(_) => Err(ArchiveError::NotAValidArchive),
    }
}

/// The listing of `inner_path` over the zip archive `data`.
pub open spec fn zip_listing_of(
    r: Result<ArchiveListing, ArchiveError>,
    archive_path: Seq<char>,
    data: Seq<u8>,
    inner_path: Seq<char>,
) -> bool {
    if zip_readable(data) {
        lists(r, archive_path, inner_path, "zip"@, "Stored"@, zip_records_of(data))
    } else {
        fails_with(r, ArchiveError::NotAValidArchive)
    }
}

/// `r` is the listing of `inner_path` over the container `kind` in `data`.
pub open spec fn container_listing_of(
    r: Result<ArchiveListing, ArchiveError>,
    kind: Container,
    archive_path: Seq<char>,
    data: Seq<u8>,
    inner_path: Seq<char>,
    format: Seq<char>,
) -> bool {
    match container_records(kind, data, format) {
        Some(raw) => lists(r, archive_path, inner_path, format, format, raw),
        None => fails_with(r, ArchiveError::NotAValidArchive),
    }
}

/// The content of entry `index` of the zip archive `data`.
pub open spec fn zip_entry_content(data: Seq<u8>, index: int) -> Result<Seq<u8>, ArchiveError> {
    if !zip_opens(data) {
        Err(ArchiveError::NotAValidArchive)
    } else {
        content_or_invalid(zip_content_of(data, index))
    }
}

/// The content of the entry at `inner_path` of the zip archive `data`:
/// that of the first entry at the path. Entries behind it are not opened.
pub open spec fn zip_read_of(data: Seq<u8>, inner_path: Seq<char>) -> Result<Seq<u8>, ArchiveError> {
    if !zip_opens(data) {
        Err(ArchiveError::NotAValidArchive)
    } else {
        match zip_sought(data, normalized(inner_path), 0) {
            Err(e) => Err(e),
            Ok(i) => zip_entry_content(data, i),
        }
    }
}

/// The content of the entry at `inner_path` of the tar stream `stream`:
/// that of the first entry at the path. Entries behind it are not read.
pub open spec fn tar_read_of(stream: Seq<u8>, inner_path: Seq<char>) -> Result<
    Seq<u8>,
    ArchiveError,
> {
    match container_located(Container::Tar, stream, inner_path) {
        Err(e) => Err(e),
        Ok(i) => entry_or_invalid(tar_content_of(stream, i)),
    }
}

/// The steps of an extraction over records that may have failed to parse.
pub open spec fn plan_over(raw: Option<Seq<RawModel>>, selection: Seq<Seq<char>>) -> Result<
    Seq<StepModel>,
    ArchiveError,
> {
    match raw {
        Some(records) => planned(records, selection),
        None => Err(ArchiveError::NotAValidArchive),
    }
}

/// The records of the zip archive `data`, where all can be opened.
pub open spec fn zip_parsed(data: Seq<u8>) -> Option<Seq<RawModel>> {
    if zip_readable(data) {
        Some(zip_records_of(data))
    } else {
        None
    }
}

/// The children of `inner_path` in the zip archive whose bytes are `data`.
/// A directory that no entry names is listed with the label `Stored`.
pub fn list_zip(archive_path: &str, data: &Vec<u8>, inner_path: &str) -> (r: Result<
    ArchiveListing,
    ArchiveError,
>)
    ensures
        zip_listing_of(r, archive_path@, data@, inner_path@),
{
    match zip_records(data) {
        Ok(records) => list_records(archive_path, &records, inner_path, "zip", "Stored"),
        Err(e) => Err(e),
    }
}

/// The children of `inner_path` in the tar stream `data`, which is what is
/// left when the codec of the format has been taken off. `format` is the
/// label of the format, which every entry carries as its compression.
pub fn list_tar_reader(data: &Vec<u8>, archive_path: &str, inner_path: &str, format: &str) -> (r:
    Result<ArchiveListing, ArchiveError>)
    ensures
        container_listing_of(r, Container::Tar, archive_path@, data@, inner_path@, format@),
{
    match scan_records(Container::Tar, data, format) {
        Ok(records) => list_records(archive_path, &records, inner_path, format, format),
        Err(e) => Err(e),
    }
}

/// The children of `inner_path` among the records that a helper read from
/// a 7z archive.
pub fn list_7z(archive_path: &str, records: &Vec<RawEntry>, inner_path: &str) -> (r: Result<
    ArchiveListing,
    ArchiveError,
>)
    ensures
        lists(r, archive_path@, inner_path@, "7z"@, "7z"@, raw_models(records@)),
{
    list_records(archive_path, records, inner_path, "7z", "7z")
}

/// The children of `inner_path` in the cabinet whose bytes are `data`. A
/// directory that no file names is listed with the label `CAB`.
pub fn list_cab(archive_path: &str, data: &Vec<u8>, inner_path: &str) -> (r: Result<
    ArchiveListing,
    ArchiveError,
>)
    ensures
        match container_records(Container::Cab, data@, "cab"@) {
            Some(raw) => lists(r, archive_path@, inner_path@, "cab"@, "CAB"@, raw),
            None => fails_with(r, ArchiveError::NotAValidArchive),
        },
{
    match scan_records(Container::Cab, data, "cab") {
        Ok(records) => list_records(archive_path, &records, inner_path, "cab", "CAB"),
        Err(e) => Err(e),
    }
}

/// The children of `inner_path` among the records that a helper read from
/// a RAR archive.
pub fn list_rar(archive_path: &str, records: &Vec<RawEntry>, inner_path: &str) -> (r: Result<
    ArchiveListing,
    ArchiveError,
>)
    ensures
        lists(r, archive_path@, inner_path@, "rar"@, "RAR"@, raw_models(records@)),
{
    list_records(archive_path, records, inner_path, "rar", "RAR")
}

/// The children of `inner_path` among the records that a helper read from
/// an ARJ archive.
pub fn list_arj(archive_path: &str, records: &Vec<RawEntry>, inner_path: &str) -> (r: Result<
    ArchiveListing,
    ArchiveError,
>)
    ensures
        lists(r, archive_path@, inner_path@, "arj"@, "ARJ"@, raw_models(records@)),
{
    list_records(archive_path, records, inner_path, "arj", "ARJ")
}

/// The children of `inner_path` among the records that a helper read from
/// an LZH archive.
pub fn list_lzh(archive_path: &str, records: &Vec<RawEntry>, inner_path: &str) -> (r: Result<
    ArchiveListing,
    ArchiveError,
>)
    ensures
        lists(r, archive_path@, inner_path@, "lzh"@, "LZH"@, raw_models(records@)),
{
    list_records(archive_path, records, inner_path, "lzh", "LZH")
}

/// The children of `inner_path` among the records that a helper read from
/// an ACE archive.
pub fn list_ace(archive_path: &str, records: &Vec<RawEntry>, inner_path: &str) -> (r: Result<
    ArchiveListing,
    ArchiveError,
>)
    ensures
        lists(r, archive_path@, inner_path@, "ace"@, "ACE"@, raw_models(records@)),
{
    list_records(archive_path, records, inner_path, "ace", "ACE")
}

/// The content of the entry at `inner_path` of the zip archive `data`. The
/// path is compared in canonical form, so a directory is found with or
/// without its trailing slash. Only the entries up to the one asked for are
/// opened.
pub fn read_zip_file(data: &Vec<u8>, inner_path: &str) -> (r: Result<Vec<u8>, ArchiveError>)
    ensures
        gives(r, zip_read_of(data@, inner_path@)),
{
    let mut archive = match zip_open(copy_bytes(data)) {
        Ok(archive) => archive,
        Err(_) => {
            return Err(ArchiveError::NotAValidArchive);
        },
    };
    let target = normalise_chars(inner_path);
    let index = match zip_seek_in(&mut archive, &target) {
        Ok(i) => i,
        Err(e) => {
            return Err(e);
        },
    };
    match zip_content(&mut archive, index) {
        Ok(bytes) => Ok(bytes),
        Err(_) => Err(ArchiveError::NotAValidArchive),
    }
}

/// The content of the first entry at `inner_path` of the tar stream `data`.
/// Only the entries up to the one asked for are read.
pub fn read_tar_file(data: &Vec<u8>, inner_path: &str) -> (r: Result<Vec<u8>, ArchiveError>)
    ensures
        gives(r, tar_read_of(data@, inner_path@)),
{
    match seek_record(Container::Tar, data, inner_path) {
        Ok(index) => tar_content(data, index),
        Err(e) => Err(e),
    }
}

/// The number of the first file at `inner_path` in the cabinet `data`. The
/// content of a cabinet's file is fetched by the caller's helper.
pub fn read_cab_file(data: &Vec<u8>, inner_path: &str) -> (r: Result<usize, ArchiveError>)
    ensures
        finds(r, container_located(Container::Cab, data@, inner_path@)),
{
    seek_record(Container::Cab, data, inner_path)
}

/// The index of the record at `inner_path` among the records that a helper
/// read from a 7z archive; the helper fetches the content of that record.
pub fn read_7z_file(records: &Vec<RawEntry>, inner_path: &str) -> (r: Result<usize, ArchiveError>)
    ensures
        finds(r, located(raw_models(records@), inner_path@)),
{
    locate_record(records, inner_path)
}

/// The index of the record at `inner_path` among the records that a helper
/// read from a RAR archive; the helper fetches the content of that record.
pub fn read_rar_file(records: &Vec<RawEntry>, inner_path: &str) -> (r: Result<usize, ArchiveError>)
    ensures
        finds(r, located(raw_models(records@), inner_path@)),
{
    locate_record(records, inner_path)
}

/// The index of the record at `inner_path` among the records that a helper
/// read from an ARJ archive; the helper fetches the content of that record.
pub fn read_arj_file(records: &Vec<RawEntry>, inner_path: &str) -> (r: Result<usize, ArchiveError>)
    ensures
        finds(r, located(raw_models(records@), inner_path@)),
{
    locate_record(records, inner_path)
}

/// The index of the record at `inner_path` among the records that a helper
/// read from an LZH archive; the helper fetches the content of that record.
pub fn read_lzh_file(records: &Vec<RawEntry>, inner_path: &str) -> (r: Result<usize, ArchiveError>)
    ensures
        finds(r, located(raw_models(records@), inner_path@)),
{
    locate_record(records, inner_path)
}

/// The index of the record at `inner_path` among the records that a helper
/// read from an ACE archive; the helper fetches the content of that record.
pub fn read_ace_file(records: &Vec<RawEntry>, inner_path: &str) -> (r: Result<usize, ArchiveError>)
    ensures
        finds(r, located(raw_models(records@), inner_path@)),
{
    locate_record(records, inner_path)
}

/// The steps that extract `selection` from the zip archive `data`;
/// `EntryNotFound` where a selected path is absent.
pub fn extract_zip(data: &Vec<u8>, selection: &Vec<String>) -> (r: Result<
    Vec<ExtractStep>,
    ArchiveError,
>)
    ensures
        plans(r, plan_over(zip_parsed(data@), selection_paths(selection@))),
{
    match zip_records(data) {
        Ok(records) => plan_selected(&records, selection),
        Err(e) => Err(e),
    }
}

/// The steps that extract `selection` from a container whose entries are
/// reached one after the other; `EntryNotFound` where a selected path is
/// absent.
pub fn extract_container(kind: Container, data: &Vec<u8>, selection: &Vec<String>) -> (r: Result<
    Vec<ExtractStep>,
    ArchiveError,
>)
    ensures
        plans(
            r,
            plan_over(
                container_records(kind, data@, Seq::<char>::empty()),
                selection_paths(selection@),
            ),
        ),
{
    proof {
        reveal_strlit("");
        assert(""@ =~= Seq::<char>::empty());
    }
    match scan_records(kind, data, "") {
        Ok(records) => plan_selected(&records, selection),
        Err(e) => Err(e),
    }
}

/// The steps that extract `selection` from the tar stream `data`.
pub fn extract_tar(data: &Vec<u8>, selection: &Vec<String>) -> (r: Result<
    Vec<ExtractStep>,
    ArchiveError,
>)
    ensures
        plans(
            r,
            plan_over(
                container_records(Container::Tar, data@, Seq::<char>::empty()),
                selection_paths(selection@),
            ),
        ),
{
    extract_container(Container::Tar, data, selection)
}

/// The steps that extract `selection` from the cabinet `data`.
pub fn extract_cab(data: &Vec<u8>, selection: &Vec<String>) -> (r: Result<
    Vec<ExtractStep>,
    ArchiveError,
>)
    ensures
        plans(
            r,
            plan_over(
                container_records(Container::Cab, data@, Seq::<char>::empty()),
                selection_paths(selection@),
            ),
        ),
{
    extract_container(Container::Cab, data, selection)
}

/// The steps that extract `selection` from the records that a helper read
/// from a 7z archive; `EntryNotFound` where a selected path is absent.
pub fn extract_7z(records: &Vec<RawEntry>, selection: &Vec<String>) -> (r: Result<
    Vec<ExtractStep>,
    ArchiveError,
>)
    ensures
        plans(r, planned(raw_models(records@), selection_paths(selection@))),
{
    plan_selected(records, selection)
}

/// The steps that extract `selection` from the records that a helper read
/// from a RAR archive; `EntryNotFound` where a selected path is absent.
pub fn extract_rar(records: &Vec<RawEntry>, selection: &Vec<String>) -> (r: Result<
    Vec<ExtractStep>,
    ArchiveError,
>)
    ensures
        plans(r, planned(raw_models(records@), selection_paths(selection@))),
{
    plan_selected(records, selection)
}

/// The steps that extract `selection` from the records that a helper read
/// from an ARJ archive; `EntryNotFound` where a selected path is absent.
pub fn extract_arj(records: &Vec<RawEntry>, selection: &Vec<String>) -> (r: Result<
    Vec<ExtractStep>,
    ArchiveError,
>)
    ensures
        plans(r, planned(raw_models(records@), selection_paths(selection@))),
{
    plan_selected(records, selection)
}

/// The steps that extract `selection` from the records that a helper read
/// from an LZH archive; `EntryNotFound` where a selected path is absent.
pub fn extract_lzh(records: &Vec<RawEntry>, selection: &Vec<String>) -> (r: Result<
    Vec<ExtractStep>,
    ArchiveError,
>)
    ensures
        plans(r, planned(raw_models(records@), selection_paths(selection@))),
{
    plan_selected(records, selection)
}

/// The steps that extract `selection` from the records that a helper read
/// from an ACE archive; `EntryNotFound` where a selected path is absent.
pub fn extract_ace(records: &Vec<RawEntry>, selection: &Vec<String>) -> (r: Result<
    Vec<ExtractStep>,
    ArchiveError,
>)
    ensures
        plans(r, planned(raw_models(records@), selection_paths(selection@))),
{
    plan_selected(records, selection)
}

/// Where every record of the container can be read, the entry that a read
/// stops at is the first record at the path.
pub proof fn lemma_sought_is_first(
    kind: Container,
    data: Seq<u8>,
    label: Seq<char>,
    target: Seq<char>,
    i: int,
    limit: int,
)
    requires
        scanned(kind, data, label, i, limit) is Some,
    ensures
        sought(kind, data, target, i, limit) == (if first_match(
            scanned(kind, data, label, i, limit).unwrap(),
            target,
        ) < scanned(kind, data, label, i, limit).unwrap().len() {
            Ok::<int, ArchiveError>(
                i + first_match(scanned(kind, data, label, i, limit).unwrap(), target),
            )
        } else {
            Err::<int, ArchiveError>(ArchiveError::EntryNotFound)
        }),
    decreases limit - i,
{
    let plain = entry_at(kind, data, Seq::<char>::empty(), i);
    let here = entry_at(kind, data, label, i);
    assert(plain is Some <==> here is Some);
    if here.unwrap() is Some {
        let r = here.unwrap().unwrap();
        assert(plain.unwrap().unwrap().path == r.path);
        let rest = scanned(kind, data, label, i + 1, limit).unwrap();
        let all = seq![r] + rest;
        assert(all[0] == r);
        assert(all.drop_first() =~= rest);
        if !matches_target(r, target) {
            lemma_sought_is_first(kind, data, label, target, i + 1, limit);
        }
    }
}

/// Where every entry of the zip archive can be opened, the entry that a
/// read stops at is the first record at the path.
pub proof fn lemma_zip_sought_is_first(data: Seq<u8>, target: Seq<char>, i: int)
    requires
        zip_readable(data),
        0 <= i <= zip_count_of(data),
    ensures
        zip_sought(data, target, i) == (if first_match(zip_records_of(data).skip(i), target)
            < zip_count_of(data) - i {
            Ok::<int, ArchiveError>(i + first_match(zip_records_of(data).skip(i), target))
        } else {
            Err::<int, ArchiveError>(ArchiveError::EntryNotFound)
        }),
    decreases zip_count_of(data) - i,
{
    let recs = zip_records_of(data);
    let here = recs.skip(i);
    if i < zip_count_of(data) {
        assert(here[0] == recs[i]);
        assert(here.drop_first() =~= recs.skip(i + 1));
        if !matches_target(recs[i], target) {
            lemma_zip_sought_is_first(data, target, i + 1);
        }
    }
}

} // verus!
