use std::io::{Cursor, Read, Write};

use archive_vfs::archive::{
    extract_archive, list_archive, open_archive, open_tar_stream, parse_bytes, read_archive_file,
    step_content, ArchiveContent, Backends, ReadOutcome, TarRun,
};
use archive_vfs::containers::{
    decode_stream, extract_7z, extract_ace, extract_arj, extract_cab, extract_lzh, extract_rar,
    extract_tar, extract_zip, list_7z, list_ace, list_arj, list_cab, list_lzh, list_rar,
    list_tar_reader, list_zip, read_7z_file, read_ace_file, read_arj_file, read_cab_file,
    read_lzh_file, read_rar_file, read_tar_file, read_zip_file, scan_records, seek_record,
    tar_content, zip_records, Container,
};
use archive_vfs::error::{ArchiveError, Failure};
use archive_vfs::format::ArchiveFormat;
use archive_vfs::model::{ArchiveEntryType, ArchiveListing, RawEntry};

fn zip_of(files: &[(&str, &[u8])], dirs: &[&str]) -> Vec<u8> {
    let mut writer = zip::ZipWriter::new(Cursor::new(Vec::new()));
    let options = zip::write::SimpleFileOptions::default()
        .compression_method(zip::CompressionMethod::Deflated)
        .last_modified_time(zip::DateTime::from_date_and_time(2020, 1, 2, 3, 4, 6).unwrap());
    for d in dirs {
        writer.add_directory(*d, options).unwrap();
    }
    for (name, content) in files {
        writer.start_file(*name, options).unwrap();
        writer.write_all(content).unwrap();
    }
    writer.finish().unwrap().into_inner()
}

fn tar_of(files: &[(&str, &[u8])], dirs: &[&str]) -> Vec<u8> {
    let mut builder = tar::Builder::new(Vec::new());
    for d in dirs {
        let mut header = tar::Header::new_gnu();
        header.set_entry_type(tar::EntryType::Directory);
        header.set_size(0);
        header.set_mtime(1_600_000_000);
        header.set_mode(0o755);
        builder.append_data(&mut header, *d, std::io::empty()).unwrap();
    }
    for (name, content) in files {
        let mut header = tar::Header::new_gnu();
        header.set_size(content.len() as u64);
        header.set_mtime(1_600_000_123);
        header.set_mode(0o644);
        builder.append_data(&mut header, *name, *content).unwrap();
    }
    builder.into_inner().unwrap()
}

fn gzip_of(data: &[u8]) -> Vec<u8> {
    let mut enc = flate2::write::GzEncoder::new(Vec::new(), flate2::Compression::default());
    enc.write_all(data).unwrap();
    enc.finish().unwrap()
}

fn bzip2_of(data: &[u8]) -> Vec<u8> {
    let mut enc = bzip2::write::BzEncoder::new(Vec::new(), bzip2::Compression::default());
    enc.write_all(data).unwrap();
    enc.finish().unwrap()
}

fn xz_of(data: &[u8]) -> Vec<u8> {
    let mut enc = xz2::write::XzEncoder::new(Vec::new(), 6);
    enc.write_all(data).unwrap();
    enc.finish().unwrap()
}

fn zstd_of(data: &[u8]) -> Vec<u8> {
    zstd::encode_all(data, 3).unwrap()
}

fn cab_of(files: &[(&str, &[u8])]) -> Vec<u8> {
    let mut builder = cab::CabinetBuilder::new();
    let folder = builder.add_folder(cab::CompressionType::None);
    for (name, _) in files {
        folder.add_file(*name);
    }
    let mut writer = builder.build(Cursor::new(Vec::new())).unwrap();
    let mut next = 0;
    while let Some(mut file) = writer.next_file().unwrap() {
        file.write_all(files[next].1).unwrap();
        next += 1;
    }
    writer.finish().unwrap().into_inner()
}

fn names(listing: &ArchiveListing) -> Vec<String> {
    listing.entries.iter().map(|e| e.name.clone()).collect()
}

fn content(outcome: Result<ReadOutcome, Failure>) -> Vec<u8> {
    match outcome {
        Ok(ReadOutcome::Content(bytes)) => bytes,
        other => panic!("no content: {:?}", other),
    }
}

#[test]
fn zip_with_one_deep_entry_lists_one_child_per_level() {
    let data = zip_of(&[("a/b/c.txt", b"hello")], &[]);

    let root = list_zip("/tmp/one.zip", &data, "").unwrap();
    assert_eq!(root.entries.len(), 1);
    assert_eq!(root.entries[0].name, "a");
    assert_eq!(root.entries[0].entry_type, ArchiveEntryType::Directory);
    assert_eq!(root.entries[0].compression, "Stored");
    assert_eq!(root.format, "zip");
    assert_eq!(root.archive_path, "/tmp/one.zip");
    assert_eq!(root.total_size, 0);

    let a = list_zip("/tmp/one.zip", &data, "a").unwrap();
    assert_eq!(a.entries.len(), 1);
    assert_eq!(a.entries[0].name, "b");
    assert_eq!(a.entries[0].entry_type, ArchiveEntryType::Directory);

    let b = list_zip("/tmp/one.zip", &data, "a/b").unwrap();
    assert_eq!(b.entries.len(), 1);
    assert_eq!(b.entries[0].name, "c.txt");
    assert_eq!(b.entries[0].inner_path, "a/b/c.txt");
    assert_eq!(b.entries[0].entry_type, ArchiveEntryType::File);
    assert_eq!(b.entries[0].size, 5);
    assert_eq!(b.total_size, 5);
    assert_eq!(b.inner_path, "a/b");
}

#[test]
fn zip_entries_carry_their_metadata() {
    let data = zip_of(&[("docs/readme.md", b"0123456789")], &["docs/"]);
    let records = zip_records(&data).unwrap();
    assert_eq!(records.len(), 2);
    assert_eq!(records[0].path, "docs/");
    assert!(records[0].is_dir);
    assert_eq!(records[1].path, "docs/readme.md");
    assert!(!records[1].is_dir);
    assert_eq!(records[1].size, 10);
    assert_eq!(records[1].compression, "Deflated");
    // 2020-01-02 03:04:06 UTC
    assert_eq!(records[1].modified, 1_577_934_246);

    let root = list_zip("x.zip", &data, "/").unwrap();
    assert_eq!(names(&root), vec!["docs"]);
    assert_eq!(root.entries[0].modified, 1_577_934_246);
    let docs = list_zip("x.zip", &data, "docs/").unwrap();
    assert_eq!(names(&docs), vec!["readme.md"]);
    assert_eq!(docs.entries[0].modified, 1_577_934_246);
}

#[test]
fn zip_read_returns_the_decompressed_content() {
    let body = b"the quick brown fox jumps over the lazy dog, again and again and again";
    let data = zip_of(&[("a/fox.txt", body), ("b.bin", &[0u8, 1, 2])], &["a/"]);
    assert_eq!(read_zip_file(&data, "a/fox.txt").unwrap(), body.to_vec());
    assert_eq!(read_zip_file(&data, "\\a\\fox.txt").unwrap(), body.to_vec());
    assert_eq!(read_zip_file(&data, "b.bin").unwrap(), vec![0u8, 1, 2]);
    assert_eq!(read_zip_file(&data, "a").unwrap(), Vec::<u8>::new());
    assert_eq!(read_zip_file(&data, "missing.txt"), Err(ArchiveError::EntryNotFound));
    assert_eq!(read_zip_file(&data, ""), Err(ArchiveError::EntryNotFound));
}

#[test]
fn bytes_that_are_no_zip_are_refused() {
    let junk = b"this is not a zip archive at all".to_vec();
    assert_eq!(zip_records(&junk).err(), Some(ArchiveError::NotAValidArchive));
    assert_eq!(list_zip("x.zip", &junk, "").err(), Some(ArchiveError::NotAValidArchive));
    assert_eq!(read_zip_file(&junk, "a"), Err(ArchiveError::NotAValidArchive));
    assert_eq!(extract_zip(&junk, &Vec::new()).err(), Some(ArchiveError::NotAValidArchive));
    assert_eq!(zip_records(&Vec::new()).err(), Some(ArchiveError::NotAValidArchive));
}

#[test]
fn tar_is_listed_and_read() {
    let plain = tar_of(&[("a/b/c.txt", b"tar body"), ("top.txt", b"t")], &["a/"]);
    let root = list_tar_reader(&plain, "/tmp/x.tar", "", "tar").unwrap();
    assert_eq!(names(&root), vec!["a", "top.txt"]);
    assert_eq!(root.entries[0].entry_type, ArchiveEntryType::Directory);
    assert_eq!(root.entries[0].modified, 1_600_000_000);
    assert_eq!(root.entries[0].compression, "tar");
    assert_eq!(root.entries[1].size, 1);
    assert_eq!(root.entries[1].compressed_size, 0);
    assert_eq!(root.entries[1].modified, 1_600_000_123);
    assert_eq!(root.total_size, 1);
    assert_eq!(root.format, "tar");

    let a = list_tar_reader(&plain, "/tmp/x.tar", "a", "tar").unwrap();
    assert_eq!(names(&a), vec!["b"]);
    assert_eq!(a.entries[0].modified, 0);
    assert_eq!(a.entries[0].compression, "tar");

    assert_eq!(read_tar_file(&plain, "a/b/c.txt").unwrap(), b"tar body".to_vec());
    assert_eq!(read_tar_file(&plain, "top.txt").unwrap(), b"t".to_vec());
    assert_eq!(read_tar_file(&plain, "nope"), Err(ArchiveError::EntryNotFound));
}

#[test]
fn a_tar_of_a_lone_dot_directory_lists_nothing() {
    let data = tar_of(&[], &["."]);
    let root = list_tar_reader(&data, "x.tar", "", "tar").unwrap();
    assert!(root.entries.is_empty());
    let steps = extract_tar(&data, &Vec::new()).unwrap();
    assert!(steps.is_empty());
}

#[test]
fn a_broken_tar_is_refused() {
    let mut data = tar_of(&[("a.txt", b"abc")], &[]);
    data.truncate(700);
    data[0] = b'x';
    data[150] = 0xff;
    assert_eq!(
        list_tar_reader(&data, "x.tar", "", "tar").err(),
        Some(ArchiveError::NotAValidArchive)
    );
}

#[test]
fn compressed_tars_are_decoded_before_they_are_read() {
    let tar = tar_of(&[("a/b/c.txt", b"inside")], &[]);
    let backends = Backends::none();
    let cases: Vec<(&str, Vec<u8>, &str)> = vec![
        ("x.tar", tar.clone(), "tar"),
        ("x.tar.gz", gzip_of(&tar), "tar.gz"),
        ("x.tgz", gzip_of(&tar), "tar.gz"),
        ("x.tar.bz2", bzip2_of(&tar), "tar.bz2"),
        ("x.tar.xz", xz_of(&tar), "tar.xz"),
        ("x.tar.zst", zstd_of(&tar), "tar.zst"),
    ];
    for (name, bytes, label) in cases {
        let content_in = ArchiveContent::Bytes(bytes.clone());
        let root = list_archive(name, &content_in, "", &backends).unwrap();
        assert_eq!(names(&root), vec!["a"], "{}", name);
        assert_eq!(root.format, label);
        assert_eq!(root.entries[0].compression, label);
        let leaf = list_archive(name, &content_in, "a/b", &backends).unwrap();
        assert_eq!(names(&leaf), vec!["c.txt"]);
        assert_eq!(leaf.entries[0].compression, label);
        assert_eq!(leaf.total_size, 6);
        assert_eq!(
            content(read_archive_file(name, &content_in, "a/b/c.txt", &backends)),
            b"inside".to_vec()
        );
    }
}

#[test]
fn each_codec_gives_back_what_was_compressed() {
    let body: Vec<u8> = (0..2000u32).map(|i| (i % 7) as u8 + b'a').collect();
    assert_eq!(decode_stream(ArchiveFormat::Gz, &gzip_of(&body)).unwrap(), body);
    assert_eq!(decode_stream(ArchiveFormat::Bz2, &bzip2_of(&body)).unwrap(), body);
    assert_eq!(decode_stream(ArchiveFormat::Xz, &xz_of(&body)).unwrap(), body);
    assert_eq!(decode_stream(ArchiveFormat::Zst, &zstd_of(&body)).unwrap(), body);
    assert_eq!(decode_stream(ArchiveFormat::Tar, &body).unwrap(), body);
    for format in [ArchiveFormat::Gz, ArchiveFormat::Bz2, ArchiveFormat::Xz, ArchiveFormat::Zst] {
        assert_eq!(decode_stream(format, &body), Err(ArchiveError::NotAValidArchive));
    }
}

#[test]
fn a_compressed_stream_is_one_file_named_by_its_stem() {
    let body = b"single file content, single file content".to_vec();
    let backends = Backends::none();
    let cases: Vec<(&str, Vec<u8>, &str)> = vec![
        ("/var/log/notes.txt.gz", gzip_of(&body), "gz"),
        ("/var/log/notes.txt.bz2", bzip2_of(&body), "bz2"),
        ("/var/log/notes.txt.xz", xz_of(&body), "xz"),
        ("/var/log/notes.txt.zst", zstd_of(&body), "zst"),
    ];
    for (name, bytes, label) in cases {
        let size = bytes.len() as u64;
        let given = ArchiveContent::Bytes(bytes);
        let listing = list_archive(name, &given, "ignored/parent", &backends).unwrap();
        assert_eq!(listing.inner_path, "");
        assert_eq!(listing.format, label);
        assert_eq!(listing.total_size, size);
        assert_eq!(listing.entries.len(), 1);
        let e = &listing.entries[0];
        assert_eq!(e.name, "notes.txt");
        assert_eq!(e.inner_path, "notes.txt");
        assert_eq!(e.entry_type, ArchiveEntryType::File);
        assert_eq!(e.size, size);
        assert_eq!(e.compressed_size, size);
        assert_eq!(e.modified, 0);
        assert_eq!(e.compression, label);

        assert_eq!(content(read_archive_file(name, &given, "notes.txt", &backends)), body);

        assert_eq!(
            extract_archive(name, &given, &vec!["other".to_string()], &backends).err().map(|f| f.kind),
            Some(ArchiveError::EntryNotFound)
        );
        let by_name =
            extract_archive(name, &given, &vec!["/notes.txt".to_string()], &backends).unwrap();
        assert_eq!(by_name.len(), 1);
        let steps = extract_archive(name, &given, &Vec::new(), &backends).unwrap();
        assert_eq!(steps.len(), 1);
        assert_eq!(steps[0].path, "notes.txt");
        assert!(!steps[0].is_dir);
        let data = match &given {
            ArchiveContent::Bytes(b) => b,
            ArchiveContent::Records(_) => unreachable!(),
        };
        assert_eq!(step_content(name, data, &steps[0], &backends).unwrap(), body);
    }
}

#[test]
fn what_an_extraction_writes_is_what_a_read_returns() {
    let files: Vec<(&str, &[u8])> = vec![
        ("a/b/one.txt", b"one"),
        ("a/x/two.txt", b"twotwo"),
        ("top.bin", &[0u8, 255, 7]),
    ];
    let backends = Backends::built_in();
    let archives: Vec<(&str, Vec<u8>)> = vec![
        ("r.zip", zip_of(&files, &["a/", "a/b/"])),
        ("r.tar", tar_of(&files, &["a/"])),
        ("r.tar.gz", gzip_of(&tar_of(&files, &["a/"]))),
    ];
    for (name, bytes) in archives {
        let given = ArchiveContent::Bytes(bytes.clone());
        let steps = extract_archive(name, &given, &Vec::new(), &backends).unwrap();
        let mut opened = open_archive(name, bytes.clone(), &backends).unwrap();
        let mut written = 0;
        for step in &steps {
            if step.is_dir {
                continue;
            }
            let wrote = step_content(name, &bytes, step, &backends).unwrap();
            assert_eq!(opened.content(step).unwrap(), wrote);
            let read = content(read_archive_file(name, &given, &step.path, &backends));
            assert_eq!(wrote, read, "{} {}", name, step.path);
            let expected = files.iter().find(|(p, _)| *p == step.path).unwrap().1;
            assert_eq!(wrote, expected.to_vec());
            written += 1;
        }
        assert_eq!(written, 3, "{}", name);
    }
}

#[test]
fn a_selection_writes_nothing_from_a_sibling() {
    let files: Vec<(&str, &[u8])> =
        vec![("a/b/one.txt", b"1"), ("a/x/two.txt", b"2"), ("a/b/c/three.txt", b"3")];
    let backends = Backends::none();
    let selection = vec!["a/b".to_string()];
    for (name, bytes) in [("s.zip", zip_of(&files, &["a/b/"])), ("s.tar", tar_of(&files, &["a/b"]))]
    {
        let steps =
            extract_archive(name, &ArchiveContent::Bytes(bytes), &selection, &backends).unwrap();
        let paths: Vec<String> = steps.iter().map(|s| s.path.clone()).collect();
        assert_eq!(paths, vec!["a/b", "a/b/one.txt", "a/b/c/three.txt"], "{}", name);
        assert!(steps[0].is_dir);
        assert!(paths.iter().all(|p| p == "a/b" || p.starts_with("a/b/")));
        assert!(paths.iter().all(|p| !p.starts_with("a/x")));
    }
}

#[test]
fn an_unavailable_backend_is_named_in_the_failure() {
    let off = Backends::none();
    let given = ArchiveContent::Bytes(vec![1, 2, 3]);
    assert_eq!(
        list_archive("movie.rar", &given, "", &off).err().map(|f| f.kind),
        Some(ArchiveError::FeatureNotCompiled(ArchiveFormat::Rar))
    );
    assert_eq!(
        read_archive_file("old.ARJ", &given, "a", &off).err().map(|f| f.kind),
        Some(ArchiveError::FeatureNotCompiled(ArchiveFormat::Arj))
    );
    assert_eq!(
        extract_archive("x.7z", &given, &Vec::new(), &off).err().map(|f| f.kind),
        Some(ArchiveError::FeatureNotCompiled(ArchiveFormat::SevenZip))
    );
    assert_eq!(
        list_archive("x.cab", &given, "", &off).err().map(|f| f.kind),
        Some(ArchiveError::FeatureNotCompiled(ArchiveFormat::Cab))
    );
    assert_eq!(
        list_archive("x.lzh", &given, "", &off).err().map(|f| f.kind),
        Some(ArchiveError::FeatureNotCompiled(ArchiveFormat::Lzh))
    );
    assert_eq!(
        step_content(
            "x.ace",
            &vec![1],
            &archive_vfs::records::ExtractStep { index: 0, path: "a".to_string(), is_dir: false },
            &off
        )
        .err(),
        Some(ArchiveError::FeatureNotCompiled(ArchiveFormat::Ace))
    );
    assert_eq!(ArchiveError::FeatureNotCompiled(ArchiveFormat::Rar).code(), "FEATURE_NOT_COMPILED");
}

#[test]
fn an_unknown_name_is_an_unrecognised_format() {
    let on = Backends::built_in();
    let given = ArchiveContent::Bytes(vec![1, 2, 3]);
    assert_eq!(
        list_archive("notes.txt", &given, "", &on).err().map(|f| f.kind),
        Some(ArchiveError::UnrecognizedFormat)
    );
    assert_eq!(
        read_archive_file("notes.txt", &given, "a", &on).err().map(|f| f.kind),
        Some(ArchiveError::UnrecognizedFormat)
    );
    assert_eq!(
        extract_archive("notes.txt", &given, &Vec::new(), &on).err().map(|f| f.kind),
        Some(ArchiveError::UnrecognizedFormat)
    );
    assert_eq!(ArchiveError::UnrecognizedFormat.code(), "UNRECOGNIZED_FORMAT");
    assert_eq!(ArchiveError::NotAValidArchive.code(), "NOT_A_VALID_ARCHIVE");
    assert_eq!(ArchiveError::EntryNotFound.code(), "ENTRY_NOT_FOUND");
    assert_eq!(ArchiveError::IoFailure.code(), "IO_FAILURE");
    assert_eq!(ArchiveError::BackendProcessFailure.code(), "BACKEND_PROCESS_FAILURE");
}

#[test]
fn a_helper_format_works_on_records_and_refuses_bytes() {
    let on = Backends { seven_zip: true, rar: true, cab: true, arj: true, lzh: true, ace: true };
    let records = vec![
        RawEntry {
            path: "music\\song.mp3".to_string(),
            is_dir: false,
            size: 4000,
            compressed_size: 3000,
            modified: 99,
            compression: "Normal".to_string(),
        },
        RawEntry {
            path: "cover.jpg".to_string(),
            is_dir: false,
            size: 500,
            compressed_size: 500,
            modified: 98,
            compression: "Store".to_string(),
        },
    ];
    let given = ArchiveContent::Records(records.clone());
    let root = list_archive("album.rar", &given, "", &on).unwrap();
    assert_eq!(names(&root), vec!["music", "cover.jpg"]);
    assert_eq!(root.entries[0].compression, "RAR");
    assert_eq!(root.format, "rar");
    assert_eq!(root.total_size, 500);
    let same = list_rar("album.rar", &records, "").unwrap();
    assert_eq!(format!("{:?}", same), format!("{:?}", root));

    match read_archive_file("album.rar", &given, "music/song.mp3", &on) {
        Ok(ReadOutcome::Record(i)) => assert_eq!(i, 0),
        other => panic!("{:?}", other),
    }
    assert_eq!(read_rar_file(&records, "cover.jpg"), Ok(1));
    assert_eq!(
        read_archive_file("album.rar", &given, "nope", &on).err().map(|f| f.kind),
        Some(ArchiveError::EntryNotFound)
    );
    let steps = extract_archive("album.rar", &given, &vec!["music".to_string()], &on).unwrap();
    assert_eq!(steps.len(), 1);
    assert_eq!(
        extract_archive("album.rar", &given, &vec!["music".to_string(), "video".to_string()], &on)
            .err().map(|f| f.kind),
        Some(ArchiveError::EntryNotFound)
    );
    assert_eq!(steps[0].index, 0);
    assert_eq!(steps[0].path, "music/song.mp3");

    let bytes = ArchiveContent::Bytes(vec![1, 2, 3]);
    for name in ["a.7z", "a.rar", "a.arj", "a.lzh", "a.ace"] {
        assert_eq!(
            list_archive(name, &bytes, "", &on).err().map(|f| f.kind),
            Some(ArchiveError::BackendProcessFailure)
        );
        assert_eq!(
            read_archive_file(name, &bytes, "x", &on).err().map(|f| f.kind),
            Some(ArchiveError::BackendProcessFailure)
        );
        assert_eq!(
            extract_archive(name, &bytes, &Vec::new(), &on).err().map(|f| f.kind),
            Some(ArchiveError::BackendProcessFailure)
        );
    }
    assert_eq!(
        parse_bytes(ArchiveFormat::Rar, "a.rar", &vec![1]).err(),
        Some(ArchiveError::BackendProcessFailure)
    );
}

#[test]
fn a_cabinet_is_listed_and_its_files_are_located() {
    let data = cab_of(&[("docs\\readme.txt", b"cab body"), ("setup.exe", b"MZ")]);
    let root = list_cab("x.cab", &data, "").unwrap();
    assert_eq!(names(&root), vec!["docs", "setup.exe"]);
    assert_eq!(root.entries[0].entry_type, ArchiveEntryType::Directory);
    assert_eq!(root.entries[0].compression, "CAB");
    assert_eq!(root.entries[1].size, 2);
    assert_eq!(root.entries[1].compression, "None");
    assert_eq!(root.format, "cab");
    let docs = list_cab("x.cab", &data, "docs").unwrap();
    assert_eq!(names(&docs), vec!["readme.txt"]);
    assert_eq!(docs.total_size, 8);
    assert_eq!(read_cab_file(&data, "docs/readme.txt"), Ok(0));
    assert_eq!(read_cab_file(&data, "setup.exe"), Ok(1));
    assert_eq!(read_cab_file(&data, "nope"), Err(ArchiveError::EntryNotFound));
    assert_eq!(read_cab_file(&vec![1, 2, 3], "a"), Err(ArchiveError::NotAValidArchive));
    assert_eq!(list_cab("x.cab", &vec![1, 2, 3], "").err(), Some(ArchiveError::NotAValidArchive));

    let on = Backends::built_in();
    let given = ArchiveContent::Bytes(data.clone());
    match read_archive_file("x.cab", &given, "setup.exe", &on) {
        Ok(ReadOutcome::Record(i)) => assert_eq!(i, 1),
        other => panic!("{:?}", other),
    }
    assert_eq!(
        read_archive_file("x.cab", &given, "nope", &on).err().map(|f| f.kind),
        Some(ArchiveError::EntryNotFound)
    );
    let steps = extract_archive("x.cab", &given, &Vec::new(), &on).unwrap();
    assert_eq!(steps.len(), 2);
    assert_eq!(
        step_content("x.cab", &data, &steps[0], &on),
        Err(ArchiveError::BackendProcessFailure)
    );
}

#[test]
fn a_7z_archive_is_listed_from_the_records_of_a_helper() {
    let records = vec![
        RawEntry {
            path: "a/b/c.txt".to_string(),
            is_dir: false,
            size: 5,
            compressed_size: 9,
            modified: 3,
            compression: "LZMA2".to_string(),
        },
        RawEntry {
            path: "top.txt".to_string(),
            is_dir: false,
            size: 3,
            compressed_size: 0,
            modified: 0,
            compression: "LZMA2".to_string(),
        },
    ];
    let root = list_7z("x.7z", &records, "").unwrap();
    assert_eq!(names(&root), vec!["a", "top.txt"]);
    assert_eq!(root.entries[0].compression, "7z");
    assert_eq!(root.entries[1].size, 3);
    assert_eq!(root.format, "7z");
    let leaf = list_7z("x.7z", &records, "a/b").unwrap();
    assert_eq!(names(&leaf), vec!["c.txt"]);
    assert_eq!(leaf.total_size, 5);
    assert_eq!(read_7z_file(&records, "a/b/c.txt"), Ok(0));
    assert_eq!(read_7z_file(&records, "top.txt"), Ok(1));
    assert_eq!(read_7z_file(&records, "nope"), Err(ArchiveError::EntryNotFound));
    let on = Backends { seven_zip: true, rar: false, cab: false, arj: false, lzh: false, ace: false };
    let listed = list_archive("x.7z", &ArchiveContent::Records(records), "", &on).unwrap();
    assert_eq!(format!("{:?}", listed), format!("{:?}", root));
}

#[test]
fn the_library_decodes_what_std_readers_decode() {
    let body = b"cross-check against the crate used directly".to_vec();
    let packed = gzip_of(&body);
    let mut direct = Vec::new();
    flate2::read::GzDecoder::new(packed.as_slice()).read_to_end(&mut direct).unwrap();
    assert_eq!(decode_stream(ArchiveFormat::TarGz, &packed).unwrap(), direct);
}

#[test]
fn an_archive_is_opened_once_for_many_contents() {
    let body = b"opened once".to_vec();
    let packed = gzip_of(&body);
    let off = Backends::none();
    let mut single = open_archive("/tmp/notes.txt.gz", packed.clone(), &off).unwrap();
    let steps =
        extract_archive("/tmp/notes.txt.gz", &ArchiveContent::Bytes(packed), &Vec::new(), &off)
            .unwrap();
    assert_eq!(single.content(&steps[0]).unwrap(), body);
    assert_eq!(single.content(&steps[0]).unwrap(), body);

    let junk = b"neither a zip nor anything else".to_vec();
    assert_eq!(
        open_archive("x.zip", junk.clone(), &off).err(),
        Some(ArchiveError::NotAValidArchive)
    );
    assert_eq!(
        open_archive("x.tar.gz", junk.clone(), &off).err(),
        Some(ArchiveError::NotAValidArchive)
    );
    assert_eq!(open_archive("x.gz", junk.clone(), &off).err(), Some(ArchiveError::NotAValidArchive));
    assert_eq!(
        open_archive("x.txt", junk.clone(), &off).err(),
        Some(ArchiveError::UnrecognizedFormat)
    );
    assert_eq!(
        open_archive("x.cab", junk.clone(), &off).err(),
        Some(ArchiveError::FeatureNotCompiled(ArchiveFormat::Cab))
    );
    let on = Backends { seven_zip: true, rar: true, cab: true, arj: true, lzh: true, ace: true };
    assert_eq!(
        open_archive("x.cab", junk.clone(), &on).err(),
        Some(ArchiveError::BackendProcessFailure)
    );
    assert_eq!(
        open_archive("x.7z", junk.clone(), &on).err(),
        Some(ArchiveError::BackendProcessFailure)
    );
    assert_eq!(
        open_archive("x.rar", junk.clone(), &on).err(),
        Some(ArchiveError::BackendProcessFailure)
    );

    let zip = zip_of(&[("a.txt", b"A"), ("b.txt", b"BB")], &[]);
    let mut opened = open_archive("x.zip", zip.clone(), &off).unwrap();
    let steps = extract_zip(&zip, &Vec::new()).unwrap();
    assert_eq!(steps.len(), 2);
    assert_eq!(opened.content(&steps[1]).unwrap(), b"BB".to_vec());
    assert_eq!(opened.content(&steps[0]).unwrap(), b"A".to_vec());
    let beyond = archive_vfs::records::ExtractStep { index: 9, path: "z".to_string(), is_dir: false };
    assert_eq!(opened.content(&beyond), Err(ArchiveError::NotAValidArchive));
}

#[test]
fn a_later_record_of_the_same_path_is_written_last() {
    let tar = tar_of(&[("dup.txt", b"first"), ("dup.txt", b"second")], &[]);
    let off = Backends::none();
    let given = ArchiveContent::Bytes(tar.clone());
    let steps = extract_archive("d.tar", &given, &Vec::new(), &off).unwrap();
    assert_eq!(steps.len(), 2);
    assert_eq!(step_content("d.tar", &tar, &steps[0], &off).unwrap(), b"first".to_vec());
    assert_eq!(step_content("d.tar", &tar, &steps[1], &off).unwrap(), b"second".to_vec());
    assert_eq!(content(read_archive_file("d.tar", &given, "dup.txt", &off)), b"first".to_vec());
}

#[test]
fn each_helper_format_lists_under_its_own_labels() {
    let records = vec![
        RawEntry {
            path: "dir/file.dat".to_string(),
            is_dir: false,
            size: 12,
            compressed_size: 6,
            modified: 7,
            compression: "m3".to_string(),
        },
        RawEntry {
            path: "readme".to_string(),
            is_dir: false,
            size: 30,
            compressed_size: 20,
            modified: 8,
            compression: "m0".to_string(),
        },
    ];
    let rar = list_rar("a.rar", &records, "").unwrap();
    let arj = list_arj("a.arj", &records, "").unwrap();
    let lzh = list_lzh("a.lzh", &records, "").unwrap();
    let ace = list_ace("a.ace", &records, "").unwrap();
    for (listing, format, label) in
        [(rar, "rar", "RAR"), (arj, "arj", "ARJ"), (lzh, "lzh", "LZH"), (ace, "ace", "ACE")]
    {
        assert_eq!(listing.format, format);
        assert_eq!(names(&listing), vec!["dir", "readme"]);
        assert_eq!(listing.entries[0].compression, label);
        assert_eq!(listing.entries[1].compression, "m0");
        assert_eq!(listing.total_size, 30);
    }
    let inner = list_arj("a.arj", &records, "dir").unwrap();
    assert_eq!(names(&inner), vec!["file.dat"]);
    assert_eq!(inner.entries[0].compression, "m3");
    assert_eq!(inner.total_size, 12);

    assert_eq!(read_arj_file(&records, "dir/file.dat"), Ok(0));
    assert_eq!(read_lzh_file(&records, "readme"), Ok(1));
    assert_eq!(read_ace_file(&records, "/readme/"), Ok(1));
    assert_eq!(read_ace_file(&records, "dir"), Err(ArchiveError::EntryNotFound));
    assert_eq!(read_rar_file(&records, "none"), Err(ArchiveError::EntryNotFound));

    let selection = vec!["dir".to_string()];
    for steps in [
        extract_7z(&records, &selection).unwrap(),
        extract_rar(&records, &selection).unwrap(),
        extract_arj(&records, &selection).unwrap(),
        extract_lzh(&records, &selection).unwrap(),
        extract_ace(&records, &selection).unwrap(),
    ] {
        assert_eq!(steps.len(), 1);
        assert_eq!(steps[0].index, 0);
        assert_eq!(steps[0].path, "dir/file.dat");
        assert!(!steps[0].is_dir);
    }
    assert_eq!(extract_rar(&records, &Vec::new()).unwrap().len(), 2);
    let absent = vec!["dir".to_string(), "gone".to_string()];
    assert_eq!(extract_7z(&records, &absent).err(), Some(ArchiveError::EntryNotFound));
    assert_eq!(extract_rar(&records, &absent).err(), Some(ArchiveError::EntryNotFound));
    assert_eq!(extract_arj(&records, &absent).err(), Some(ArchiveError::EntryNotFound));
    assert_eq!(extract_lzh(&records, &absent).err(), Some(ArchiveError::EntryNotFound));
    assert_eq!(extract_ace(&records, &absent).err(), Some(ArchiveError::EntryNotFound));
}

#[test]
fn a_cabinet_is_planned_for_extraction() {
    let files: Vec<(&str, &[u8])> = vec![("a/one.txt", b"1"), ("b/two.txt", b"22")];
    let cab = cab_of(&files);
    let only_a = vec!["a".to_string()];
    let steps = extract_cab(&cab, &only_a).unwrap();
    assert_eq!(steps.len(), 1);
    assert_eq!(steps[0].path, "a/one.txt");
    assert_eq!(steps[0].index, 0);
    assert_eq!(extract_cab(&cab, &Vec::new()).unwrap().len(), 2);
    assert_eq!(extract_cab(&cab, &vec!["c".to_string()]).err(), Some(ArchiveError::EntryNotFound));
    assert_eq!(extract_cab(&vec![9, 9], &only_a).err(), Some(ArchiveError::NotAValidArchive));

    let records = scan_records(Container::Cab, &cab, "unused").unwrap();
    assert_eq!(records.len(), 2);
    assert_eq!(records[1].path, "b/two.txt");
    assert_eq!(records[1].size, 2);
    assert!(!records[1].is_dir);
    assert_eq!(seek_record(Container::Cab, &cab, "b/two.txt"), Ok(1));
    let records = scan_records(Container::Tar, &tar_of(&files, &[]), "tar").unwrap();
    assert_eq!(records.len(), 2);
    assert_eq!(records[0].compression, "tar");
    assert_eq!(seek_record(Container::Tar, &tar_of(&files, &[]), "\\b\\two.txt"), Ok(1));
}

#[test]
fn an_absent_extraction_target_is_not_found() {
    let zip = zip_of(&[("a/b/c.txt", b"hello")], &[]);
    let off = Backends::none();
    let given = ArchiveContent::Bytes(zip.clone());
    let nope = vec!["nope".to_string()];
    assert_eq!(
        extract_archive("one.zip", &given, &nope, &off).err().map(|f| f.kind),
        Some(ArchiveError::EntryNotFound)
    );
    assert_eq!(extract_zip(&zip, &nope).err(), Some(ArchiveError::EntryNotFound));
    let mixed = vec!["a/b".to_string(), "nope".to_string()];
    assert_eq!(
        extract_archive("one.zip", &given, &mixed, &off).err().map(|f| f.kind),
        Some(ArchiveError::EntryNotFound)
    );
    let tar = tar_of(&[("a/b/c.txt", b"hello")], &[]);
    assert_eq!(extract_tar(&tar, &nope).err(), Some(ArchiveError::EntryNotFound));
    assert_eq!(
        extract_archive("one.tar", &ArchiveContent::Bytes(tar), &nope, &off).err().map(|f| f.kind),
        Some(ArchiveError::EntryNotFound)
    );
    let present = vec!["a".to_string(), "a/b/c.txt".to_string(), "/".to_string()];
    assert_eq!(extract_archive("one.zip", &given, &present, &off).unwrap().len(), 1);
}

#[test]
fn a_tar_stream_without_entries_is_an_empty_archive() {
    let off = Backends::none();
    for bytes in [Vec::new(), vec![0u8; 1024]] {
        let listing = list_tar_reader(&bytes, "e.tar", "", "tar").unwrap();
        assert!(listing.entries.is_empty());
        assert_eq!(listing.total_size, 0);
        assert!(extract_tar(&bytes, &Vec::new()).unwrap().is_empty());
        assert_eq!(read_tar_file(&bytes, "a"), Err(ArchiveError::EntryNotFound));
        let given = ArchiveContent::Bytes(bytes);
        assert!(list_archive("e.tar", &given, "", &off).unwrap().entries.is_empty());
    }
}

#[test]
fn damage_behind_the_entry_asked_for_does_not_stop_a_read() {
    let mut tar = tar_of(&[("first.txt", b"one"), ("second.txt", b"two")], &[]);
    // The header of the second entry starts behind the first header and its one block of data.
    for b in &mut tar[1024 + 148..1024 + 156] {
        *b = b'9';
    }
    assert_eq!(read_tar_file(&tar, "first.txt").unwrap(), b"one".to_vec());
    assert_eq!(read_tar_file(&tar, "second.txt"), Err(ArchiveError::NotAValidArchive));
    assert_eq!(
        list_tar_reader(&tar, "d.tar", "", "tar").err(),
        Some(ArchiveError::NotAValidArchive)
    );
    assert_eq!(seek_record(Container::Tar, &tar, "first.txt"), Ok(0));
}

#[test]
fn listing_an_archive_twice_gives_the_same_listing() {
    let files: Vec<(&str, &[u8])> = vec![
        ("b/two.txt", b"22"),
        ("a/one.txt", b"1"),
        ("B.txt", b"333"),
        ("a/deep/three.txt", b"4444"),
    ];
    let backends = Backends::built_in();
    let archives: Vec<(&str, Vec<u8>)> = vec![
        ("l.zip", zip_of(&files, &["a/"])),
        ("l.tar", tar_of(&files, &[])),
        ("l.tar.xz", xz_of(&tar_of(&files, &[]))),
        ("l.cab", cab_of(&files)),
    ];
    for (name, bytes) in archives {
        let given = ArchiveContent::Bytes(bytes);
        for parent in ["", "a", "a/deep", "b/"] {
            let first = list_archive(name, &given, parent, &backends).unwrap();
            let second = list_archive(name, &given, parent, &backends).unwrap();
            assert_eq!(format!("{:?}", first), format!("{:?}", second));
            for e in &first.entries {
                assert_eq!(
                    archive_vfs::paths::direct_child_path(&e.inner_path, &first.inner_path),
                    e.inner_path
                );
            }
        }
        let root = list_archive(name, &given, "", &backends).unwrap();
        assert_eq!(names(&root), vec!["a", "b", "B.txt"], "{}", name);
        assert_eq!(root.total_size, 3);
        let a = list_archive(name, &given, "a", &backends).unwrap();
        assert_eq!(names(&a), vec!["deep", "one.txt"], "{}", name);
        assert_eq!(a.total_size, 1);
    }
}

#[test]
fn a_tar_content_is_fetched_by_the_number_of_its_entry() {
    let tar = tar_of(&[("a.txt", b"first"), ("b/c.txt", b"second one")], &["b/"]);
    assert_eq!(tar_content(&tar, 0).unwrap(), Vec::<u8>::new());
    assert_eq!(tar_content(&tar, 1).unwrap(), b"first".to_vec());
    assert_eq!(tar_content(&tar, 2).unwrap(), b"second one".to_vec());
    assert_eq!(tar_content(&tar, 3), Err(ArchiveError::NotAValidArchive));
    assert_eq!(tar_content(&tar, 400), Err(ArchiveError::NotAValidArchive));
    assert_eq!(tar_content(&Vec::new(), 0), Err(ArchiveError::NotAValidArchive));
}

#[test]
fn a_tar_stream_is_passed_over_once_for_an_extraction() {
    let files: Vec<(&str, &[u8])> =
        vec![("a/one.txt", b"1"), ("a/two.txt", b"22"), ("b/three.txt", b"333")];
    let off = Backends::none();
    for (name, bytes) in
        [("w.tar", tar_of(&files, &["a/"])), ("w.tar.bz2", bzip2_of(&tar_of(&files, &["a/"])))]
    {
        let steps =
            extract_archive(name, &ArchiveContent::Bytes(bytes.clone()), &Vec::new(), &off)
                .unwrap();
        assert_eq!(steps.len(), 4);
        let mut stream = open_tar_stream(name, bytes.clone(), &off).unwrap();
        let mut run = TarRun::start(&mut stream).unwrap();
        let mut got = Vec::new();
        for step in &steps {
            if !step.is_dir {
                let bytes_of_step = run.content(step.index).unwrap();
                assert_eq!(bytes_of_step, step_content(name, &bytes, step, &off).unwrap());
                got.push((step.path.clone(), bytes_of_step));
            }
        }
        assert_eq!(
            got,
            vec![
                ("a/one.txt".to_string(), b"1".to_vec()),
                ("a/two.txt".to_string(), b"22".to_vec()),
                ("b/three.txt".to_string(), b"333".to_vec()),
            ]
        );
        assert_eq!(run.content(1), Err(ArchiveError::EntryNotFound));
        assert_eq!(run.content(4), Err(ArchiveError::NotAValidArchive));
        assert_eq!(run.content(usize::MAX), Err(ArchiveError::NotAValidArchive));
    }

    let skipping = tar_of(&files, &[]);
    let mut stream = open_tar_stream("s.tar", skipping, &off).unwrap();
    let mut run = TarRun::start(&mut stream).unwrap();
    assert_eq!(run.content(2).unwrap(), b"333".to_vec());
    assert_eq!(run.content(0), Err(ArchiveError::EntryNotFound));

    assert_eq!(
        open_tar_stream("x.zip", vec![1], &off).err(),
        Some(ArchiveError::NotAValidArchive)
    );
    assert_eq!(
        open_tar_stream("x.tgz", vec![1], &off).err(),
        Some(ArchiveError::NotAValidArchive)
    );
    assert_eq!(
        open_tar_stream("x.txt", vec![1], &off).err(),
        Some(ArchiveError::UnrecognizedFormat)
    );
}

#[test]
fn a_failure_names_the_archive_and_what_was_asked_for() {
    let zip = zip_of(&[("a/b/c.txt", b"hello")], &[]);
    let off = Backends::none();
    let given = ArchiveContent::Bytes(zip);
    let selection = vec!["a/b".to_string(), "nope".to_string(), "gone".to_string()];
    assert_eq!(
        extract_archive("/tmp/one.zip", &given, &selection, &off).err(),
        Some(Failure {
            kind: ArchiveError::EntryNotFound,
            archive_path: "/tmp/one.zip".to_string(),
            entry: "nope".to_string(),
        })
    );
    assert_eq!(
        read_archive_file("/tmp/one.zip", &given, "a/missing.txt", &off).err(),
        Some(Failure {
            kind: ArchiveError::EntryNotFound,
            archive_path: "/tmp/one.zip".to_string(),
            entry: "a/missing.txt".to_string(),
        })
    );
    assert_eq!(
        list_archive("/tmp/one.rar", &given, "a", &off).err(),
        Some(Failure {
            kind: ArchiveError::FeatureNotCompiled(ArchiveFormat::Rar),
            archive_path: "/tmp/one.rar".to_string(),
            entry: "a".to_string(),
        })
    );
    assert_eq!(
        extract_archive("/tmp/one.txt", &given, &selection, &off).err(),
        Some(Failure {
            kind: ArchiveError::UnrecognizedFormat,
            archive_path: "/tmp/one.txt".to_string(),
            entry: String::new(),
        })
    );
    assert_eq!(
        Failure::new(ArchiveError::IoFailure, "p", "e"),
        Failure { kind: ArchiveError::IoFailure, archive_path: "p".to_string(), entry: "e".to_string() }
    );
}
