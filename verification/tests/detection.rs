use archive_vfs::format::{is_archive_extension, ArchiveFormat};

#[test]
fn compound_suffix_wins_over_bare_suffix() {
    assert_eq!(ArchiveFormat::detect("report.tar.gz"), Some(ArchiveFormat::TarGz));
    assert_eq!(ArchiveFormat::detect("report.gz"), Some(ArchiveFormat::Gz));
}

#[test]
fn unknown_suffix_is_not_detected() {
    assert_eq!(ArchiveFormat::detect("notes.txt"), None);
    assert_eq!(ArchiveFormat::detect(""), None);
    assert_eq!(ArchiveFormat::detect("targz"), None);
    assert_eq!(ArchiveFormat::detect("archive.zip.bak"), None);
    assert!(!is_archive_extension("notes.txt"));
}

#[test]
fn every_suffix_of_the_table_is_detected() {
    let table: Vec<(&str, ArchiveFormat)> = vec![
        ("a.tar.gz", ArchiveFormat::TarGz),
        ("a.tgz", ArchiveFormat::TarGz),
        ("a.tar.bz2", ArchiveFormat::TarBz2),
        ("a.tbz2", ArchiveFormat::TarBz2),
        ("a.tbz", ArchiveFormat::TarBz2),
        ("a.tar.xz", ArchiveFormat::TarXz),
        ("a.txz", ArchiveFormat::TarXz),
        ("a.tar.zst", ArchiveFormat::TarZst),
        ("a.tzst", ArchiveFormat::TarZst),
        ("a.tar", ArchiveFormat::Tar),
        ("a.zip", ArchiveFormat::Zip),
        ("a.jar", ArchiveFormat::Zip),
        ("a.war", ArchiveFormat::Zip),
        ("a.ear", ArchiveFormat::Zip),
        ("a.apk", ArchiveFormat::Zip),
        ("a.docx", ArchiveFormat::Zip),
        ("a.xlsx", ArchiveFormat::Zip),
        ("a.pptx", ArchiveFormat::Zip),
        ("a.odt", ArchiveFormat::Zip),
        ("a.ods", ArchiveFormat::Zip),
        ("a.odp", ArchiveFormat::Zip),
        ("a.gz", ArchiveFormat::Gz),
        ("a.bz2", ArchiveFormat::Bz2),
        ("a.xz", ArchiveFormat::Xz),
        ("a.zst", ArchiveFormat::Zst),
        ("a.zstd", ArchiveFormat::Zst),
        ("a.7z", ArchiveFormat::SevenZip),
        ("a.rar", ArchiveFormat::Rar),
        ("a.cab", ArchiveFormat::Cab),
        ("a.arj", ArchiveFormat::Arj),
        ("a.lzh", ArchiveFormat::Lzh),
        ("a.lha", ArchiveFormat::Lzh),
        ("a.ace", ArchiveFormat::Ace),
    ];
    for (name, format) in table {
        assert_eq!(ArchiveFormat::detect(name), Some(format), "{}", name);
        assert!(is_archive_extension(name));
    }
}

#[test]
fn detection_ignores_case() {
    assert_eq!(ArchiveFormat::detect("REPORT.TAR.GZ"), Some(ArchiveFormat::TarGz));
    assert_eq!(ArchiveFormat::detect("C:\\Docs\\Budget.XLSX"), Some(ArchiveFormat::Zip));
    assert_eq!(ArchiveFormat::detect_lowered("REPORT.TAR.GZ"), None);
    assert_eq!(ArchiveFormat::detect_lowered("report.tar.gz"), Some(ArchiveFormat::TarGz));
}

#[test]
fn a_zstd_suffix_after_tar_is_a_single_stream() {
    assert_eq!(ArchiveFormat::detect("a.tar.zstd"), Some(ArchiveFormat::Zst));
}

#[test]
fn labels_of_the_formats() {
    assert_eq!(ArchiveFormat::Zip.as_str(), "zip");
    assert_eq!(ArchiveFormat::Tar.as_str(), "tar");
    assert_eq!(ArchiveFormat::TarGz.as_str(), "tar.gz");
    assert_eq!(ArchiveFormat::TarBz2.as_str(), "tar.bz2");
    assert_eq!(ArchiveFormat::TarXz.as_str(), "tar.xz");
    assert_eq!(ArchiveFormat::TarZst.as_str(), "tar.zst");
    assert_eq!(ArchiveFormat::Gz.as_str(), "gz");
    assert_eq!(ArchiveFormat::Bz2.as_str(), "bz2");
    assert_eq!(ArchiveFormat::Xz.as_str(), "xz");
    assert_eq!(ArchiveFormat::Zst.as_str(), "zst");
    assert_eq!(ArchiveFormat::SevenZip.as_str(), "7z");
    assert_eq!(ArchiveFormat::Rar.as_str(), "rar");
    assert_eq!(ArchiveFormat::Cab.as_str(), "cab");
    assert_eq!(ArchiveFormat::Arj.as_str(), "arj");
    assert_eq!(ArchiveFormat::Lzh.as_str(), "lzh");
    assert_eq!(ArchiveFormat::Ace.as_str(), "ace");
}
