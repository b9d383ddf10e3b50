use archive_vfs::archive::{
    read_bytes, resolve_format, single_file, synth_label, tar_family, Backends,
};
use archive_vfs::error::ArchiveError;
use archive_vfs::format::ArchiveFormat;

fn all_formats() -> Vec<ArchiveFormat> {
    vec![
        ArchiveFormat::Zip,
        ArchiveFormat::Tar,
        ArchiveFormat::TarGz,
        ArchiveFormat::TarBz2,
        ArchiveFormat::TarXz,
        ArchiveFormat::TarZst,
        ArchiveFormat::Gz,
        ArchiveFormat::Bz2,
        ArchiveFormat::Xz,
        ArchiveFormat::Zst,
        ArchiveFormat::SevenZip,
        ArchiveFormat::Rar,
        ArchiveFormat::Cab,
        ArchiveFormat::Arj,
        ArchiveFormat::Lzh,
        ArchiveFormat::Ace,
    ]
}

#[test]
fn the_core_formats_are_always_at_hand() {
    let off = Backends::none();
    let optional = [
        ArchiveFormat::SevenZip,
        ArchiveFormat::Rar,
        ArchiveFormat::Cab,
        ArchiveFormat::Arj,
        ArchiveFormat::Lzh,
        ArchiveFormat::Ace,
    ];
    for format in all_formats() {
        assert_eq!(off.supports(format), !optional.contains(&format), "{:?}", format);
    }
    let built_in = Backends::built_in();
    assert!(built_in.supports(ArchiveFormat::Cab));
    assert!(!built_in.supports(ArchiveFormat::SevenZip));
    assert!(!built_in.supports(ArchiveFormat::Rar));
    assert!(!built_in.supports(ArchiveFormat::Arj));
    assert!(!built_in.supports(ArchiveFormat::Lzh));
    assert!(!built_in.supports(ArchiveFormat::Ace));
    let only_lzh =
        Backends { seven_zip: false, rar: false, cab: false, arj: false, lzh: true, ace: false };
    assert!(only_lzh.supports(ArchiveFormat::Lzh));
    assert!(!only_lzh.supports(ArchiveFormat::Ace));
}

#[test]
fn a_format_is_resolved_from_the_name_and_the_registry() {
    let off = Backends::none();
    assert_eq!(resolve_format("a/b/c.TGZ", &off), Ok(ArchiveFormat::TarGz));
    assert_eq!(resolve_format("c.docx", &off), Ok(ArchiveFormat::Zip));
    assert_eq!(resolve_format("c.doc", &off), Err(ArchiveError::UnrecognizedFormat));
    assert_eq!(
        resolve_format("c.lha", &off),
        Err(ArchiveError::FeatureNotCompiled(ArchiveFormat::Lzh))
    );
    assert_eq!(resolve_format("c.cab", &Backends::built_in()), Ok(ArchiveFormat::Cab));
    assert_eq!(
        resolve_format("c.7z", &Backends::built_in()),
        Err(ArchiveError::FeatureNotCompiled(ArchiveFormat::SevenZip))
    );
}

#[test]
fn made_up_directories_carry_the_label_of_their_format() {
    assert_eq!(synth_label(ArchiveFormat::Zip), "Stored");
    assert_eq!(synth_label(ArchiveFormat::Tar), "tar");
    assert_eq!(synth_label(ArchiveFormat::TarGz), "tar.gz");
    assert_eq!(synth_label(ArchiveFormat::TarZst), "tar.zst");
    assert_eq!(synth_label(ArchiveFormat::SevenZip), "7z");
    assert_eq!(synth_label(ArchiveFormat::Rar), "RAR");
    assert_eq!(synth_label(ArchiveFormat::Cab), "CAB");
    assert_eq!(synth_label(ArchiveFormat::Arj), "ARJ");
    assert_eq!(synth_label(ArchiveFormat::Lzh), "LZH");
    assert_eq!(synth_label(ArchiveFormat::Ace), "ACE");
    assert_eq!(synth_label(ArchiveFormat::Gz), "gz");
}

#[test]
fn families_of_formats() {
    let tars = [
        ArchiveFormat::Tar,
        ArchiveFormat::TarGz,
        ArchiveFormat::TarBz2,
        ArchiveFormat::TarXz,
        ArchiveFormat::TarZst,
    ];
    let singles = [ArchiveFormat::Gz, ArchiveFormat::Bz2, ArchiveFormat::Xz, ArchiveFormat::Zst];
    for format in all_formats() {
        assert_eq!(tar_family(format), tars.contains(&format));
        assert_eq!(single_file(format), singles.contains(&format));
    }
}

#[test]
fn bytes_of_a_helper_format_cannot_be_read() {
    for format in [
        ArchiveFormat::SevenZip,
        ArchiveFormat::Cab,
        ArchiveFormat::Rar,
        ArchiveFormat::Arj,
        ArchiveFormat::Lzh,
        ArchiveFormat::Ace,
    ] {
        assert_eq!(read_bytes(format, &vec![1, 2], "a"), Err(ArchiveError::BackendProcessFailure));
    }
    assert_eq!(
        read_bytes(ArchiveFormat::Zip, &vec![1, 2], "a"),
        Err(ArchiveError::NotAValidArchive)
    );
    assert_eq!(
        read_bytes(ArchiveFormat::TarGz, &vec![1, 2], "a"),
        Err(ArchiveError::NotAValidArchive)
    );
}
