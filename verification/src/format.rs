//! Archive formats and their detection from a file name.

use vstd::prelude::*;
use crate::text::{chars_of, ends_with, has_suffix, is_lower_ascii, lowercase_of, to_lower};

verus! {

/// The container formats that can be browsed. A format is read off the file
/// name alone, never off the content.
#[derive(Debug, Clone, Copy, PartialEq, Eq, Structural)]
pub enum ArchiveFormat {
    Zip,
    Tar,
    TarGz,
    TarBz2,
    TarXz,
    TarZst,
    Gz,
    Bz2,
    Xz,
    Zst,
    SevenZip,
    Rar,
    Cab,
    Arj,
    Lzh,
    Ace,
}

/// The format that a lower-cased file name stands for. The rules are tried
/// in this order, so a compound suffix wins over the bare one it ends in.
pub open spec fn format_of_lowered(l: Seq<char>) -> Option<ArchiveFormat> {
    if ends_with(l, ".tar.gz"@) || ends_with(l, ".tgz"@) {
        Some(ArchiveFormat::TarGz)
    } else if ends_with(l, ".tar.bz2"@) || ends_with(l, ".tbz2"@) || ends_with(l, ".tbz"@) {
        Some(ArchiveFormat::TarBz2)
    } else if ends_with(l, ".tar.xz"@) || ends_with(l, ".txz"@) {
        Some(ArchiveFormat::TarXz)
    } else if ends_with(l, ".tar.zst"@) || ends_with(l, ".tzst"@) {
        Some(ArchiveFormat::TarZst)
    } else if ends_with(l, ".tar"@) {
        Some(ArchiveFormat::Tar)
    } else if ends_with(l, ".zip"@) || ends_with(l, ".jar"@) || ends_with(l, ".war"@)
        || ends_with(l, ".ear"@) || ends_with(l, ".apk"@) || ends_with(l, ".docx"@)
        || ends_with(l, ".xlsx"@) || ends_with(l, ".pptx"@) || ends_with(l, ".odt"@)
        || ends_with(l, ".ods"@) || ends_with(l, ".odp"@) {
        Some(ArchiveFormat::Zip)
    } else if ends_with(l, ".gz"@) {
        Some(ArchiveFormat::Gz)
    } else if ends_with(l, ".bz2"@) {
        Some(ArchiveFormat::Bz2)
    } else if ends_with(l, ".xz"@) {
        Some(ArchiveFormat::Xz)
    } else if ends_with(l, ".zst"@) || ends_with(l, ".zstd"@) {
        Some(ArchiveFormat::Zst)
    } else if ends_with(l, ".7z"@) {
        Some(ArchiveFormat::SevenZip)
    } else if ends_with(l, ".rar"@) {
        Some(ArchiveFormat::Rar)
    } else if ends_with(l, ".cab"@) {
        Some(ArchiveFormat::Cab)
    } else if ends_with(l, ".arj"@) {
        Some(ArchiveFormat::Arj)
    } else if ends_with(l, ".lzh"@) || ends_with(l, ".lha"@) {
        Some(ArchiveFormat::Lzh)
    } else if ends_with(l, ".ace"@) {
        Some(ArchiveFormat::Ace)
    } else {
        None
    }
}

/// The format of a file name: that of its lower-case form.
pub open spec fn detected(path: Seq<char>) -> Option<ArchiveFormat> {
    format_of_lowered(lowercase_of(path))
}

impl ArchiveFormat {
    /// The short label of the format.
    pub open spec fn label(self) -> Seq<char> {
        match self {
            ArchiveFormat::Zip => "zip"@,
            ArchiveFormat::Tar => "tar"@,
            ArchiveFormat::TarGz => "tar.gz"@,
            ArchiveFormat::TarBz2 => "tar.bz2"@,
            ArchiveFormat::TarXz => "tar.xz"@,
            ArchiveFormat::TarZst => "tar.zst"@,
            ArchiveFormat::Gz => "gz"@,
            ArchiveFormat::Bz2 => "bz2"@,
            ArchiveFormat::Xz => "xz"@,
            ArchiveFormat::Zst => "zst"@,
            ArchiveFormat::SevenZip => "7z"@,
            ArchiveFormat::Rar => "rar"@,
            ArchiveFormat::Cab => "cab"@,
            ArchiveFormat::Arj => "arj"@,
            ArchiveFormat::Lzh => "lzh"@,
            ArchiveFormat::Ace => "ace"@,
        }
    }

    /// The short label of the format, as it is reported in a listing.
    pub fn as_str(&self) -> (s: &'static str)
        ensures
            s@ == self.label(),
    {
        match self {
            ArchiveFormat::Zip => "zip",
            ArchiveFormat::Tar => "tar",
            ArchiveFormat::TarGz => "tar.gz",
            ArchiveFormat::TarBz2 => "tar.bz2",
            ArchiveFormat::TarXz => "tar.xz",
            ArchiveFormat::TarZst => "tar.zst",
            ArchiveFormat::Gz => "gz",
            ArchiveFormat::Bz2 => "bz2",
            ArchiveFormat::Xz => "xz",
            ArchiveFormat::Zst => "zst",
            ArchiveFormat::SevenZip => "7z",
            ArchiveFormat::Rar => "rar",
            ArchiveFormat::Cab => "cab",
            ArchiveFormat::Arj => "arj",
            ArchiveFormat::Lzh => "lzh",
            ArchiveFormat::Ace => "ace",
        }
    }

    /// The format that an already lower-cased file name stands for, by its
    /// suffix; `None` where no rule matches.
    pub fn detect_lowered(lower: &str) -> (r: Option<ArchiveFormat>)
        ensures
            r == format_of_lowered(lower@),
    {
        let l = chars_of(lower);
        if has_suffix(&l, ".tar.gz") || has_suffix(&l, ".tgz") {
            Some(ArchiveFormat::TarGz)
        } else if has_suffix(&l, ".tar.bz2") || has_suffix(&l, ".tbz2") || has_suffix(&l, ".tbz") {
            Some(ArchiveFormat::TarBz2)
        } else if has_suffix(&l, ".tar.xz") || has_suffix(&l, ".txz") {
            Some(ArchiveFormat::TarXz)
        } else if has_suffix(&l, ".tar.zst") || has_suffix(&l, ".tzst") {
            Some(ArchiveFormat::TarZst)
        } else if has_suffix(&l, ".tar") {
            Some(ArchiveFormat::Tar)
        } else if has_suffix(&l, ".zip") || has_suffix(&l, ".jar") || has_suffix(&l, ".war")
            || has_suffix(&l, ".ear") || has_suffix(&l, ".apk") || has_suffix(&l, ".docx")
            || has_suffix(&l, ".xlsx") || has_suffix(&l, ".pptx") || has_suffix(&l, ".odt")
            || has_suffix(&l, ".ods") || has_suffix(&l, ".odp") {
            Some(ArchiveFormat::Zip)
        } else if has_suffix(&l, ".gz") {
            Some(ArchiveFormat::Gz)
        } else if has_suffix(&l, ".bz2") {
            Some(ArchiveFormat::Bz2)
        } else if has_suffix(&l, ".xz") {
            Some(ArchiveFormat::Xz)
        } else if has_suffix(&l, ".zst") || has_suffix(&l, ".zstd") {
            Some(ArchiveFormat::Zst)
        } else if has_suffix(&l, ".7z") {
            Some(ArchiveFormat::SevenZip)
        } else if has_suffix(&l, ".rar") {
            Some(ArchiveFormat::Rar)
        } else if has_suffix(&l, ".cab") {
            Some(ArchiveFormat::Cab)
        } else if has_suffix(&l, ".arj") {
            Some(ArchiveFormat::Arj)
        } else if has_suffix(&l, ".lzh") || has_suffix(&l, ".lha") {
            Some(ArchiveFormat::Lzh)
        } else if has_suffix(&l, ".ace") {
            Some(ArchiveFormat::Ace)
        } else {
            None
        }
    }

    /// The format of the file at `path`, read off its name without regard
    /// to case; `None` where the name ends in no known suffix.
    pub fn detect(path: &str) -> (r: Option<ArchiveFormat>)
        ensures
            r == detected(path@),
            is_lower_ascii(path@) ==> r == format_of_lowered(path@),
    {
        let lower = to_lower(path);
        ArchiveFormat::detect_lowered(lower.as_str())
    }
}

/// Whether the name of the file at `path` ends in a known archive suffix.
pub fn is_archive_extension(path: &str) -> (r: bool)
    ensures
        r == detected(path@).is_some(),
        is_lower_ascii(path@) ==> r == format_of_lowered(path@).is_some(),
{
    ArchiveFormat::detect(path).is_some()
}

} // verus!
