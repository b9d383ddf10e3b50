//! The values that travel between a client and the command layer, and the
//! small decisions that the archive commands make about them.

use vstd::prelude::*;
use crate::model::ArchiveListing;

verus! {

/// The operating system of the host.
#[derive(Debug, Clone)]
pub struct OsInfo {
    pub os: String,
    pub version: String,
    pub arch: String,
    pub hostname: String,
    pub system_drive: Option<String>,
}

/// One drive or mount point of the host.
#[derive(Debug, Clone)]
pub struct DriveInfo {
    pub name: String,
    pub path: String,
    pub drive_type: String,
    pub total_space: u64,
    pub free_space: u64,
    pub file_system: Option<String>,
}

/// The drives of the host.
#[derive(Debug, Clone)]
pub struct DrivesList {
    pub drives: Vec<DriveInfo>,
}

/// A command of a client.
#[derive(Debug, Clone)]
pub enum Command {
    ListDirectory { id: String, timestamp: i64, path: String, show_hidden: bool },
    ListDrives { id: String, timestamp: i64 },
    GetOsInfo { id: String, timestamp: i64 },
    ReadFile { id: String, timestamp: i64, path: String, encoding: Option<String> },
    WriteFile { id: String, timestamp: i64, path: String, content: String, encoding: Option<String> },
    DeleteFile { id: String, timestamp: i64, path: String, recursive: bool },
    CreateDirectory { id: String, timestamp: i64, path: String, recursive: bool },
    MoveFile { id: String, timestamp: i64, source: String, destination: String },
    CopyFile { id: String, timestamp: i64, source: String, destination: String, recursive: bool },
    GetFileInfo { id: String, timestamp: i64, path: String },
    SearchFiles { id: String, timestamp: i64, path: String, pattern: String, recursive: bool },
    /// List the children of `inner_path` (empty for the root) in the
    /// archive at `archive_path`.
    ListArchive { id: String, timestamp: i64, archive_path: String, inner_path: String },
    /// Return the content of one file of an archive.
    ReadArchiveFile {
        id: String,
        timestamp: i64,
        archive_path: String,
        inner_path: String,
        encoding: Option<String>,
    },
    /// Extract entries of an archive to a directory; all of them where
    /// `inner_paths` is empty.
    ExtractArchive {
        id: String,
        timestamp: i64,
        archive_path: String,
        destination: String,
        inner_paths: Vec<String>,
    },
}

impl Command {
    /// The identifier that the client gave the command.
    pub open spec fn command_id(self) -> Seq<char> {
        match self {
            Command::ListDirectory { id, .. } => id@,
            Command::ListDrives { id, .. } => id@,
            Command::GetOsInfo { id, .. } => id@,
            Command::ReadFile { id, .. } => id@,
            Command::WriteFile { id, .. } => id@,
            Command::DeleteFile { id, .. } => id@,
            Command::CreateDirectory { id, .. } => id@,
            Command::MoveFile { id, .. } => id@,
            Command::CopyFile { id, .. } => id@,
            Command::GetFileInfo { id, .. } => id@,
            Command::SearchFiles { id, .. } => id@,
            Command::ListArchive { id, .. } => id@,
            Command::ReadArchiveFile { id, .. } => id@,
            Command::ExtractArchive { id, .. } => id@,
        }
    }

    /// The identifier that the client gave the command, under which the
    /// response is sent.
    pub fn id(&self) -> (s: &str)
        ensures
            s@ == self.command_id(),
    {
        match self {
            Command::ListDirectory { id, .. } => id.as_str(),
            Command::ListDrives { id, .. } => id.as_str(),
            Command::GetOsInfo { id, .. } => id.as_str(),
            Command::ReadFile { id, .. } => id.as_str(),
            Command::WriteFile { id, .. } => id.as_str(),
            Command::DeleteFile { id, .. } => id.as_str(),
            Command::CreateDirectory { id, .. } => id.as_str(),
            Command::MoveFile { id, .. } => id.as_str(),
            Command::CopyFile { id, .. } => id.as_str(),
            Command::GetFileInfo { id, .. } => id.as_str(),
            Command::SearchFiles { id, .. } => id.as_str(),
            Command::ListArchive { id, .. } => id.as_str(),
            Command::ReadArchiveFile { id, .. } => id.as_str(),
            Command::ExtractArchive { id, .. } => id.as_str(),
        }
    }
}

/// What a node of the host's file system is.
#[derive(Debug, Clone, Copy, PartialEq, Eq, Structural)]
pub enum FileType {
    File,
    Directory,
    Symlink,
}

/// One node of the host's file system.
#[derive(Debug, Clone)]
pub struct FileInfo {
    pub name: String,
    pub path: String,
    pub file_type: FileType,
    pub size: u64,
    pub created: i64,
    pub modified: i64,
    pub accessed: i64,
    pub permissions: String,
    pub is_hidden: bool,
}

/// The children of a directory of the host.
#[derive(Debug, Clone)]
pub struct DirectoryListing {
    pub path: String,
    pub entries: Vec<FileInfo>,
    pub total_size: u64,
}

/// The content of a file, as text or in base64.
#[derive(Debug, Clone)]
pub struct FileContent {
    pub path: String,
    pub content: String,
    pub encoding: String,
    pub size: u64,
}

/// The outcome of a command that changes something.
#[derive(Debug, Clone)]
pub struct OperationResult {
    pub success: bool,
    pub message: Option<String>,
    pub affected_paths: Option<Vec<String>>,
}

/// The matches of a search.
#[derive(Debug, Clone)]
pub struct SearchResult {
    pub path: String,
    pub matches: Vec<FileInfo>,
    pub total_matches: usize,
}

/// What a successful command answers with.
#[derive(Debug, Clone)]
pub enum ResponseData {
    DirectoryListing(DirectoryListing),
    FileContent(FileContent),
    FileInfo(FileInfo),
    OperationResult(OperationResult),
    SearchResult(SearchResult),
    DrivesList(DrivesList),
    OsInfo(OsInfo),
    ArchiveListing(ArchiveListing),
}

/// What a client authenticates with.
#[derive(Debug, Clone)]
pub struct AuthPayload {
    pub token: String,
}

/// How many bytes at the front of a content are looked at to tell text
/// from binary.
pub const BINARY_SAMPLE: usize = 8192;

/// `bytes` holds a zero byte among its first `BINARY_SAMPLE` bytes.
pub open spec fn has_zero_in_sample(bytes: Seq<u8>) -> bool {
    exists|i: int| 0 <= i < bytes.len() && i < BINARY_SAMPLE && bytes[i] == 0
}

/// Whether a content counts as binary: it holds a zero byte among its
/// first 8192 bytes.
pub fn is_binary(bytes: &Vec<u8>) -> (r: bool)
    ensures
        r == has_zero_in_sample(bytes@),
{
    let mut i: usize = 0;
    while i < bytes.len() && i < BINARY_SAMPLE
        invariant
            i <= bytes.len(),
            i <= BINARY_SAMPLE,
            forall|j: int| 0 <= j < i ==> bytes@[j] != 0,
        decreases bytes.len() - i,
    {
        if bytes[i] == 0 {
            return true;
        }
        i += 1;
    }
    false
}

/// A content is sent in base64 where the client asks for it or the content
/// counts as binary, and as text otherwise.
pub open spec fn sent_as_base64(requested: Option<Seq<char>>, bytes: Seq<u8>) -> bool {
    requested == Some("base64"@) || has_zero_in_sample(bytes)
}

/// Whether the content of an archive entry is sent in base64 rather than as
/// text.
pub fn wants_base64(requested: Option<&str>, bytes: &Vec<u8>) -> (r: bool)
    ensures
        r == sent_as_base64(
            match requested {
                Some(e) => Some(e@),
                None => None,
            },
            bytes@,
        ),
{
    let asked = match requested {
        Some(e) => {
            let wanted = "base64";
            let a = crate::text::chars_of(e);
            let b = crate::text::chars_of(wanted);
            crate::paths::same_chars(&a, &b)
        },
        None => false,
    };
    asked || is_binary(bytes)
}

/// The character that stands for the six-bit value `v` in base64.
pub open spec fn sextet_char(v: int) -> char {
    if v < 26 {
        (65 + v) as u8 as char
    } else if v < 52 {
        (71 + v) as u8 as char
    } else if v < 62 {
        (v - 4) as u8 as char
    } else if v == 62 {
        '+'
    } else {
        '/'
    }
}

/// The four characters that stand for a group of up to three bytes: `n` of
/// `b0`, `b1`, `b2` are data, the others are 0 and show as padding.
pub open spec fn encoded_group(b0: u8, b1: u8, b2: u8, n: int) -> Seq<char> {
    seq![
        sextet_char(b0 as int / 4),
        sextet_char((b0 as int % 4) * 16 + b1 as int / 16),
        if n > 1 {
            sextet_char((b1 as int % 16) * 4 + b2 as int / 64)
        } else {
            '='
        },
        if n > 2 {
            sextet_char(b2 as int % 64)
        } else {
            '='
        },
    ]
}

/// `data` in base64 with the standard alphabet and padding.
pub open spec fn encoded(data: Seq<u8>) -> Seq<char>
    decreases data.len(),
{
    if data.len() == 0 {
        Seq::<char>::empty()
    } else if data.len() == 1 {
        encoded_group(data[0], 0, 0, 1)
    } else if data.len() == 2 {
        encoded_group(data[0], data[1], 0, 2)
    } else {
        encoded_group(data[0], data[1], data[2], 3) + encoded(data.skip(3))
    }
}

/// The character that stands for the six-bit value `v`.
fn sextet(v: u8) -> (c: char)
    requires
        v < 64,
    ensures
        c == sextet_char(v as int),
{
    if v < 26 {
        (65 + v) as char
    } else if v < 52 {
        (71 + v) as char
    } else if v < 62 {
        (v - 4) as char
    } else if v == 62 {
        '+'
    } else {
        '/'
    }
}

/// `data` in base64 with the standard alphabet and padding.
pub fn encode(data: &Vec<u8>) -> (out: String)
    ensures
        out@ == encoded(data@),
        out@.len() == 4 * ((data@.len() + 2) / 3),
{
    let mut out = String::new();
    let n = data.len();
    let mut i: usize = 0;
    assert(data@.skip(0) =~= data@);
    while i < n
        invariant
            i <= n == data.len(),
            i % 3 == 0,
            out@.len() == 4 * (i as int / 3),
            out@ + encoded(data@.skip(i as int)) == encoded(data@),
        decreases n - i,
    {
        let ghost rest = data@.skip(i as int);
        let ghost before = out@;
        let left = n - i;
        let b0 = data[i];
        let b1 = if left > 1 {
            data[i + 1]
        } else {
            0
        };
        let b2 = if left > 2 {
            data[i + 2]
        } else {
            0
        };
        out.push(sextet(b0 / 4));
        out.push(sextet((b0 % 4) * 16 + b1 / 16));
        if left > 1 {
            out.push(sextet((b1 % 16) * 4 + b2 / 64));
        } else {
            out.push('=');
        }
        if left > 2 {
            out.push(sextet(b2 % 64));
        } else {
            out.push('=');
        }
        proof {
            let count: int = if left > 2 {
                3
            } else {
                left as int
            };
            assert(rest[0] == b0);
            assert(out@ =~= before + encoded_group(b0, b1, b2, count));
            if left > 2 {
                assert(rest[1] == b1 && rest[2] == b2);
                assert(rest.skip(3) =~= data@.skip(i + 3));
                assert(before + (encoded_group(b0, b1, b2, 3) + encoded(rest.skip(3))) =~= (before
                    + encoded_group(b0, b1, b2, 3)) + encoded(rest.skip(3)));
            } else {
                if left > 1 {
                    assert(rest[1] == b1);
                }
                assert(data@.skip(n as int) =~= Seq::<u8>::empty());
                assert(out@ + Seq::<char>::empty() =~= out@);
            }
        }
        if left > 2 {
            i += 3;
        } else {
            assert(out@.len() == 4 * ((n as int + 2) / 3));
            assert(out@ + encoded(data@.skip(n as int)) == encoded(data@));
            assert(out@ + Seq::<char>::empty() =~= out@);
            return out;
        }
    }
    assert(data@.skip(n as int) =~= Seq::<u8>::empty());
    assert(out@ + Seq::<char>::empty() =~= out@);
    out
}

} // verus!
