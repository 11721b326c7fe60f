//! One file as discovery saw it.

use vstd::prelude::*;
use vstd::string::*;
use std::path::PathBuf;
use crate::domain::error::FilesystemError;
use crate::domain::file_type::{category_of_extension, FileType};
use crate::domain::timestamp::Timestamp;

verus! {

/// `std::path::PathBuf`, carried through as an opaque value.
#[verifier::external_type_specification]
#[verifier::external_body]
pub struct ExPathBuf(PathBuf);

/// `Clone::clone` of `PathBuf`. Trusted: the copy is the same path.
pub assume_specification[ <PathBuf as Clone>::clone ](path: &PathBuf) -> (r: PathBuf)
    ensures
        r == *path,
;

/// A path together with what its last component says: the file name and
/// the extension, each absent where the path has none or where it is not
/// valid Unicode.
#[derive(Debug, Clone)]
pub struct PathParts {
    pub path: PathBuf,
    pub file_name: Option<String>,
    pub extension: Option<String>,
}

/// What the file system tells about a file: its length in bytes and the
/// instant of its last modification.
#[derive(Debug, Clone, Copy, PartialEq, Eq, Structural)]
pub struct FileMetadata {
    pub size: u64,
    pub modified: Timestamp,
}

/// A snapshot of one file at discovery time.
#[derive(Debug, Clone)]
pub struct FileEntry {
    pub path: PathBuf,
    pub name: String,
    pub size: u64,
    pub modified_date: Timestamp,
    pub file_type: FileType,
}

/// The mathematical value of a `FileEntry`.
pub ghost struct FileEntryView {
    pub path: PathBuf,
    pub name: Seq<char>,
    pub size: u64,
    pub modified_date: Timestamp,
    pub file_type: FileType,
}

impl View for FileEntry {
    type V = FileEntryView;

    open spec fn view(&self) -> FileEntryView {
        FileEntryView {
            path: self.path,
            name: self.name@,
            size: self.size,
            modified_date: self.modified_date,
            file_type: self.file_type,
        }
    }
}

/// The mathematical values of a sequence of entries, in the same order.
pub open spec fn entry_views(entries: Seq<FileEntry>) -> Seq<FileEntryView> {
    Seq::new(entries.len(), |i: int| entries[i]@)
}

impl PathParts {
    /// The display name: the file name, or `unknown` where there is none.
    pub open spec fn display_name(self) -> Seq<char> {
        match self.file_name {
            Some(n) => n@,
            None => "unknown"@,
        }
    }

    /// The extension, empty where there is none.
    pub open spec fn extension_text(self) -> Seq<char> {
        match self.extension {
            Some(e) => e@,
            None => Seq::empty(),
        }
    }

    /// The entry of the file at this path with the given metadata.
    pub open spec fn entry(self, metadata: FileMetadata) -> FileEntryView {
        FileEntryView {
            path: self.path,
            name: self.display_name(),
            size: metadata.size,
            modified_date: metadata.modified,
            file_type: category_of_extension(self.extension_text()),
        }
    }
}

impl FileEntry {
    /// The entry of the file at `parts.path`, of which the file system gave
    /// `metadata`. Where it refused, the refusal is handed on unchanged.
    pub fn from_path(parts: PathParts, metadata: Result<FileMetadata, FilesystemError>) -> (r:
        Result<FileEntry, FilesystemError>)
        ensures
            match metadata {
                Ok(m) => r is Ok && r->Ok_0@ == parts.entry(m),
                Err(e) => r == Err::<FileEntry, FilesystemError>(e),
            },
    {
        match metadata {
            Ok(m) => Ok(FileEntry::from_parts(parts, m)),
            Err(e) => Err(e),
        }
    }

    /// The entry of the file at `parts.path` with the given metadata.
    pub fn from_parts(parts: PathParts, metadata: FileMetadata) -> (r: FileEntry)
        ensures
            r@ == parts.entry(metadata),
    {
        let file_type = match &parts.extension {
            Some(e) => FileType::from_extension(e.as_str()),
            None => FileType::Binary,
        };
        let name = match parts.file_name {
            Some(n) => n,
            None => "unknown".to_owned(),
        };
        FileEntry {
            path: parts.path,
            name,
            size: metadata.size,
            modified_date: metadata.modified,
            file_type,
        }
    }
}

} // verus!
