//! The canonical data model: bookmark records produced by the dialect
//! parsers, and the descriptors handed to and from the surrounding
//! application.

use vstd::prelude::*;

verus! {

/// Whether a bookmark carries a quick-recall mnemonic.
#[derive(Clone, Copy, PartialEq, Eq, Structural, Debug)]
pub enum BookmarkKind {
    Anonymous,
    Mnemonic,
}

/// Mathematical view of a `ParsedBookmark`.
pub struct BookmarkV {
    pub project_name: Seq<char>,
    pub file_name: Seq<char>,
    pub file_path: Seq<char>,
    pub line_number: int,
    pub description: Seq<char>,
    pub mnemonic: Option<Seq<char>>,
    pub kind: BookmarkKind,
}

/// A bookmark extracted from one of the markup dialects.
/// `line_number` is 1-indexed; the parsers convert from the 0-indexed
/// values stored in the source text exactly once, at extraction time.
pub struct ParsedBookmark {
    pub project_name: String,
    pub file_name: String,
    pub file_path: String,
    pub line_number: i32,
    pub description: String,
    pub mnemonic: Option<String>,
    pub kind: BookmarkKind,
}

impl View for ParsedBookmark {
    type V = BookmarkV;

    open spec fn view(&self) -> BookmarkV {
        BookmarkV {
            project_name: self.project_name@,
            file_name: self.file_name@,
            file_path: self.file_path@,
            line_number: self.line_number as int,
            description: self.description@,
            mnemonic: match self.mnemonic {
                Option::Some(m) => Option::Some(m@),
                Option::None => Option::None,
            },
            kind: self.kind,
        }
    }
}

/// The views of a sequence of bookmark records.
pub open spec fn bookmarks_view(s: Seq<ParsedBookmark>) -> Seq<BookmarkV> {
    Seq::new(s.len(), |i: int| s[i]@)
}

/// A discovered IDE installation: read-only descriptor, recomputed on
/// every query by the surrounding application.
pub struct IdeaVersion {
    pub name: String,
    pub path: String,
    pub workspace_path: String,
}

/// A candidate workspace file: read-only descriptor supplied by the
/// surrounding application.
pub struct WorkspaceFile {
    pub name: String,
    pub path: String,
    pub modified_at: String,
}

/// Mathematical view of a `BackupFile`.
pub struct BackupFileV {
    pub id: Seq<char>,
    pub original_file_name: Seq<char>,
    pub timestamp: Seq<char>,
    pub path: Seq<char>,
    pub projects: Seq<Seq<char>>,
}

/// One entry of a backup listing: the identifier is the literal backup
/// file name and the join key into the metadata ledger.
pub struct BackupFile {
    pub id: String,
    pub original_file_name: String,
    pub timestamp: String,
    pub path: String,
    pub projects: Vec<String>,
}

impl View for BackupFile {
    type V = BackupFileV;

    open spec fn view(&self) -> BackupFileV {
        BackupFileV {
            id: self.id@,
            original_file_name: self.original_file_name@,
            timestamp: self.timestamp@,
            path: self.path@,
            projects: crate::strutil::views_of(self.projects@),
        }
    }
}

/// The views of a sequence of backup entries.
pub open spec fn backups_view(s: Seq<BackupFile>) -> Seq<BackupFileV> {
    Seq::new(s.len(), |i: int| s[i]@)
}

/// A user-curated bookmark row as the relational store keeps it.
pub struct Bookmark {
    pub id: Option<i64>,
    pub title: String,
    pub file_path: String,
    pub line_number: i32,
    pub content: String,
    pub created_at: Option<String>,
    pub project: String,
}

} // verus!
