//! The error type of the library.

use crate::text::concat2;
use vstd::prelude::*;
use vstd::string::StringExecFns;

verus! {

/// What can go wrong in the filesystem. Failures of a store, a disk, a bucket or
/// a connection carry the text that their owner gave.
#[derive(Debug, PartialEq, Eq)]
pub enum FvfsError {
    /// There is no such file.
    NotFound { path: String },
    /// The path is taken.
    AlreadyExists { path: String },
    /// The text is not a path.
    InvalidPath(String),
    /// A storage backend failed.
    Backend { tier: String, source: String },
    /// The metadata store failed.
    Metadata(String),
    /// A value could not be encoded or decoded.
    Serde(String),
    /// A disk operation failed.
    Io(String),
    /// The object store failed.
    S3(String),
    /// The write-ahead log holds something unreadable.
    Wal(String),
    /// The configuration cannot be used.
    Config(String),
    /// Access is refused.
    PermissionDenied(String),
    /// A directory was expected.
    NotADirectory { path: String },
    /// A file was expected.
    IsADirectory { path: String },
    /// The directory still has entries.
    DirectoryNotEmpty { path: String },
    /// Anything else.
    Other(String),
}

/// The mathematical value of an [`FvfsError`].
pub enum ErrorView {
    NotFound(Seq<char>),
    AlreadyExists(Seq<char>),
    InvalidPath(Seq<char>),
    Backend(Seq<char>, Seq<char>),
    Metadata(Seq<char>),
    Serde(Seq<char>),
    Io(Seq<char>),
    S3(Seq<char>),
    Wal(Seq<char>),
    Config(Seq<char>),
    PermissionDenied(Seq<char>),
    NotADirectory(Seq<char>),
    IsADirectory(Seq<char>),
    DirectoryNotEmpty(Seq<char>),
    Other(Seq<char>),
}

impl View for FvfsError {
    type V = ErrorView;

    open spec fn view(&self) -> ErrorView {
        match self {
            FvfsError::NotFound { path } => ErrorView::NotFound(path@),
            FvfsError::AlreadyExists { path } => ErrorView::AlreadyExists(path@),
            FvfsError::InvalidPath(s) => ErrorView::InvalidPath(s@),
            FvfsError::Backend { tier, source } => ErrorView::Backend(tier@, source@),
            FvfsError::Metadata(s) => ErrorView::Metadata(s@),
            FvfsError::Serde(s) => ErrorView::Serde(s@),
            FvfsError::Io(s) => ErrorView::Io(s@),
            FvfsError::S3(s) => ErrorView::S3(s@),
            FvfsError::Wal(s) => ErrorView::Wal(s@),
            FvfsError::Config(s) => ErrorView::Config(s@),
            FvfsError::PermissionDenied(s) => ErrorView::PermissionDenied(s@),
            FvfsError::NotADirectory { path } => ErrorView::NotADirectory(path@),
            FvfsError::IsADirectory { path } => ErrorView::IsADirectory(path@),
            FvfsError::DirectoryNotEmpty { path } => ErrorView::DirectoryNotEmpty(path@),
            FvfsError::Other(s) => ErrorView::Other(s@),
        }
    }
}

/// The message of an error, as a user reads it.
pub open spec fn error_text(e: ErrorView) -> Seq<char> {
    match e {
        ErrorView::NotFound(p) => "file not found: "@ + p,
        ErrorView::AlreadyExists(p) => "path already exists: "@ + p,
        ErrorView::InvalidPath(s) => "invalid path: "@ + s,
        ErrorView::Backend(t, s) => "storage backend error ("@ + t + "): "@ + s,
        ErrorView::Metadata(s) => "metadata store error: "@ + s,
        ErrorView::Serde(s) => "serialization error: "@ + s,
        ErrorView::Io(s) => "I/O error: "@ + s,
        ErrorView::S3(s) => "S3 error: "@ + s,
        ErrorView::Wal(s) => "WAL error: "@ + s,
        ErrorView::Config(s) => "configuration error: "@ + s,
        ErrorView::PermissionDenied(s) => "permission denied: "@ + s,
        ErrorView::NotADirectory(p) => "not a directory: "@ + p,
        ErrorView::IsADirectory(p) => "is a directory: "@ + p,
        ErrorView::DirectoryNotEmpty(p) => "directory not empty: "@ + p,
        ErrorView::Other(s) => s,
    }
}

impl FvfsError {
    /// The message of the error.
    pub fn message(&self) -> (r: String)
        ensures
            r@ == error_text(self@),
    {
        match self {
            FvfsError::NotFound { path } => concat2("file not found: ", path.as_str()),
            FvfsError::AlreadyExists { path } => concat2("path already exists: ", path.as_str()),
            FvfsError::InvalidPath(s) => concat2("invalid path: ", s.as_str()),
            FvfsError::Backend { tier, source } => {
                let mut r = concat2("storage backend error (", tier.as_str());
                r.append("): ");
                r.append(source.as_str());
                r
            },
            FvfsError::Metadata(s) => concat2("metadata store error: ", s.as_str()),
            FvfsError::Serde(s) => concat2("serialization error: ", s.as_str()),
            FvfsError::Io(s) => concat2("I/O error: ", s.as_str()),
            FvfsError::S3(s) => concat2("S3 error: ", s.as_str()),
            FvfsError::Wal(s) => concat2("WAL error: ", s.as_str()),
            FvfsError::Config(s) => concat2("configuration error: ", s.as_str()),
            FvfsError::PermissionDenied(s) => concat2("permission denied: ", s.as_str()),
            FvfsError::NotADirectory { path } => concat2("not a directory: ", path.as_str()),
            FvfsError::IsADirectory { path } => concat2("is a directory: ", path.as_str()),
            FvfsError::DirectoryNotEmpty { path } => concat2("directory not empty: ", path.as_str()),
            FvfsError::Other(s) => s.clone(),
        }
    }
}

// ---------------------------------------------------------------------------
// Laws of messages

/// What an error is about: the path, or the text that its owner gave.
pub open spec fn subject_of(e: ErrorView) -> Seq<char> {
    match e {
        ErrorView::NotFound(p) => p,
        ErrorView::AlreadyExists(p) => p,
        ErrorView::InvalidPath(s) => s,
        ErrorView::Backend(_, s) => s,
        ErrorView::Metadata(s) => s,
        ErrorView::Serde(s) => s,
        ErrorView::Io(s) => s,
        ErrorView::S3(s) => s,
        ErrorView::Wal(s) => s,
        ErrorView::Config(s) => s,
        ErrorView::PermissionDenied(s) => s,
        ErrorView::NotADirectory(p) => p,
        ErrorView::IsADirectory(p) => p,
        ErrorView::DirectoryNotEmpty(p) => p,
        ErrorView::Other(s) => s,
    }
}

/// `text` ends with `end`.
pub open spec fn ends_with(text: Seq<char>, end: Seq<char>) -> bool {
    end.len() <= text.len() && text.skip(text.len() - end.len()) == end
}

/// The message of an error ends with what it is about, and that of a storage backend names
/// the tier.
pub proof fn law_message_names_the_subject(e: ErrorView)
    ensures
        ends_with(error_text(e), subject_of(e)),
        e matches ErrorView::Backend(tier, _) ==> crate::text::has_text(error_text(e), tier),
{
    if let ErrorView::Backend(tier, s) = e {
        let before = "storage backend error ("@;
        crate::text::law_text_is_found(before, tier, "): "@ + s);
        assert(error_text(e) =~= before + tier + ("): "@ + s));
    }
    let t = error_text(e);
    let s = subject_of(e);
    assert(t.skip(t.len() - s.len()) =~= s);
}

} // verus!
