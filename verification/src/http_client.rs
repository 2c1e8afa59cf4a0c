//! The decisions of the client of the HTTP API: where a request goes, and what its
//! answer means.

use crate::error::ErrorView;
use crate::error::FvfsError;
use crate::path::VfsPath;
use crate::text::concat2;
use crate::text::concat3;
use crate::text::trim_start;
use crate::text::trim_start_of;
use vstd::prelude::*;

verus! {

// ---------------------------------------------------------------------------
// Addresses

/// What parsing a text as a URL gives: the URL's own text, or the message of the error.
pub uninterp spec fn parsed_url(text: Seq<char>) -> Result<Seq<char>, Seq<char>>;

/// The text of the URL that a relative reference names from a base URL, given by its
/// text; none where the reference cannot be resolved.
pub uninterp spec fn joined_url(base: Seq<char>, reference: Seq<char>) -> Option<Seq<char>>;

/// `reqwest::Url::parse`, with the URL and the error as texts: the same text always
/// gives the same result.
#[verifier::external_body]
fn parse_url(text: &str) -> (r: Result<String, String>)
    ensures
        parsed_url(text@) == (match r {
            Ok(u) => Ok::<Seq<char>, Seq<char>>(u@),
            Err(e) => Err(e@),
        }),
{
    match reqwest::Url::parse(text) {
        Ok(u) => Ok(u.to_string()),
        Err(e) => Err(e.to_string()),
    }
}

/// `reqwest::Url::join`, with the URLs as texts: the same base and reference always give
/// the same result. A base that is no URL resolves nothing.
#[verifier::external_body]
fn join_url(base: &str, reference: &str) -> (r: Option<String>)
    ensures
        joined_url(base@, reference@) == (match r {
            Some(u) => Some(u@),
            None => None,
        }),
{
    match reqwest::Url::parse(base).and_then(|b| b.join(reference)) {
        Ok(u) => Some(u.to_string()),
        Err(_) => None,
    }
}

/// Where the daemon is reached.
#[derive(Debug, PartialEq, Eq)]
pub struct VfsdClient {
    base_url: String,
}

impl View for VfsdClient {
    type V = Seq<char>;

    /// The text of the base URL.
    closed spec fn view(&self) -> Seq<char> {
        self.base_url@
    }
}

/// The request path of a file's content.
pub open spec fn files_path(path: Seq<char>) -> Seq<char> {
    "/v1/files"@ + path
}

/// The request path of a file's metadata.
pub open spec fn meta_path(path: Seq<char>) -> Seq<char> {
    "/v1/meta"@ + path
}

/// The request path of a directory's listing.
pub open spec fn ls_path(path: Seq<char>) -> Seq<char> {
    "/v1/ls"@ + path
}

/// The address of a request path, from a base; the base itself where it cannot be
/// resolved.
pub open spec fn address(base: Seq<char>, path: Seq<char>) -> Seq<char> {
    address_of(base, joined_url(base, trim_start(path, '/')))
}

/// The address that a resolution gives: the base itself where there is none.
pub open spec fn address_of(base: Seq<char>, joined: Option<Seq<char>>) -> Seq<char> {
    match joined {
        Some(u) => u,
        None => base,
    }
}

/// The address that a resolution gives.
pub fn resolved_or(base: &str, joined: Option<String>) -> (r: String)
    ensures
        r@ == address_of(base@, crate::types::opt_text(joined)),
{
    match joined {
        Some(u) => u,
        None => base.to_owned(),
    }
}

impl VfsdClient {
    /// A client of the daemon at the URL; the message of the error where it is none.
    pub fn new(base_url: &str) -> (r: Result<VfsdClient, String>)
        ensures
            parsed_url(base_url@) == (match r {
                Ok(c) => Ok::<Seq<char>, Seq<char>>(c@),
                Err(e) => Err(e@),
            }),
    {
        match parse_url(base_url) {
            Ok(base_url) => Ok(VfsdClient { base_url }),
            Err(e) => Err(e),
        }
    }

    /// The address of a request path.
    pub fn url(&self, path: &str) -> (r: String)
        ensures
            r@ == address(self@, path@),
    {
        let reference = trim_start_of(path, '/');
        let joined = join_url(self.base_url.as_str(), reference.as_str());
        resolved_or(self.base_url.as_str(), joined)
    }

    /// The address of a file's content.
    pub fn files_url(&self, path: &VfsPath) -> (r: String)
        ensures
            r@ == address(self@, files_path(path@)),
    {
        let p = concat2("/v1/files", path.as_str());
        self.url(p.as_str())
    }

    /// The address of a file's metadata.
    pub fn meta_url(&self, path: &VfsPath) -> (r: String)
        ensures
            r@ == address(self@, meta_path(path@)),
    {
        let p = concat2("/v1/meta", path.as_str());
        self.url(p.as_str())
    }

    /// The address of a directory's listing.
    pub fn ls_url(&self, path: &VfsPath) -> (r: String)
        ensures
            r@ == address(self@, ls_path(path@)),
    {
        let p = concat2("/v1/ls", path.as_str());
        self.url(p.as_str())
    }

    /// The address of the health report.
    pub fn status_url(&self) -> (r: String)
        ensures
            r@ == address(self@, "/v1/status"@),
    {
        self.url("/v1/status")
    }

    /// The address of the write-ahead log.
    pub fn wal_url(&self) -> (r: String)
        ensures
            r@ == address(self@, "/v1/admin/wal"@),
    {
        self.url("/v1/admin/wal")
    }
}

// ---------------------------------------------------------------------------
// Answers

/// A status code as it is displayed: the number and what it is commonly called.
pub uninterp spec fn status_display(code: u16) -> Seq<char>;

/// The `Display` of `reqwest::StatusCode`, and of the error for a number that is none:
/// the same number always gives the same text.
#[verifier::external_body]
fn display_status(code: u16) -> (r: String)
    ensures
        r@ == status_display(code),
{
    match reqwest::StatusCode::from_u16(code) {
        Ok(s) => s.to_string(),
        Err(e) => e.to_string(),
    }
}

/// The status says that the request succeeded.
pub open spec fn succeeded(status: u16) -> bool {
    200 <= status < 300
}

/// The error for a status that says that a request about the path failed; `display` is
/// how the status is displayed.
pub open spec fn http_error(status: u16, display: Seq<char>, path: Seq<char>) -> ErrorView {
    if status == 404 {
        ErrorView::NotFound(path)
    } else if status == 409 {
        ErrorView::AlreadyExists(path)
    } else if status == 403 {
        ErrorView::PermissionDenied(path)
    } else if status == 400 {
        ErrorView::InvalidPath(path)
    } else {
        ErrorView::Other("HTTP "@ + display)
    }
}

/// The error for a status, given how it is displayed.
pub fn http_error_for(status: u16, display: &str, path: &VfsPath) -> (r: FvfsError)
    ensures
        r@ == http_error(status, display@, path@),
{
    match status {
        404 => FvfsError::NotFound { path: path.text() },
        409 => FvfsError::AlreadyExists { path: path.text() },
        403 => FvfsError::PermissionDenied(path.text()),
        400 => FvfsError::InvalidPath(path.text()),
        _ => FvfsError::Other(concat2("HTTP ", display)),
    }
}

/// The error for a status.
pub fn map_http_error(status: u16, path: &VfsPath) -> (r: FvfsError)
    ensures
        r@ == http_error(status, status_display(status), path@),
{
    let display = display_status(status);
    http_error_for(status, display.as_str(), path)
}

/// What the status of an answer about the path means: success, or an error.
pub fn check_status(status: u16, path: &VfsPath) -> (r: Result<(), FvfsError>)
    ensures
        match r {
            Ok(_) => succeeded(status),
            Err(e) => !succeeded(status) && e@ == http_error(status, status_display(status), path@),
        },
{
    if 200 <= status && status < 300 {
        Ok(())
    } else {
        Err(map_http_error(status, path))
    }
}

/// What the status of the answer to a deletion means. What is not there is as good as
/// deleted.
pub fn check_delete(status: u16, path: &VfsPath) -> (r: Result<(), FvfsError>)
    ensures
        match r {
            Ok(_) => succeeded(status) || status == 404,
            Err(e) => !succeeded(status) && status != 404 && e@ == http_error(
                status,
                status_display(status),
                path@,
            ),
        },
{
    if status == 404 {
        Ok(())
    } else {
        check_status(status, path)
    }
}

/// The error for a request that was not answered, or whose answer could not be read.
pub fn transport_error(what: &str, message: &str) -> (r: FvfsError)
    ensures
        r@ == ErrorView::Other(what@ + ": "@ + message@),
{
    FvfsError::Other(concat3(what, ": ", message))
}

// ---------------------------------------------------------------------------
// Laws of errors

/// What the client makes of the daemon's refusal: a missing file, a taken path and a
/// refused access come through, about the path that was asked for; a directory in place
/// of a file, and a file in place of a directory, come through as an invalid path.
pub proof fn law_errors_come_through(e: ErrorView, display: Seq<char>, path: Seq<char>)
    ensures
        !succeeded(crate::http_api::status_of(e)),
        http_error(crate::http_api::status_of(e), display, path) == (match e {
            ErrorView::NotFound(_) => ErrorView::NotFound(path),
            ErrorView::AlreadyExists(_) => ErrorView::AlreadyExists(path),
            ErrorView::PermissionDenied(_) => ErrorView::PermissionDenied(path),
            ErrorView::IsADirectory(_) => ErrorView::InvalidPath(path),
            ErrorView::NotADirectory(_) => ErrorView::InvalidPath(path),
            _ => ErrorView::Other("HTTP "@ + display),
        }),
{
}

/// What is resolved against the base is the request path without the slash in front, and the
/// path of the file, with its own slash, is at its end.
pub proof fn law_requests_are_relative(p: Seq<char>)
    ensures
        trim_start(files_path(p), '/') == "v1/files"@ + p,
        trim_start(meta_path(p), '/') == "v1/meta"@ + p,
        trim_start(ls_path(p), '/') == "v1/ls"@ + p,
        trim_start("/v1/status"@, '/') == "v1/status"@,
        trim_start("/v1/admin/wal"@, '/') == "v1/admin/wal"@,
{
    reveal_strlit("/v1/files");
    reveal_strlit("/v1/meta");
    reveal_strlit("/v1/ls");
    reveal_strlit("/v1/status");
    reveal_strlit("/v1/admin/wal");
    reveal_strlit("v1/files");
    reveal_strlit("v1/meta");
    reveal_strlit("v1/ls");
    reveal_strlit("v1/status");
    reveal_strlit("v1/admin/wal");
    reveal_with_fuel(trim_start, 2);
    let a = files_path(p);
    let b = meta_path(p);
    let c = ls_path(p);
    let d = "/v1/status"@;
    let e = "/v1/admin/wal"@;
    assert(a.subrange(1, a.len() as int) =~= "v1/files"@ + p);
    assert(b.subrange(1, b.len() as int) =~= "v1/meta"@ + p);
    assert(c.subrange(1, c.len() as int) =~= "v1/ls"@ + p);
    assert(d.subrange(1, d.len() as int) =~= "v1/status"@);
    assert(e.subrange(1, e.len() as int) =~= "v1/admin/wal"@);
}

} // verus!
