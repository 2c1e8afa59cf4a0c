//! The object store: how paths become keys and back, how failures are told apart, and
//! how a listing is put together from its pages.

use crate::error::ErrorView;
use crate::error::FvfsError;
use crate::path::normal_form;
use crate::path::path_prefix;
use crate::path::valid_path;
use crate::path::VfsPath;
use crate::text::concat2;
use crate::text::concat3;
use crate::text::has_text;
use crate::text::starts_with;
use crate::text::strip_text_prefix;
use crate::text::text_contains;
use crate::text::trim_end;
use crate::text::trim_end_of;
use crate::text::trim_start;
use crate::text::trim_start_of;
use crate::tier::Tier;
use crate::tier::TierBitmask;
use crate::types::EntryKind;
use crate::types::EntryView;
use crate::types::FileEntry;
use vstd::prelude::*;

verus! {

// ---------------------------------------------------------------------------
// Keys

/// The key of a path: the prefix, without slashes at its end, and the path below it.
pub open spec fn key_of(prefix: Seq<char>, path: Seq<char>) -> Seq<char> {
    let rel = trim_start(path, '/');
    if prefix.len() == 0 {
        rel
    } else if rel.len() == 0 {
        trim_end(prefix, '/')
    } else {
        trim_end(prefix, '/') + seq!['/'] + rel
    }
}

/// What the keys of everything below a path start with.
pub open spec fn listing_prefix(prefix: Seq<char>, path: Seq<char>) -> Seq<char> {
    let key = key_of(prefix, path);
    if key == seq!['/'] || key.len() == 0 {
        prefix
    } else {
        trim_end(key, '/') + seq!['/']
    }
}

/// What is left of a key without the prefix.
pub open spec fn key_rest(prefix: Seq<char>, key: Seq<char>) -> Seq<char> {
    if prefix.len() == 0 {
        key
    } else {
        let p = trim_end(prefix, '/');
        trim_start(
            if starts_with(key, p) {
                key.subrange(p.len() as int, key.len() as int)
            } else {
                key
            },
            '/',
        )
    }
}

/// The path that a key stands for.
pub open spec fn path_of_key(prefix: Seq<char>, key: Seq<char>) -> Seq<char> {
    let text = seq!['/'] + key_rest(prefix, key);
    if crate::path::nameable(text) {
        normal_form(text)
    } else {
        "/unknown"@
    }
}

/// Where the files are in the object store.
#[derive(Debug, PartialEq, Eq)]
pub struct S3Backend {
    pub bucket: String,
    pub prefix: String,
}

impl S3Backend {
    /// The files of a bucket below a prefix.
    pub fn new(bucket: String, prefix: String) -> (r: S3Backend)
        ensures
            r.bucket@ == bucket@,
            r.prefix@ == prefix@,
    {
        S3Backend { bucket, prefix }
    }

    /// The key of a path.
    pub fn s3_key(&self, path: &VfsPath) -> (r: String)
        ensures
            r@ == key_of(self.prefix@, path@),
    {
        let rel = trim_start_of(path.as_str(), '/');
        if is_empty(self.prefix.as_str()) {
            rel
        } else {
            let prefix = trim_end_of(self.prefix.as_str(), '/');
            if is_empty(rel.as_str()) {
                prefix
            } else {
                proof {
                    reveal_strlit("/");
                    assert("/"@ =~= seq!['/']);
                }
                concat3(prefix.as_str(), "/", rel.as_str())
            }
        }
    }

    /// What the keys of everything below a path start with.
    pub fn list_prefix(&self, path: &VfsPath) -> (r: String)
        ensures
            r@ == listing_prefix(self.prefix@, path@),
    {
        let key = self.s3_key(path);
        proof {
            reveal_strlit("/");
            assert("/"@ =~= seq!['/']);
        }
        if crate::text::same_text(key.as_str(), "/") || is_empty(key.as_str()) {
            self.prefix.clone()
        } else {
            let trimmed = trim_end_of(key.as_str(), '/');
            concat2(trimmed.as_str(), "/")
        }
    }

    /// The path that a key stands for.
    pub fn key_path(&self, key: &str) -> (r: VfsPath)
        ensures
            r@ == path_of_key(self.prefix@, key@),
    {
        proof {
            reveal_strlit("/");
            assert("/"@ =~= seq!['/']);
        }
        let rest = if is_empty(self.prefix.as_str()) {
            key.to_owned()
        } else {
            let prefix = trim_end_of(self.prefix.as_str(), '/');
            match strip_text_prefix(key, prefix.as_str()) {
                Some(t) => trim_start_of(t.as_str(), '/'),
                None => trim_start_of(key, '/'),
            }
        };
        let text = concat2("/", rest.as_str());
        match VfsPath::new(text.as_str()) {
            Ok(p) => p,
            Err(_) => VfsPath::unknown(),
        }
    }
}

fn is_empty(s: &str) -> (r: bool)
    ensures
        r == (s@.len() == 0),
{
    crate::text::chars_of(s).len() == 0
}

// ---------------------------------------------------------------------------
// Failures

/// The failure says that there is no such object.
pub open spec fn says_missing(message: Seq<char>) -> bool {
    has_text(message, "NoSuchKey"@) || has_text(message, "404"@)
}

/// The error for a failed request about a path.
pub open spec fn s3_error(request: Seq<char>, message: Seq<char>, path: Seq<char>) -> ErrorView {
    if says_missing(message) {
        ErrorView::NotFound(path)
    } else {
        ErrorView::S3(request + ": "@ + message)
    }
}

/// Whether the failure says that there is no such object.
pub fn is_missing(message: &str) -> (r: bool)
    ensures
        r == says_missing(message@),
{
    text_contains(message, "NoSuchKey") || text_contains(message, "404")
}

/// The error for a request that failed with the message, whatever it was about.
pub fn request_error(request: &str, message: &str) -> (r: FvfsError)
    ensures
        r@ == ErrorView::S3(request@ + ": "@ + message@),
{
    FvfsError::S3(concat3(request, ": ", message))
}

/// The error for a request about a path that failed with the message.
pub fn object_error(request: &str, message: &str, path: &VfsPath) -> (r: FvfsError)
    ensures
        r@ == s3_error(request@, message@, path@),
{
    if is_missing(message) {
        FvfsError::NotFound { path: path.text() }
    } else {
        request_error(request, message)
    }
}

/// Whether an object exists, from what became of asking for its head.
pub fn exists_reply(head: Result<(), String>) -> (r: Result<bool, FvfsError>)
    ensures
        match (head, r) {
            (Ok(_), Ok(b)) => b,
            (Err(m), Ok(b)) => !b && says_missing(m@),
            (Err(m), Err(e)) => !says_missing(m@) && e@ == ErrorView::S3("head_object"@ + ": "@ + m@),
            (Ok(_), Err(_)) => false,
        },
{
    match head {
        Ok(_) => Ok(true),
        Err(m) => if is_missing(m.as_str()) {
            Ok(false)
        } else {
            Err(request_error("head_object", m.as_str()))
        },
    }
}

// ---------------------------------------------------------------------------
// Listings

/// An object as a page of a listing shows it.
#[derive(Debug, PartialEq, Eq)]
pub struct S3Object {
    pub key: Option<String>,
    pub size: Option<i64>,
    pub modified: Option<i64>,
}

/// A page of a listing.
#[derive(Debug, PartialEq, Eq)]
pub struct S3Page {
    pub objects: Vec<S3Object>,
    pub truncated: Option<bool>,
    pub next: Option<String>,
}

/// The mathematical value of an [`S3Object`].
pub struct ObjectView {
    pub key: Option<Seq<char>>,
    pub size: Option<i64>,
    pub modified: Option<i64>,
}

impl View for S3Object {
    type V = ObjectView;

    open spec fn view(&self) -> ObjectView {
        ObjectView {
            key: crate::types::opt_text(self.key),
            size: self.size,
            modified: self.modified,
        }
    }
}

/// The values of the objects of a page.
pub open spec fn objects_of(v: Seq<S3Object>) -> Seq<ObjectView> {
    v.map_values(|o: S3Object| o@)
}

/// The mathematical value of an [`S3Page`].
pub struct PageView {
    pub objects: Seq<ObjectView>,
    pub truncated: Option<bool>,
    pub next: Option<Seq<char>>,
}

impl View for S3Page {
    type V = PageView;

    open spec fn view(&self) -> PageView {
        PageView {
            objects: objects_of(self.objects@),
            truncated: self.truncated,
            next: crate::types::opt_text(self.next),
        }
    }
}

/// The value of a page or the message of its failure.
pub open spec fn page_result(r: Result<S3Page, String>) -> Result<PageView, Seq<char>> {
    match r {
        Ok(p) => Ok(p@),
        Err(m) => Err(m@),
    }
}

/// A number that may be missing: zero then.
pub open spec fn or_zero(n: Option<i64>) -> i64 {
    match n {
        Some(x) => x,
        None => 0,
    }
}

/// The entry of an object at the path.
pub open spec fn object_entry(path: Seq<char>, size: Option<i64>, modified: Option<i64>) -> EntryView {
    EntryView {
        path,
        kind: EntryKind::File,
        size_bytes: or_zero(size) as u64,
        modified_at: or_zero(modified),
        tiers: TierBitmask(0).with(Tier::S3),
    }
}

/// The entries of the objects of a page, without those that have no key.
pub open spec fn page_entries(prefix: Seq<char>, objects: Seq<ObjectView>) -> Seq<EntryView>
    decreases objects.len(),
{
    if objects.len() == 0 {
        Seq::empty()
    } else {
        let before = page_entries(prefix, objects.drop_last());
        let o = objects.last();
        match o.key {
            Some(k) => before.push(object_entry(path_of_key(prefix, k), o.size, o.modified)),
            None => before,
        }
    }
}

/// The entry of an object at the path.
pub fn object_metadata(path: VfsPath, size: Option<i64>, modified: Option<i64>) -> (r: FileEntry)
    ensures
        r@ == object_entry(path@, size, modified),
        r.path@ == path@,
        r.kind == EntryKind::File,
        size matches Some(n) ==> r.size_bytes == n as u64,
        size is None ==> r.size_bytes == 0,
        modified matches Some(n) ==> r.modified_at == n,
        modified is None ==> r.modified_at == 0,
        forall|t: Tier| #[trigger] r.tier_bitmask.holds(t) <==> t == Tier::S3,
{
    let mut tier_bitmask = TierBitmask::default();
    tier_bitmask.set(Tier::S3);
    proof {
        assert forall|t: Tier| #[trigger] tier_bitmask.holds(t) <==> t == Tier::S3 by {
            crate::tier::law_none_and_all(t);
        }
    }
    let size: i64 = match size {
        Some(n) => n,
        None => 0,
    };
    let modified_at: i64 = match modified {
        Some(n) => n,
        None => 0,
    };
    FileEntry {
        path,
        kind: EntryKind::File,
        size_bytes: #[verifier::truncate]
        (size as u64),
        modified_at,
        tier_bitmask,
    }
}

/// A request for a page of a listing.
#[derive(Debug, PartialEq, Eq)]
pub struct PageRequest {
    pub prefix: String,
    pub token: Option<String>,
}

/// A listing in progress: the entries so far.
#[derive(Debug, PartialEq, Eq)]
pub struct S3Listing {
    pub prefix: String,
    pub entries: Vec<FileEntry>,
}

/// The mathematical value of a [`PageRequest`].
pub struct RequestView {
    pub prefix: Seq<char>,
    pub token: Option<Seq<char>>,
}

/// The mathematical value of an [`S3Listing`].
pub struct ListingView {
    pub prefix: Seq<char>,
    pub entries: Seq<EntryView>,
}

impl View for PageRequest {
    type V = RequestView;

    open spec fn view(&self) -> RequestView {
        RequestView { prefix: self.prefix@, token: crate::types::opt_text(self.token) }
    }
}

impl View for S3Listing {
    type V = ListingView;

    open spec fn view(&self) -> ListingView {
        ListingView { prefix: self.prefix@, entries: crate::router::listed(self.entries@) }
    }
}

/// The mathematical value of a [`ListStep`].
pub enum ListStepView {
    Next(ListingView, RequestView),
    Done(Result<Seq<EntryView>, ErrorView>),
}

impl View for ListStep {
    type V = ListStepView;

    open spec fn view(&self) -> ListStepView {
        match self {
            ListStep::Next(l, r) => ListStepView::Next(l@, r@),
            ListStep::Done(r) => ListStepView::Done(
                match r {
                    Ok(es) => Ok(crate::router::listed(es@)),
                    Err(e) => Err(e@),
                },
            ),
        }
    }
}

/// What a listing does with a page. The entries of the page are added, and the next page
/// is asked for, with the page's token, if the page says that there is one.
pub open spec fn list_step(prefix: Seq<char>, l: ListingView, page: Result<PageView, Seq<char>>) -> ListStepView {
    match page {
        Ok(p) => {
            let all = l.entries + page_entries(prefix, p.objects);
            if p.truncated == Some(true) {
                ListStepView::Next(
                    ListingView { prefix: l.prefix, entries: all },
                    RequestView { prefix: l.prefix, token: p.next },
                )
            } else {
                ListStepView::Done(Ok(all))
            }
        },
        Err(m) => ListStepView::Done(Err(ErrorView::S3("list_objects_v2"@ + ": "@ + m))),
    }
}

/// The first state of a listing of everything below a path.
pub open spec fn list_start(prefix: Seq<char>, path: Seq<char>) -> ListingView {
    ListingView { prefix: listing_prefix(prefix, path), entries: Seq::empty() }
}

/// The first request of a listing of everything below a path.
pub open spec fn list_request(prefix: Seq<char>, path: Seq<char>) -> RequestView {
    RequestView { prefix: listing_prefix(prefix, path), token: None }
}

/// The outcome of one step of a listing.
#[derive(Debug, PartialEq, Eq)]
pub enum ListStep {
    /// Another page is asked for.
    Next(S3Listing, PageRequest),
    /// The listing is over.
    Done(Result<Vec<FileEntry>, FvfsError>),
}

impl S3Backend {
    /// Starts a listing of everything below a path.
    pub fn list(&self, path: &VfsPath) -> (r: (S3Listing, PageRequest))
        ensures
            r.0@ == list_start(self.prefix@, path@),
            r.1@ == list_request(self.prefix@, path@),
    {
        let prefix = self.list_prefix(path);
        let listing = S3Listing { prefix: prefix.clone(), entries: Vec::new() };
        assert(listing@.entries =~= Seq::empty());
        (listing, PageRequest { prefix, token: None })
    }

    /// Takes a page of a listing, or the message of its failure. The entries of the page
    /// are added, and the next page is asked for if the page says that there is one.
    pub fn list_page(&self, listing: S3Listing, page: Result<S3Page, String>) -> (r: ListStep)
        ensures
            r@ == list_step(self.prefix@, listing@, page_result(page)),
            page matches Err(m) ==> (r matches ListStep::Done(Err(e)) && e@ == ErrorView::S3(
                "list_objects_v2: "@ + m@,
            )),
            page matches Ok(p) ==> (r is Next <==> p.truncated == Some(true)),
    {
        let page = match page {
            Ok(p) => p,
            Err(m) => {
                proof {
                    reveal_strlit("list_objects_v2");
                    reveal_strlit(": ");
                    reveal_strlit("list_objects_v2: ");
                    assert("list_objects_v2"@ + ": "@ =~= "list_objects_v2: "@);
                }
                return ListStep::Done(Err(request_error("list_objects_v2", m.as_str())));
            },
        };
        let S3Listing { prefix, entries } = listing;
        let ghost objects = objects_of(page.objects@);
        let ghost start = crate::router::listed(entries@);
        let mut all = entries;
        let mut i: usize = 0;
        assert(objects.take(0) =~= Seq::empty());
        assert(crate::router::listed(all@) =~= start + page_entries(self.prefix@, objects.take(0)));
        while i < page.objects.len()
            invariant
                i <= page.objects@.len(),
                objects == objects_of(page.objects@),
                crate::router::listed(all@) == start + page_entries(
                    self.prefix@,
                    objects.take(i as int),
                ),
            decreases page.objects.len() - i,
        {
            proof {
                assert(objects.take(i + 1).drop_last() =~= objects.take(i as int));
                assert(objects.take(i + 1).last() == page.objects@[i as int]@);
            }
            let ghost before = all@;
            let o = &page.objects[i];
            if let Some(key) = &o.key {
                let path = self.key_path(key.as_str());
                let entry = object_metadata(path, o.size, o.modified);
                all.push(entry);
                assert(crate::router::listed(all@) =~= crate::router::listed(before).push(entry@));
                assert(crate::router::listed(all@) =~= start + page_entries(
                    self.prefix@,
                    objects.take(i + 1),
                ));
            }
            i += 1;
        }
        assert(objects.take(objects.len() as int) =~= objects);
        let more = match page.truncated {
            Some(b) => b,
            None => false,
        };
        if more {
            let request = PageRequest { prefix: prefix.clone(), token: page.next };
            ListStep::Next(S3Listing { prefix, entries: all }, request)
        } else {
            ListStep::Done(Ok(all))
        }
    }
}

// ---------------------------------------------------------------------------
// Laws of keys and listings

/// What is trimmed from the end is gone, and nothing else.
proof fn lemma_trim_end(s: Seq<char>, c: char)
    ensures
        trim_end(s, c).len() <= s.len(),
        starts_with(s, trim_end(s, c)),
        trim_end(s, c).len() == 0 || trim_end(s, c).last() != c,
        s.len() > 0 && s.last() != c ==> trim_end(s, c) == s,
    decreases s.len(),
{
    if s.len() > 0 && s.last() == c {
        lemma_trim_end(s.drop_last(), c);
        let t = trim_end(s, c);
        assert(s.subrange(0, t.len() as int) =~= s.drop_last().subrange(0, t.len() as int));
    } else {
        assert(s.subrange(0, s.len() as int) =~= s);
    }
}

/// The text of a path without its first slash.
proof fn lemma_rel(p: Seq<char>)
    requires
        valid_path(p),
    ensures
        p == seq!['/'] + trim_start(p, '/'),
        p == seq!['/'] <==> trim_start(p, '/').len() == 0,
        trim_start(trim_start(p, '/'), '/') == trim_start(p, '/'),
        trim_start(seq!['/'] + trim_start(p, '/'), '/') == trim_start(p, '/'),
        p != seq!['/'] ==> trim_start(p, '/').last() != '/',
{
    crate::path::lemma_valid_path(p);
    reveal_with_fuel(trim_start, 2);
    if p == seq!['/'] {
        assert(p.subrange(1, 1) =~= Seq::empty());
        assert(p =~= seq!['/'] + trim_start(p, '/'));
    } else {
        crate::path::lemma_path_edges(p);
        let rel = p.subrange(1, p.len() as int);
        assert(rel[0] == p[1]);
        assert(p =~= seq!['/'] + rel);
        assert(rel.last() == p.last());
    }
}

/// A key leads back to the path that it was made of, whatever the prefix.
pub proof fn law_key_round_trip(prefix: Seq<char>, p: Seq<char>)
    requires
        valid_path(p),
    ensures
        path_of_key(prefix, key_of(prefix, p)) == p,
{
    let rel = trim_start(p, '/');
    let key = key_of(prefix, p);
    lemma_rel(p);
    crate::path::law_normal_form_is_fixed(p);
    if prefix.len() == 0 {
        assert(key_rest(prefix, key) == rel);
    } else {
        let base = trim_end(prefix, '/');
        assert(key.subrange(0, base.len() as int) =~= base);
        assert(starts_with(key, base));
        let tail = key.subrange(base.len() as int, key.len() as int);
        if rel.len() == 0 {
            assert(tail =~= rel);
        } else {
            assert(tail =~= seq!['/'] + rel);
        }
        assert(key_rest(prefix, key) == rel);
    }
}

/// Different paths have different keys.
pub proof fn law_keys_differ(prefix: Seq<char>, p: Seq<char>, q: Seq<char>)
    requires
        valid_path(p),
        valid_path(q),
        key_of(prefix, p) == key_of(prefix, q),
    ensures
        p == q,
{
    law_key_round_trip(prefix, p);
    law_key_round_trip(prefix, q);
}

/// The keys of everything below a path start with what is listed for it, unless the
/// prefix is made of two slashes or more.
pub proof fn law_listing_covers(prefix: Seq<char>, d: Seq<char>, q: Seq<char>)
    requires
        valid_path(d),
        valid_path(q),
        path_prefix(d, q),
        d != q,
        trim_end(prefix, '/').len() > 0 || prefix.len() <= 1,
    ensures
        starts_with(key_of(prefix, q), listing_prefix(prefix, d)),
{
    let base = trim_end(prefix, '/');
    let key = key_of(prefix, q);
    let rel = trim_start(q, '/');
    lemma_rel(d);
    lemma_rel(q);
    lemma_trim_end(prefix, '/');
    if d == seq!['/'] {
        if base.len() == 0 {
            if prefix.len() == 0 {
                assert(key.subrange(0, 0) =~= prefix);
            } else {
                lemma_trim_end_of_one(prefix);
                assert(key =~= seq!['/'] + rel);
                assert(key.subrange(0, 1) =~= prefix);
            }
        } else {
            assert(prefix.len() > 0);
            lemma_trim_end(base, '/');
            let listed = base + seq!['/'];
            assert(base != seq!['/']) by {
                assert(base.last() != '/');
            }
            assert(listing_prefix(prefix, d) == listed);
            assert(rel.len() > 0) by {
                crate::path::law_prefix_of_parent(q);
                crate::path::lemma_valid_path(d);
            }
            assert(key.subrange(0, listed.len() as int) =~= listed);
        }
    } else {
        let dkey = key_of(prefix, d);
        let drel = trim_start(d, '/');
        crate::path::lemma_prefix_text(d, q);
        crate::path::lemma_path_edges(d);
        lemma_trim_end(dkey, '/');
        assert(q.len() > d.len()) by {
            if q.len() == d.len() {
                assert(q.subrange(0, d.len() as int) =~= q);
            }
        }
        assert(q[d.len() as int] == '/');
        assert(dkey.last() == drel.last());
        assert(dkey != seq!['/']);
        let listed = dkey + seq!['/'];
        assert(listing_prefix(prefix, d) == listed);
        assert(q != seq!['/']);
        assert forall|i: int| 0 <= i < drel.len() implies rel[i] == drel[i] by {
            assert(q.subrange(0, d.len() as int)[i + 1] == d[i + 1]);
        }
        assert(rel[drel.len() as int] == '/');
        assert(key.subrange(0, listed.len() as int) =~= listed);
    }
}

/// What is listed for a path are only things below it: the key of a path that starts with
/// what is listed for another belongs to a path below that one, whatever the prefix.
pub proof fn law_listing_is_confined(prefix: Seq<char>, d: Seq<char>, q: Seq<char>)
    requires
        valid_path(d),
        valid_path(q),
        starts_with(key_of(prefix, q), listing_prefix(prefix, d)),
    ensures
        path_prefix(d, q),
        d != seq!['/'] ==> d != q,
{
    if d == seq!['/'] {
        crate::path::law_prefix_of_parent(q);
    } else {
        let base = trim_end(prefix, '/');
        let key = key_of(prefix, q);
        let rel = trim_start(q, '/');
        let dkey = key_of(prefix, d);
        let drel = trim_start(d, '/');
        lemma_rel(d);
        lemma_rel(q);
        lemma_trim_end(dkey, '/');
        crate::path::lemma_path_edges(d);
        assert(dkey.last() == drel.last());
        assert(dkey != seq!['/']);
        let listed = dkey + seq!['/'];
        assert(listing_prefix(prefix, d) == listed);
        let start = key.subrange(0, listed.len() as int);
        let n = dkey.len() - drel.len();
        assert(key.len() > dkey.len());
        assert(q != seq!['/']);
        assert(key.len() == n + rel.len());
        assert forall|i: int| 0 <= i < drel.len() implies rel[i] == drel[i] by {
            assert(key[n + i] == rel[i]);
            assert(start[n + i] == drel[i]);
        }
        assert(rel[drel.len() as int] == '/') by {
            assert(start[dkey.len() as int] == '/');
        }
        assert(q.subrange(0, d.len() as int) =~= d);
        assert(q[d.len() as int] == '/');
        crate::path::lemma_prefix_text(d, q);
    }
}

/// A single slash, if anything, is left of a prefix that trims to nothing and is short.
proof fn lemma_trim_end_of_one(s: Seq<char>)
    requires
        s.len() == 1,
        trim_end(s, '/').len() == 0,
    ensures
        s == seq!['/'],
{
    if s.last() != '/' {
        assert(trim_end(s, '/') == s);
    }
    assert(s =~= seq!['/']);
}

/// What a listing that has come to `l` gives, if every request is answered as `serve` says
/// and it takes no more than `fuel` pages.
pub open spec fn run_listing(
    prefix: Seq<char>,
    serve: spec_fn(RequestView) -> PageView,
    l: ListingView,
    request: RequestView,
    fuel: nat,
) -> Option<Seq<EntryView>>
    decreases fuel,
{
    if fuel == 0 {
        None
    } else {
        match list_step(prefix, l, Ok(serve(request))) {
            ListStepView::Next(l2, r2) => run_listing(prefix, serve, l2, r2, (fuel - 1) as nat),
            ListStepView::Done(Ok(es)) => Some(es),
            ListStepView::Done(Err(_)) => None,
        }
    }
}

/// The objects of all pages, in order.
pub open spec fn all_objects(pages: Seq<PageView>) -> Seq<ObjectView>
    decreases pages.len(),
{
    if pages.len() == 0 {
        Seq::empty()
    } else {
        all_objects(pages.drop_last()) + pages.last().objects
    }
}

/// The request for the page at position `i`: for the first one without a token, for every
/// other with the token of the page before it.
pub open spec fn request_for(from: Seq<char>, pages: Seq<PageView>, i: int) -> RequestView {
    RequestView {
        prefix: from,
        token: if i == 0 {
            None
        } else {
            pages[i - 1].next
        },
    }
}

/// The bucket answers with these pages, one after the other, and only the last of them is
/// not truncated.
pub open spec fn serves(serve: spec_fn(RequestView) -> PageView, from: Seq<char>, pages: Seq<PageView>) -> bool {
    &&& pages.len() > 0
    &&& forall|i: int|
        0 <= i < pages.len() ==> #[trigger] serve(request_for(from, pages, i)) == pages[i]
            && (pages[i].truncated == Some(true) <==> i + 1 < pages.len())
}

/// The objects are those of the stored paths whose keys start with `from`, each once.
pub open spec fn shows(prefix: Seq<char>, from: Seq<char>, stored: Set<Seq<char>>, objects: Seq<ObjectView>) -> bool {
    &&& forall|i: int|
        0 <= i < objects.len() ==> exists|q: Seq<char>|
            #[trigger] stored.contains(q) && (#[trigger] objects[i]).key == Some(key_of(prefix, q))
                && starts_with(key_of(prefix, q), from)
    &&& forall|i: int, j: int|
        0 <= i < j < objects.len() ==> (#[trigger] objects[i]).key != (#[trigger] objects[j]).key
    &&& forall|q: Seq<char>|
        #[trigger] stored.contains(q) && starts_with(key_of(prefix, q), from) ==> exists|i: int|
            0 <= i < objects.len() && (#[trigger] objects[i]).key == Some(key_of(prefix, q))
}

proof fn lemma_page_entries_join(prefix: Seq<char>, a: Seq<ObjectView>, b: Seq<ObjectView>)
    ensures
        page_entries(prefix, a + b) == page_entries(prefix, a) + page_entries(prefix, b),
    decreases b.len(),
{
    if b.len() == 0 {
        assert(a + b =~= a);
        assert(page_entries(prefix, a) =~= page_entries(prefix, a) + page_entries(prefix, b));
    } else {
        lemma_page_entries_join(prefix, a, b.drop_last());
        assert((a + b).drop_last() =~= a + b.drop_last());
        assert((a + b).last() == b.last());
        assert(page_entries(prefix, a + b) =~= page_entries(prefix, a) + page_entries(prefix, b));
    }
}

/// Objects with keys have an entry each, in their order.
proof fn lemma_page_entries(prefix: Seq<char>, objects: Seq<ObjectView>)
    requires
        forall|i: int| 0 <= i < objects.len() ==> (#[trigger] objects[i]).key is Some,
    ensures
        page_entries(prefix, objects).len() == objects.len(),
        forall|i: int|
            0 <= i < objects.len() ==> #[trigger] page_entries(prefix, objects)[i] == object_entry(
                path_of_key(prefix, objects[i].key->0),
                objects[i].size,
                objects[i].modified,
            ),
    decreases objects.len(),
{
    if objects.len() > 0 {
        let front = objects.drop_last();
        assert forall|i: int| 0 <= i < front.len() implies (#[trigger] front[i]).key is Some by {
            assert(front[i] == objects[i]);
        }
        lemma_page_entries(prefix, front);
        assert(objects.last().key is Some);
        assert forall|i: int| 0 <= i < objects.len() implies #[trigger] page_entries(prefix, objects)[i]
            == object_entry(
            path_of_key(prefix, objects[i].key->0),
            objects[i].size,
            objects[i].modified,
        ) by {
            if i < front.len() {
                assert(page_entries(prefix, objects)[i] == page_entries(prefix, front)[i]);
            }
        }
    }
}

proof fn lemma_run_listing(
    prefix: Seq<char>,
    serve: spec_fn(RequestView) -> PageView,
    from: Seq<char>,
    pages: Seq<PageView>,
    i: int,
)
    requires
        serves(serve, from, pages),
        0 <= i < pages.len(),
    ensures
        run_listing(
            prefix,
            serve,
            ListingView { prefix: from, entries: page_entries(prefix, all_objects(pages.take(i))) },
            request_for(from, pages, i),
            (pages.len() - i) as nat,
        ) == Some(page_entries(prefix, all_objects(pages))),
    decreases pages.len() - i,
{
    let so_far = all_objects(pages.take(i));
    let more = all_objects(pages.take(i + 1));
    assert(serve(request_for(from, pages, i)) == pages[i]);
    assert(pages.take(i + 1).drop_last() =~= pages.take(i));
    assert(pages.take(i + 1).last() == pages[i]);
    assert(more == so_far + pages[i].objects);
    lemma_page_entries_join(prefix, so_far, pages[i].objects);
    if i + 1 < pages.len() {
        lemma_run_listing(prefix, serve, from, pages, i + 1);
        assert(request_for(from, pages, i + 1) == RequestView { prefix: from, token: pages[i].next });
    } else {
        assert(pages.take(i + 1) =~= pages);
    }
}

/// A listing of a directory that goes through all pages of the bucket, each asked for with
/// the token of the one before, shows exactly the stored paths below the directory, each
/// once and in the bucket's order, with sizes and times; unless the prefix is made of two
/// slashes or more.
pub proof fn law_listing_is_exact(
    prefix: Seq<char>,
    d: Seq<char>,
    stored: Set<Seq<char>>,
    serve: spec_fn(RequestView) -> PageView,
    pages: Seq<PageView>,
)
    requires
        valid_path(d),
        forall|q: Seq<char>| #[trigger] stored.contains(q) ==> valid_path(q) && q != seq!['/'],
        serves(serve, listing_prefix(prefix, d), pages),
        shows(prefix, listing_prefix(prefix, d), stored, all_objects(pages)),
        trim_end(prefix, '/').len() > 0 || prefix.len() <= 1,
    ensures
        run_listing(prefix, serve, list_start(prefix, d), list_request(prefix, d), pages.len()) matches Some(
            es,
        ) && {
            let objects = all_objects(pages);
            &&& es.len() == objects.len()
            &&& forall|i: int|
                0 <= i < es.len() ==> {
                    &&& objects[i].key == Some(key_of(prefix, (#[trigger] es[i]).path))
                    &&& es[i] == object_entry(es[i].path, objects[i].size, objects[i].modified)
                    &&& es[i].kind == EntryKind::File
                    &&& objects[i].size matches Some(n) ==> es[i].size_bytes == n as u64
                    &&& objects[i].size is None ==> es[i].size_bytes == 0
                    &&& objects[i].modified matches Some(n) ==> es[i].modified_at == n
                    &&& objects[i].modified is None ==> es[i].modified_at == 0
                    &&& es[i].tiers.holds(Tier::S3)
                    &&& stored.contains(es[i].path) && path_prefix(d, es[i].path) && es[i].path != d
                }
            &&& forall|i: int, j: int|
                0 <= i < j < es.len() ==> (#[trigger] es[i]).path != (#[trigger] es[j]).path
            &&& forall|q: Seq<char>|
                #[trigger] stored.contains(q) && path_prefix(d, q) && q != d ==> exists|i: int|
                    0 <= i < es.len() && (#[trigger] es[i]).path == q
        },
{
    let from = listing_prefix(prefix, d);
    let objects = all_objects(pages);
    let es = page_entries(prefix, objects);
    assert(pages.take(0) =~= Seq::empty());
    assert(page_entries(prefix, all_objects(pages.take(0))) =~= Seq::empty());
    lemma_run_listing(prefix, serve, from, pages, 0);
    assert forall|i: int| 0 <= i < objects.len() implies (#[trigger] objects[i]).key is Some by {
        assert(exists|q: Seq<char>|
            #[trigger] stored.contains(q) && objects[i].key == Some(key_of(prefix, q)));
    }
    lemma_page_entries(prefix, objects);
    assert forall|i: int| 0 <= i < es.len() implies {
        &&& objects[i].key == Some(key_of(prefix, (#[trigger] es[i]).path))
        &&& es[i] == object_entry(es[i].path, objects[i].size, objects[i].modified)
        &&& es[i].tiers.holds(Tier::S3)
        &&& stored.contains(es[i].path) && path_prefix(d, es[i].path) && es[i].path != d
    } by {
        crate::tier::law_set(TierBitmask(0), Tier::S3);
        let q = choose|q: Seq<char>|
            #[trigger] stored.contains(q) && objects[i].key == Some(key_of(prefix, q)) && starts_with(
                key_of(prefix, q),
                from,
            );
        law_key_round_trip(prefix, q);
        law_listing_is_confined(prefix, d, q);
    }
    assert forall|i: int, j: int| 0 <= i < j < es.len() implies (#[trigger] es[i]).path != (
    #[trigger] es[j]).path by {
        assert(objects[i].key != objects[j].key);
    }
    assert forall|q: Seq<char>| #[trigger] stored.contains(q) && path_prefix(d, q) && q != d implies exists|i: int|
        0 <= i < es.len() && (#[trigger] es[i]).path == q by {
        law_listing_covers(prefix, d, q);
        let i = choose|i: int| 0 <= i < objects.len() && (#[trigger] objects[i]).key == Some(
            key_of(prefix, q),
        );
        law_keys_differ(prefix, es[i].path, q);
    }
}

/// A key is the path below the prefix: without a prefix the path without its slash, and
/// behind a prefix the path itself. Slashes at the end of the prefix do not count.
pub proof fn law_key_is_below_the_prefix(prefix: Seq<char>, p: Seq<char>)
    requires
        valid_path(p),
        p != seq!['/'],
    ensures
        prefix.len() == 0 ==> seq!['/'] + key_of(prefix, p) == p,
        prefix.len() > 0 && prefix.last() != '/' ==> key_of(prefix, p) == prefix + p,
        prefix.len() > 0 ==> key_of(prefix.push('/'), p) == key_of(prefix, p),
{
    lemma_rel(p);
    lemma_trim_end(prefix, '/');
    let rel = trim_start(p, '/');
    if prefix.len() > 0 {
        assert(prefix.push('/').drop_last() =~= prefix);
        assert(prefix.push('/').last() == '/');
        if prefix.last() != '/' {
            assert(key_of(prefix, p) =~= prefix + p);
        }
    }
}

/// A key leads to the path that is named behind the prefix, whatever is there: a key below
/// the prefix to what is behind its slash, and without a prefix to what the key names.
pub proof fn law_key_names_what_is_behind(prefix: Seq<char>, x: Seq<char>)
    requires
        !x.contains('\0'),
    ensures
        path_of_key(Seq::empty(), x) == normal_form(x),
        prefix.len() > 0 && prefix.last() != '/' ==> path_of_key(prefix, prefix + seq!['/'] + x)
            == normal_form(x),
{
    let text = seq!['/'] + x;
    assert forall|i: int| 0 <= i < text.len() implies text[i] != '\0' by {
        if i > 0 {
            assert(x[i - 1] == text[i]);
        }
    }
    crate::path::law_names_start_at_the_root(x);
    if prefix.len() > 0 && prefix.last() != '/' {
        lemma_trim_end(prefix, '/');
        let key = prefix + seq!['/'] + x;
        let rest = key.subrange(prefix.len() as int, key.len() as int);
        assert(key.subrange(0, prefix.len() as int) =~= prefix);
        assert(rest =~= text);
        crate::http_api::law_request_text_names_the_same(text);
        assert(seq!['/'] + key_rest(prefix, key) == crate::http_api::request_text(text));
        let t = trim_start(text, '/');
        crate::text::law_trim_start_takes_the_run(text, '/');
        let full = seq!['/'] + t;
        assert forall|i: int| 0 <= i < full.len() implies full[i] != '\0' by {
            if i > 0 {
                assert(text[text.len() - t.len() + i - 1] == full[i]);
            }
        }
    }
}

/// A failure that speaks of a missing key, or of the status 404, anywhere in its message is
/// taken for a missing object, and about the path.
pub proof fn law_missing_is_told(request: Seq<char>, before: Seq<char>, after: Seq<char>, path: Seq<char>)
    ensures
        s3_error(request, before + "NoSuchKey"@ + after, path) == ErrorView::NotFound(path),
        s3_error(request, before + "404"@ + after, path) == ErrorView::NotFound(path),
{
    crate::text::law_text_is_found(before, "NoSuchKey"@, after);
    crate::text::law_text_is_found(before, "404"@, after);
}

} // verus!
