//! Rows of the metadata database.
//!
//! How entries are stored and read back, which patterns select the entries below a
//! directory, and which of the selected ones a listing has.

use crate::path::normal_form;
use crate::path::parent_of;
use crate::path::VfsPath;
use crate::text::chars_of;
use crate::text::concat2;
use crate::tier::TierBitmask;
use crate::types::opt_text;
use crate::types::wal_op_named;
use crate::types::EntryKind;
use crate::types::FileMetadata;
use crate::types::MetaView;
use crate::types::WalEntry;
use crate::types::WalOp;
use crate::types::WalView;
use vstd::prelude::*;

verus! {

// ---------------------------------------------------------------------------
// Files

/// A row of the table of files.
#[derive(Debug, PartialEq, Eq)]
pub struct FileRow {
    pub id: i64,
    pub path: String,
    pub size_bytes: i64,
    pub sha256: String,
    pub tier_bitmask: i64,
    pub created_at: i64,
    pub modified_at: i64,
    pub accessed_at: i64,
    pub access_count_30d: i64,
    pub mime_type: Option<String>,
    pub is_dir: i64,
}

/// The mathematical value of a [`FileRow`].
pub struct FileRowView {
    pub id: i64,
    pub path: Seq<char>,
    pub size_bytes: i64,
    pub sha256: Seq<char>,
    pub tier_bitmask: i64,
    pub created_at: i64,
    pub modified_at: i64,
    pub accessed_at: i64,
    pub access_count_30d: i64,
    pub mime_type: Option<Seq<char>>,
    pub is_dir: i64,
}

impl View for FileRow {
    type V = FileRowView;

    open spec fn view(&self) -> FileRowView {
        FileRowView {
            id: self.id,
            path: self.path@,
            size_bytes: self.size_bytes,
            sha256: self.sha256@,
            tier_bitmask: self.tier_bitmask,
            created_at: self.created_at,
            modified_at: self.modified_at,
            accessed_at: self.accessed_at,
            access_count_30d: self.access_count_30d,
            mime_type: opt_text(self.mime_type),
            is_dir: self.is_dir,
        }
    }
}

/// The path that a row names; the root where its text cannot be a path.
pub open spec fn row_path(s: Seq<char>) -> Seq<char> {
    if crate::path::nameable(s) {
        normal_form(s)
    } else {
        seq!['/']
    }
}

/// The entry that a row holds.
pub open spec fn meta_of_row(row: FileRowView) -> MetaView {
    MetaView {
        id: row.id,
        path: row_path(row.path),
        kind: if row.is_dir != 0 {
            EntryKind::Directory
        } else {
            EntryKind::File
        },
        size_bytes: row.size_bytes as u64,
        sha256: row.sha256,
        tiers: TierBitmask(row.tier_bitmask as u8),
        created_at: row.created_at,
        modified_at: row.modified_at,
        accessed_at: row.accessed_at,
        access_count_30d: row.access_count_30d as u32,
        mime_type: row.mime_type,
    }
}

/// The MIME type that is stored for an entry.
pub open spec fn stored_mime(m: MetaView) -> Seq<char> {
    match m.mime_type {
        Some(s) => s,
        None => if m.kind == EntryKind::Directory {
            "inode/directory"@
        } else {
            Seq::empty()
        },
    }
}

/// The row that stores an entry.
pub open spec fn row_of_meta(m: MetaView) -> FileRowView {
    FileRowView {
        id: m.id,
        path: m.path,
        size_bytes: m.size_bytes as i64,
        sha256: m.sha256,
        tier_bitmask: m.tiers.0 as i64,
        created_at: m.created_at,
        modified_at: m.modified_at,
        accessed_at: m.accessed_at,
        access_count_30d: m.access_count_30d as i64,
        mime_type: Some(stored_mime(m)),
        is_dir: if m.kind == EntryKind::Directory {
            1
        } else {
            0
        },
    }
}

/// The entry that a row holds.
pub fn row_to_metadata(row: FileRow) -> (r: FileMetadata)
    ensures
        r@ == meta_of_row(row@),
        r.id == row.id,
        crate::path::nameable(row.path@) ==> r.path@ == normal_form(row.path@),
        !crate::path::nameable(row.path@) ==> r.path@ == seq!['/'],
        r.kind == EntryKind::Directory <==> row.is_dir != 0,
        r.size_bytes == row.size_bytes as u64,
        r.sha256@ == row.sha256@,
        r.tier_bitmask == TierBitmask(row.tier_bitmask as u8),
        r.created_at == row.created_at,
        r.modified_at == row.modified_at,
        r.accessed_at == row.accessed_at,
        r.access_count_30d == row.access_count_30d as u32,
        opt_text(r.mime_type) == opt_text(row.mime_type),
{
    let path = match VfsPath::new(row.path.as_str()) {
        Ok(p) => p,
        Err(_) => VfsPath::root(),
    };
    FileMetadata {
        id: row.id,
        path,
        kind: if row.is_dir != 0 {
            EntryKind::Directory
        } else {
            EntryKind::File
        },
        size_bytes: #[verifier::truncate]
        (row.size_bytes as u64),
        sha256: row.sha256,
        tier_bitmask: TierBitmask::from(row.tier_bitmask),
        created_at: row.created_at,
        modified_at: row.modified_at,
        accessed_at: row.accessed_at,
        access_count_30d: #[verifier::truncate]
        (row.access_count_30d as u32),
        mime_type: row.mime_type,
    }
}

/// The row that stores an entry. The id is the entry's own; an insertion leaves it out.
pub fn metadata_to_row(m: &FileMetadata) -> (r: FileRow)
    ensures
        r@ == row_of_meta(m@),
        r.id == m.id,
        r.path@ == m.path@,
        r.size_bytes == m.size_bytes as i64,
        r.sha256@ == m.sha256@,
        r.tier_bitmask == m.tier_bitmask.0,
        r.created_at == m.created_at,
        r.modified_at == m.modified_at,
        r.accessed_at == m.accessed_at,
        r.access_count_30d == m.access_count_30d,
        r.is_dir == (if m.kind == EntryKind::Directory {
            1int
        } else {
            0
        }),
        r.mime_type matches Some(s) && s@ == (match m.mime_type {
            Some(t) => t@,
            None => if m.kind == EntryKind::Directory {
                "inode/directory"@
            } else {
                Seq::<char>::empty()
            },
        }),
{
    let mime: String = match &m.mime_type {
        Some(s) => s.clone(),
        None => if m.is_dir() {
            "inode/directory".to_owned()
        } else {
            String::new()
        },
    };
    FileRow {
        id: m.id,
        path: m.path.text(),
        size_bytes: #[verifier::truncate]
        (m.size_bytes as i64),
        sha256: m.sha256.clone(),
        tier_bitmask: m.tier_bitmask.as_u8() as i64,
        created_at: m.created_at,
        modified_at: m.modified_at,
        accessed_at: m.accessed_at,
        access_count_30d: m.access_count_30d as i64,
        mime_type: Some(mime),
        is_dir: if m.is_dir() {
            1
        } else {
            0
        },
    }
}

/// An entry is read back as it was stored, with the MIME type that stands for none.
pub proof fn law_row_round_trip(m: MetaView)
    requires
        crate::path::valid_path(m.path),
    ensures
        meta_of_row(row_of_meta(m)) == (MetaView { mime_type: Some(stored_mime(m)), ..m }),
{
    crate::path::law_normal_form_is_fixed(m.path);
    let size: u64 = m.size_bytes;
    let count: u32 = m.access_count_30d;
    let mask: u8 = m.tiers.0;
    assert((size as i64) as u64 == size) by (bit_vector);
    assert((count as i64) as u32 == count) by (bit_vector);
    assert((mask as i64) as u8 == mask) by (bit_vector);
}

// ---------------------------------------------------------------------------
// Listings

/// The character has a meaning of its own in a `LIKE` pattern.
pub open spec fn is_like_special(c: char) -> bool {
    c == '\\' || c == '%' || c == '_'
}

/// `s` with a backslash before each character that a pattern would not take literally.
pub open spec fn like_escaped(s: Seq<char>) -> Seq<char>
    decreases s.len(),
{
    if s.len() == 0 {
        Seq::empty()
    } else if is_like_special(s.last()) {
        like_escaped(s.drop_last()).push('\\').push(s.last())
    } else {
        like_escaped(s.drop_last()).push(s.last())
    }
}

/// Escapes a text for a `LIKE` pattern whose escape character is the backslash.
pub fn escape_like(s: &str) -> (r: String)
    ensures
        r@ == like_escaped(s@),
{
    let v = chars_of(s);
    let mut out = String::new();
    let mut i: usize = 0;
    assert(v@.take(0) =~= Seq::empty());
    while i < v.len()
        invariant
            i <= v@.len(),
            out@ == like_escaped(v@.take(i as int)),
        decreases v.len() - i,
    {
        proof {
            assert(v@.take(i + 1).drop_last() =~= v@.take(i as int));
        }
        let c = v[i];
        if c == '\\' || c == '%' || c == '_' {
            out.push('\\');
        }
        out.push(c);
        i += 1;
    }
    assert(v@.take(v@.len() as int) =~= v@);
    out
}

/// What every path below a directory starts with.
pub open spec fn dir_prefix(dir: Seq<char>) -> Seq<char> {
    if dir == seq!['/'] {
        seq!['/']
    } else {
        dir + seq!['/']
    }
}

/// The patterns that select the entries below a directory: the first is to match, for
/// anything under it, and the second is not, for anything deeper.
pub fn list_patterns(dir: &VfsPath) -> (r: (String, String))
    ensures
        r.0@ == like_escaped(dir_prefix(dir@)) + "%"@,
        r.1@ == like_escaped(dir_prefix(dir@)) + "%/%"@,
{
    proof {
        reveal_strlit("/");
        assert("/"@ =~= seq!['/']);
    }
    let prefix = if dir.is_root() {
        "/".to_owned()
    } else {
        concat2(dir.as_str(), "/")
    };
    let escaped = escape_like(prefix.as_str());
    (concat2(escaped.as_str(), "%"), concat2(escaped.as_str(), "%/%"))
}

/// The entry lies directly below the directory.
pub open spec fn is_child(dir: Seq<char>, m: MetaView) -> bool {
    parent_of(m.path) == Some(dir)
}

/// The entries that lie directly below the directory, in their order.
pub open spec fn children(dir: Seq<char>, ms: Seq<MetaView>) -> Seq<MetaView> {
    ms.filter(|m: MetaView| is_child(dir, m))
}

/// Keeps the direct children of a directory.
pub fn direct_children(dir: &VfsPath, rows: Vec<FileMetadata>) -> (r: Vec<FileMetadata>)
    ensures
        crate::action::metas(r@) == children(dir@, crate::action::metas(rows@)),
{
    let ghost all = crate::action::metas(rows@);
    let ghost keep = |m: MetaView| is_child(dir@, m);
    let mut out: Vec<FileMetadata> = Vec::new();
    let mut i: usize = 0;
    assert(all.take(0).filter(keep) =~= Seq::empty()) by {
        reveal(Seq::filter);
    }
    while i < rows.len()
        invariant
            i <= rows@.len(),
            all == crate::action::metas(rows@),
            keep == (|m: MetaView| is_child(dir@, m)),
            crate::action::metas(out@) == all.take(i as int).filter(keep),
        decreases rows.len() - i,
    {
        proof {
            reveal(Seq::filter);
            assert(all.take(i + 1).drop_last() =~= all.take(i as int));
            assert(all.take(i + 1).last() == rows@[i as int]@);
        }
        let ghost before = out@;
        let child = match rows[i].path.parent() {
            Some(p) => crate::text::same_text(p.as_str(), dir.as_str()),
            None => false,
        };
        if child {
            out.push(rows[i].clone());
            assert(crate::action::metas(out@) =~= crate::action::metas(before).push(
                rows@[i as int]@,
            ));
        }
        i += 1;
    }
    assert(all.take(all.len() as int) =~= all);
    out
}

/// The children of a directory among some entries are those whose path is one segment
/// longer than the directory's and starts with it; none is lost, and none is added.
pub proof fn law_children_are_one_below(dir: Seq<char>, ms: Seq<MetaView>, m: MetaView)
    requires
        crate::path::valid_path(dir),
        crate::path::valid_path(m.path),
    ensures
        children(dir, ms).contains(m) <==> ms.contains(m) && crate::path::components(m.path).len()
            == crate::path::components(dir).len() + 1 && crate::path::path_prefix(dir, m.path),
{
    crate::path::lemma_valid_path(dir);
    crate::path::lemma_valid_path(m.path);
    crate::path::law_prefix_of_parent(m.path);
    let keep = |x: MetaView| is_child(dir, x);
    lemma_filter_keeps(ms, keep, m);
    let cs = crate::path::components(m.path);
    let ds = crate::path::components(dir);
    if cs.len() == ds.len() + 1 && crate::path::path_prefix(dir, m.path) {
        assert(cs.drop_last() =~= ds) by {
            assert(ds == cs.subrange(0, ds.len() as int));
        }
    }
}

/// What a filter keeps are the items that pass it.
pub proof fn lemma_filter_keeps<A>(s: Seq<A>, keep: spec_fn(A) -> bool, x: A)
    ensures
        s.filter(keep).contains(x) <==> s.contains(x) && keep(x),
{
    if s.contains(x) && keep(x) {
        let i = choose|i: int| 0 <= i < s.len() && s[i] == x;
        s.lemma_filter_contains(keep, i);
    }
    if s.filter(keep).contains(x) {
        s.lemma_filter_contains_rev(keep, x);
        let i = choose|i: int| 0 <= i < s.filter(keep).len() && s.filter(keep)[i] == x;
        s.lemma_filter_pred(keep, i);
    }
}

// ---------------------------------------------------------------------------
// The write-ahead log

/// A row of the table of the write-ahead log.
#[derive(Debug, PartialEq, Eq)]
pub struct WalRow {
    pub id: i64,
    pub file_id: i64,
    pub op: String,
    pub enqueued_at: i64,
    pub attempts: i64,
    pub last_error: Option<String>,
}

/// The mathematical value of a [`WalRow`].
pub struct WalRowView {
    pub id: i64,
    pub file_id: i64,
    pub op: Seq<char>,
    pub enqueued_at: i64,
    pub attempts: i64,
    pub last_error: Option<Seq<char>>,
}

impl View for WalRow {
    type V = WalRowView;

    open spec fn view(&self) -> WalRowView {
        WalRowView {
            id: self.id,
            file_id: self.file_id,
            op: self.op@,
            enqueued_at: self.enqueued_at,
            attempts: self.attempts,
            last_error: opt_text(self.last_error),
        }
    }
}

/// The values of a list of log rows.
pub open spec fn wal_rows(v: Seq<WalRow>) -> Seq<WalRowView> {
    v.map_values(|r: WalRow| r@)
}

/// The log entry that a row holds, if its operation is known.
pub open spec fn wal_of_row(r: WalRowView) -> WalView {
    WalView {
        id: r.id,
        file_id: r.file_id,
        op: wal_op_named(r.op)->0,
        enqueued_at: r.enqueued_at,
        attempts: r.attempts as u32,
        last_error: r.last_error,
    }
}

/// The log entries that rows hold; those with unknown operations are passed over.
pub open spec fn wals_of_rows(rows: Seq<WalRowView>) -> Seq<WalView> {
    rows.filter(|r: WalRowView| wal_op_named(r.op) is Some).map_values(
        |r: WalRowView| wal_of_row(r),
    )
}

/// The log entries that rows hold.
pub fn rows_to_wal(rows: &Vec<WalRow>) -> (r: Vec<WalEntry>)
    ensures
        crate::action::wals(r@) == wals_of_rows(wal_rows(rows@)),
{
    let ghost all = wal_rows(rows@);
    let ghost keep = |r: WalRowView| wal_op_named(r.op) is Some;
    let ghost read = |r: WalRowView| wal_of_row(r);
    let mut out: Vec<WalEntry> = Vec::new();
    let mut i: usize = 0;
    assert(all.take(0).filter(keep).map_values(read) =~= Seq::empty()) by {
        reveal(Seq::filter);
    }
    while i < rows.len()
        invariant
            i <= rows@.len(),
            all == wal_rows(rows@),
            keep == (|r: WalRowView| wal_op_named(r.op) is Some),
            read == (|r: WalRowView| wal_of_row(r)),
            crate::action::wals(out@) == all.take(i as int).filter(keep).map_values(read),
        decreases rows.len() - i,
    {
        let ghost kept = all.take(i as int).filter(keep);
        proof {
            reveal(Seq::filter);
            assert(all.take(i + 1).drop_last() =~= all.take(i as int));
            assert(all.take(i + 1).last() == rows@[i as int]@);
        }
        let ghost before = out@;
        if let Ok(op) = WalOp::try_from(rows[i].op.as_str()) {
            let entry = WalEntry {
                id: rows[i].id,
                file_id: rows[i].file_id,
                op,
                enqueued_at: rows[i].enqueued_at,
                attempts: #[verifier::truncate]
                (rows[i].attempts as u32),
                last_error: crate::types::clone_opt_text(&rows[i].last_error),
            };
            out.push(entry);
            assert(crate::action::wals(out@) =~= crate::action::wals(before).push(entry@));
            assert(kept.push(rows@[i as int]@).map_values(read) =~= kept.map_values(read).push(
                entry@,
            ));
        }
        i += 1;
    }
    assert(all.take(all.len() as int) =~= all);
    out
}

/// The row that stores a log entry.
pub open spec fn row_of_wal(e: WalView) -> WalRowView {
    WalRowView {
        id: e.id,
        file_id: e.file_id,
        op: crate::types::wal_op_name(e.op),
        enqueued_at: e.enqueued_at,
        attempts: e.attempts as i64,
        last_error: e.last_error,
    }
}

/// A log entry is read back as it was stored.
pub proof fn law_wal_row_round_trip(e: WalView)
    ensures
        wals_of_rows(seq![row_of_wal(e)]) == seq![e],
{
    crate::types::law_wal_op_round_trip(e.op);
    let r = row_of_wal(e);
    let n: u32 = e.attempts;
    assert((n as i64) as u32 == n) by (bit_vector);
    reveal(Seq::filter);
    let keep = |r: WalRowView| wal_op_named(r.op) is Some;
    assert(seq![r].drop_last() =~= Seq::empty());
    assert(Seq::<WalRowView>::empty().filter(keep) =~= Seq::empty());
    assert(seq![r].filter(keep) =~= seq![r]);
    assert(wal_of_row(r) == e);
    assert(wals_of_rows(seq![r]) =~= seq![e]);
}

// ---------------------------------------------------------------------------
// Which entries the patterns of a listing select

/// A letter in lower case, if it is one of the first 26.
pub open spec fn lower(c: char) -> char {
    if 'A' <= c <= 'Z' {
        (c as int + 32) as char
    } else {
        c
    }
}

/// The text matches the `LIKE` pattern, with the backslash as the escape character: a
/// percent sign stands for any text, an underscore for any character, and anything else
/// for itself, in upper or lower case.
pub open spec fn like(pattern: Seq<char>, text: Seq<char>) -> bool
    decreases pattern.len(), text.len(),
{
    if pattern.len() == 0 {
        text.len() == 0
    } else if pattern[0] == '%' {
        like(pattern.skip(1), text) || (text.len() > 0 && like(pattern, text.skip(1)))
    } else if text.len() == 0 {
        false
    } else if pattern[0] == '_' {
        like(pattern.skip(1), text.skip(1))
    } else if pattern[0] == '\\' && pattern.len() > 1 {
        lower(pattern[1]) == lower(text[0]) && like(pattern.skip(2), text.skip(1))
    } else {
        lower(pattern[0]) == lower(text[0]) && like(pattern.skip(1), text.skip(1))
    }
}

proof fn lemma_escape_concat(a: Seq<char>, b: Seq<char>)
    ensures
        like_escaped(a + b) == like_escaped(a) + like_escaped(b),
    decreases b.len(),
{
    if b.len() == 0 {
        assert(a + b =~= a);
        assert(like_escaped(a) + like_escaped(b) =~= like_escaped(a));
    } else {
        lemma_escape_concat(a, b.drop_last());
        assert((a + b).drop_last() =~= a + b.drop_last());
        assert(like_escaped(a + b) =~= like_escaped(a) + like_escaped(b));
    }
}

/// An escaped character stands for itself, in upper or lower case.
proof fn lemma_like_char(c: char, rest: Seq<char>, text: Seq<char>)
    ensures
        like(like_escaped(seq![c]) + rest, text) <==> text.len() > 0 && lower(c) == lower(text[0])
            && like(rest, text.skip(1)),
{
    let first = seq![c];
    assert(first.drop_last() =~= Seq::empty());
    reveal_with_fuel(like_escaped, 2);
    let pattern = like_escaped(first) + rest;
    if is_like_special(c) {
        assert(like_escaped(first) =~= seq!['\\', c]);
        assert(pattern.skip(2) =~= rest);
    } else {
        assert(like_escaped(first) =~= seq![c]);
        assert(pattern.skip(1) =~= rest);
    }
}

/// The text starts with `s`, in upper or lower case.
spec fn same_start(s: Seq<char>, text: Seq<char>) -> bool {
    s.len() <= text.len() && forall|i: int| 0 <= i < s.len() ==> lower(#[trigger] s[i]) == lower(text[i])
}

proof fn lemma_same_start(s: Seq<char>, text: Seq<char>)
    requires
        s.len() > 0,
        text.len() > 0,
    ensures
        same_start(s, text) <==> lower(s[0]) == lower(text[0]) && same_start(s.skip(1), text.skip(1)),
{
    let tail = s.skip(1);
    let more = text.skip(1);
    if same_start(s, text) {
        assert forall|i: int| 0 <= i < tail.len() implies lower(#[trigger] tail[i]) == lower(more[i]) by {
            assert(tail[i] == s[i + 1]);
        }
        assert(lower(s[0]) == lower(text[0]));
    }
    if lower(s[0]) == lower(text[0]) && same_start(tail, more) {
        assert forall|i: int| 0 <= i < s.len() implies lower(#[trigger] s[i]) == lower(text[i]) by {
            if i > 0 {
                assert(tail[i - 1] == s[i]);
            }
        }
    }
}

/// An escaped text stands for itself, in upper or lower case.
proof fn lemma_like_literal(s: Seq<char>, rest: Seq<char>, text: Seq<char>)
    ensures
        like(like_escaped(s) + rest, text) <==> same_start(s, text) && like(
            rest,
            text.skip(s.len() as int),
        ),
    decreases s.len(),
{
    if s.len() == 0 {
        assert(like_escaped(s) + rest =~= rest);
        assert(text.skip(0) =~= text);
    } else {
        let first = seq![s[0]];
        let tail = s.skip(1);
        assert(first + tail =~= s);
        lemma_escape_concat(first, tail);
        let after = like_escaped(tail) + rest;
        assert(like_escaped(s) + rest =~= like_escaped(first) + after);
        lemma_like_char(s[0], after, text);
        if text.len() > 0 {
            lemma_like_literal(tail, rest, text.skip(1));
            lemma_same_start(s, text);
            if s.len() <= text.len() {
                assert(text.skip(1).skip(tail.len() as int) =~= text.skip(s.len() as int));
            }
        }
    }
}

proof fn lemma_like_anything(text: Seq<char>)
    ensures
        like(seq!['%'], text),
    decreases text.len(),
{
    reveal_with_fuel(like, 2);
    assert(seq!['%'].skip(1) =~= Seq::empty());
    if text.len() > 0 {
        lemma_like_anything(text.skip(1));
    }
}

proof fn lemma_like_slash(text: Seq<char>)
    requires
        !text.contains('/'),
    ensures
        !like(seq!['%', '/', '%'], text),
    decreases text.len(),
{
    let pattern = seq!['%', '/', '%'];
    assert(pattern.skip(1) =~= seq!['/', '%']);
    if text.len() > 0 {
        assert(text.contains(text[0]));
        let more = text.skip(1);
        assert forall|i: int| 0 <= i < more.len() implies more[i] != '/' by {
            assert(text[i + 1] == more[i]);
        }
        lemma_like_slash(more);
        assert(lower(text[0]) != lower('/'));
        assert(!like(seq!['/', '%'], text));
    } else {
        assert(!like(seq!['/', '%'], text));
    }
}

/// The patterns of a listing miss no direct child: its path matches the first pattern,
/// and not the second.
pub proof fn law_patterns_select_children(d: Seq<char>, p: Seq<char>)
    requires
        crate::path::valid_path(p),
        parent_of(p) == Some(d),
    ensures
        like(like_escaped(dir_prefix(d)) + "%"@, p),
        !like(like_escaped(dir_prefix(d)) + "%/%"@, p),
{
    reveal_strlit("%");
    reveal_strlit("%/%");
    assert("%"@ =~= seq!['%']);
    assert("%/%"@ =~= seq!['%', '/', '%']);
    crate::path::lemma_valid_path(p);
    crate::path::law_prefix_of_parent(p);
    crate::path::lemma_valid_path(d);
    let cs = crate::path::components(p);
    let name = cs.last();
    let prefix = dir_prefix(d);
    assert(crate::path::valid_component(cs[cs.len() - 1]));
    if cs.drop_last().len() == 0 {
        assert(cs.drop_last() =~= Seq::empty());
        assert(crate::path::slashed(cs.drop_last()) =~= Seq::empty());
    } else {
        crate::path::lemma_path_edges(d);
    }
    assert(p =~= prefix + name);
    assert(p.skip(prefix.len() as int) =~= name);
    lemma_like_literal(prefix, seq!['%'], p);
    lemma_like_literal(prefix, seq!['%', '/', '%'], p);
    lemma_like_anything(name);
    lemma_like_slash(name);
}

/// The rows that store some log entries.
pub open spec fn rows_of_wals(es: Seq<WalView>) -> Seq<WalRowView> {
    es.map_values(|e: WalView| row_of_wal(e))
}

/// A log is read back as it was stored: every entry, in its place.
pub proof fn law_log_round_trip(es: Seq<WalView>)
    ensures
        wals_of_rows(rows_of_wals(es)) == es,
    decreases es.len(),
{
    let keep = |r: WalRowView| wal_op_named(r.op) is Some;
    let read = |r: WalRowView| wal_of_row(r);
    reveal(Seq::filter);
    if es.len() == 0 {
        assert(wals_of_rows(rows_of_wals(es)) =~= es);
    } else {
        let front = es.drop_last();
        let rows = rows_of_wals(es);
        law_log_round_trip(front);
        law_wal_row_round_trip(es.last());
        assert(rows.drop_last() =~= rows_of_wals(front));
        assert(rows.last() == row_of_wal(es.last()));
        crate::types::law_wal_op_round_trip(es.last().op);
        let kept = rows_of_wals(front).filter(keep);
        assert(rows.filter(keep) == kept.push(rows.last()));
        assert(kept.push(rows.last()).map_values(read) =~= kept.map_values(read).push(read(rows.last())));
        let one = seq![row_of_wal(es.last())];
        assert(one.drop_last() =~= Seq::empty());
        assert(one.filter(keep) =~= one) by {
            assert(Seq::<WalRowView>::empty().filter(keep) =~= Seq::empty());
        }
        assert(wals_of_rows(one)[0] == read(one[0]));
        assert(wals_of_rows(rows) =~= front.push(es.last()));
    }
}

/// A row whose operation is not one of the two that there are is passed over; any other row
/// gives an entry with its ids, its operation, its time, its attempts and its last error.
pub proof fn law_log_rows_are_told_apart(a: Seq<WalRowView>, r: WalRowView)
    ensures
        r.op != "replicate_nas"@ && r.op != "upload_s3"@ ==> wals_of_rows(a.push(r)) == wals_of_rows(a),
        r.op == "replicate_nas"@ || r.op == "upload_s3"@ ==> {
            let all = wals_of_rows(a.push(r));
            &&& all.len() == wals_of_rows(a).len() + 1
            &&& all.drop_last() == wals_of_rows(a)
            &&& all.last().id == r.id
            &&& all.last().file_id == r.file_id
            &&& all.last().op == (if r.op == "replicate_nas"@ {
                WalOp::ReplicateNas
            } else {
                WalOp::UploadS3
            })
            &&& all.last().enqueued_at == r.enqueued_at
            &&& all.last().attempts == r.attempts as u32
            &&& all.last().last_error == r.last_error
        },
{
    let keep = |x: WalRowView| wal_op_named(x.op) is Some;
    let read = |x: WalRowView| wal_of_row(x);
    reveal(Seq::filter);
    assert(a.push(r).drop_last() =~= a);
    let kept = a.filter(keep);
    if keep(r) {
        assert(kept.push(r).map_values(read) =~= kept.map_values(read).push(read(r)));
        assert(wals_of_rows(a.push(r)).drop_last() =~= wals_of_rows(a));
    }
}

} // verus!
