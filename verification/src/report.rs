//! The lines that the commands print.

use crate::migrate::MigrateReport;
use crate::text::concat2;
use crate::text::concat3;
use crate::text::decimal;
use crate::text::decimal_of;
use crate::types::DaemonStatus;
use crate::types::EntryKind;
use crate::types::EntryView;
use crate::types::FileEntry;
use crate::types::TierStats;
use vstd::prelude::*;
use vstd::string::StringExecFns;

verus! {

/// The lines as texts.
pub open spec fn lines_of(v: Seq<String>) -> Seq<Seq<char>> {
    v.map_values(|s: String| s@)
}

/// A size in megabytes of two to the power of 20 bytes, rounded down.
pub open spec fn megabytes(bytes: u64) -> nat {
    bytes as nat / 0x10_0000
}

fn megabytes_text(bytes: u64) -> (r: String)
    ensures
        r@ == decimal(megabytes(bytes)),
{
    decimal_of(bytes / 1048576)
}

// ---------------------------------------------------------------------------
// Status

/// The line of a tier in the health report.
pub open spec fn tier_line(t: TierStats) -> Seq<char> {
    "  "@ + t.name@ + " : "@ + decimal(t.files as nat) + " files, "@ + decimal(megabytes(t.bytes))
        + " MB"@
}

/// The lines of the health report: the version and uptime, a line for each tier, and how
/// much of the log is pending.
pub open spec fn status_text(s: DaemonStatus) -> Seq<Seq<char>> {
    seq!["fvfsd v"@ + s.version@ + " \u{2014} uptime "@ + decimal(s.uptime_secs as nat) + "s"@]
        + s.tiers@.map_values(|t: TierStats| tier_line(t)) + seq![
        "  WAL pending: "@ + decimal(s.wal_pending as nat),
    ]
}

fn tier_line_of(t: &TierStats) -> (r: String)
    ensures
        r@ == tier_line(*t),
{
    let mut line = concat3("  ", t.name.as_str(), " : ");
    let files = decimal_of(t.files);
    line.append(files.as_str());
    line.append(" files, ");
    let size = megabytes_text(t.bytes);
    line.append(size.as_str());
    line.append(" MB");
    line
}

/// The lines of the health report.
pub fn status_lines(s: &DaemonStatus) -> (r: Vec<String>)
    ensures
        lines_of(r@) == status_text(*s),
{
    let mut out: Vec<String> = Vec::new();
    let mut head = concat3("fvfsd v", s.version.as_str(), " \u{2014} uptime ");
    let uptime = decimal_of(s.uptime_secs);
    head.append(uptime.as_str());
    head.append("s");
    out.push(head);
    let ghost top = seq![head@];
    let ghost body = s.tiers@.map_values(|t: TierStats| tier_line(t));
    let mut i: usize = 0;
    assert(lines_of(out@) =~= top + body.take(0));
    while i < s.tiers.len()
        invariant
            i <= s.tiers@.len(),
            body == s.tiers@.map_values(|t: TierStats| tier_line(t)),
            lines_of(out@) == top + body.take(i as int),
        decreases s.tiers.len() - i,
    {
        let ghost before = out@;
        let line = tier_line_of(&s.tiers[i]);
        out.push(line);
        assert(lines_of(out@) =~= lines_of(before).push(line@));
        i += 1;
        assert(lines_of(out@) =~= top + body.take(i as int));
    }
    let ghost before = out@;
    let pending = decimal_of(s.wal_pending);
    let last = concat2("  WAL pending: ", pending.as_str());
    out.push(last);
    assert(lines_of(out@) =~= lines_of(before).push(last@));
    assert(lines_of(out@) =~= status_text(*s));
    out
}

// ---------------------------------------------------------------------------
// Migration

/// The lines of a migration's report.
pub open spec fn migration_text(m: MigrateReport) -> Seq<Seq<char>> {
    seq![
        "Migration complete:"@,
        "  Total files  : "@ + decimal(m.total_files as nat),
        "  Total bytes  : "@ + decimal(megabytes(m.total_bytes)) + " MB"@,
        "  Duplicates   : "@ + decimal(m.duplicates as nat),
        "  S3 uploaded  : "@ + decimal(megabytes(m.s3_upload_bytes)) + " MB"@,
        "  Errors       : "@ + decimal(m.errors as nat),
    ]
}

/// The lines of a migration's report.
pub fn migration_lines(m: &MigrateReport) -> (r: Vec<String>)
    ensures
        lines_of(r@) == migration_text(*m),
{
    let files = decimal_of(m.total_files);
    let bytes = megabytes_text(m.total_bytes);
    let duplicates = decimal_of(m.duplicates);
    let uploaded = megabytes_text(m.s3_upload_bytes);
    let errors = decimal_of(m.errors);
    let mut out: Vec<String> = Vec::new();
    out.push("Migration complete:".to_owned());
    out.push(concat2("  Total files  : ", files.as_str()));
    out.push(concat3("  Total bytes  : ", bytes.as_str(), " MB"));
    out.push(concat2("  Duplicates   : ", duplicates.as_str()));
    out.push(concat3("  S3 uploaded  : ", uploaded.as_str(), " MB"));
    out.push(concat2("  Errors       : ", errors.as_str()));
    assert(lines_of(out@) =~= migration_text(*m));
    out
}

// ---------------------------------------------------------------------------
// Listings

/// `s` with spaces in front, up to a width.
pub open spec fn padded(s: Seq<char>, width: nat) -> Seq<char> {
    if s.len() >= width {
        s
    } else {
        Seq::new((width - s.len()) as nat, |i: int| ' ') + s
    }
}

/// The line of an entry in a listing: its kind, its size and its path.
pub open spec fn ls_text(e: EntryView) -> Seq<char> {
    (if e.kind == EntryKind::Directory {
        "d"@
    } else {
        "-"@
    }) + " "@ + padded(decimal(e.size_bytes as nat), 12) + " "@ + e.path
}

/// The line of an entry in a listing.
pub fn ls_line(e: &FileEntry) -> (r: String)
    ensures
        r@ == ls_text(e@),
{
    let size = decimal_of(e.size_bytes);
    let n: usize = crate::text::chars_of(size.as_str()).len();
    let mut pad = String::new();
    let mut i: usize = n;
    while i < 12
        invariant
            n <= i,
            n < 12 ==> i <= 12,
            n >= 12 ==> i == n,
            pad@ == Seq::new((i - n) as nat, |j: int| ' '),
        decreases 12 - i,
    {
        pad.push(' ');
        i += 1;
        assert(pad@ =~= Seq::new((i - n) as nat, |j: int| ' '));
    }
    assert(padded(size@, 12) =~= pad@ + size@);
    let mut line = if e.kind == EntryKind::Directory {
        concat2("d", " ")
    } else {
        concat2("-", " ")
    };
    line.append(pad.as_str());
    line.append(size.as_str());
    line.append(" ");
    line.append(e.path.as_str());
    assert(line@ =~= ls_text(e@));
    line
}

// ---------------------------------------------------------------------------
// Laws of the lines

/// A size in megabytes is rounded down: it is as many as are full.
pub proof fn law_megabytes_are_full(bytes: u64)
    ensures
        megabytes(bytes) * 1_048_576 <= bytes,
        bytes < (megabytes(bytes) + 1) * 1_048_576,
{
}

/// A text that is padded has the width if it is not longer, ends with the text, and has
/// spaces in front of it.
pub proof fn law_padding_is_in_front(s: Seq<char>, width: nat)
    ensures
        padded(s, width).len() == (if s.len() < width {
            width
        } else {
            s.len()
        }),
        padded(s, width).skip(padded(s, width).len() - s.len()) == s,
        forall|i: int| 0 <= i < padded(s, width).len() - s.len() ==> #[trigger] padded(s, width)[i] == ' ',
{
    assert(padded(s, width).skip(padded(s, width).len() - s.len()) =~= s);
}

/// A line that starts with a number tells it, and what is behind it, if that does not start
/// with a digit.
proof fn lemma_number_in_front(a: nat, b: nat, x: Seq<char>, y: Seq<char>)
    requires
        decimal(a) + x == decimal(b) + y,
        x.len() > 0 && !('0' <= x[0] <= '9'),
        y.len() > 0 && !('0' <= y[0] <= '9'),
    ensures
        a == b,
        x == y,
{
    let p = decimal(a);
    let q = decimal(b);
    let s = p + x;
    crate::text::law_decimal_spells_the_number(a);
    crate::text::law_decimal_spells_the_number(b);
    assert(s[p.len() as int] == x[0]);
    assert((q + y)[q.len() as int] == y[0]);
    if p.len() < q.len() {
        assert((q + y)[p.len() as int] == q[p.len() as int]);
    } else if q.len() < p.len() {
        assert(s[q.len() as int] == p[q.len() as int]);
    }
    assert(p =~= s.take(p.len() as int));
    assert(q =~= (q + y).take(q.len() as int));
    assert(x =~= s.skip(p.len() as int));
    assert(y =~= (q + y).skip(q.len() as int));
}

/// A number at the end of a line is told by it.
proof fn lemma_number_at_the_end(front: Seq<char>, a: nat, b: nat)
    requires
        front + decimal(a) == front + decimal(b),
    ensures
        a == b,
{
    crate::text::law_decimal_spells_the_number(a);
    crate::text::law_decimal_spells_the_number(b);
    assert(decimal(a) =~= (front + decimal(a)).skip(front.len() as int));
    assert(decimal(b) =~= (front + decimal(b)).skip(front.len() as int));
}

/// A number between two texts is told by the line.
proof fn lemma_number_between(front: Seq<char>, a: nat, b: nat, x: Seq<char>, y: Seq<char>)
    requires
        front + decimal(a) + x == front + decimal(b) + y,
        x.len() > 0 && !('0' <= x[0] <= '9'),
        y.len() > 0 && !('0' <= y[0] <= '9'),
    ensures
        a == b,
        x == y,
{
    assert(decimal(a) + x =~= (front + decimal(a) + x).skip(front.len() as int));
    assert(decimal(b) + y =~= (front + decimal(b) + y).skip(front.len() as int));
    lemma_number_in_front(a, b, x, y);
}

/// The line of a tier tells how many files it has and how many megabytes they take.
pub proof fn law_tier_line_tells(a: TierStats, b: TierStats)
    requires
        a.name@ == b.name@,
        tier_line(a) == tier_line(b),
    ensures
        a.files == b.files,
        megabytes(a.bytes) == megabytes(b.bytes),
{
    reveal_strlit(" files, ");
    reveal_strlit(" MB");
    let front = "  "@ + a.name@ + " : "@;
    let x = " files, "@ + decimal(megabytes(a.bytes)) + " MB"@;
    let y = " files, "@ + decimal(megabytes(b.bytes)) + " MB"@;
    assert(tier_line(a) =~= front + decimal(a.files as nat) + x);
    assert(tier_line(b) =~= front + decimal(b.files as nat) + y);
    lemma_number_between(front, a.files as nat, b.files as nat, x, y);
    lemma_number_between(
        " files, "@,
        megabytes(a.bytes),
        megabytes(b.bytes),
        " MB"@,
        " MB"@,
    );
}

/// The lines of the health report tell all of it, but for sizes below a megabyte: two
/// reports with the same version, the same tiers and the same lines have the same numbers.
pub proof fn law_status_lines_tell(a: DaemonStatus, b: DaemonStatus)
    requires
        a.version@ == b.version@,
        a.tiers@.len() == b.tiers@.len(),
        forall|i: int| 0 <= i < a.tiers@.len() ==> (#[trigger] a.tiers@[i]).name@ == b.tiers@[i].name@,
        status_text(a) == status_text(b),
    ensures
        status_text(a).len() == a.tiers@.len() + 2,
        a.uptime_secs == b.uptime_secs,
        a.wal_pending == b.wal_pending,
        forall|i: int|
            0 <= i < a.tiers@.len() ==> (#[trigger] a.tiers@[i]).files == b.tiers@[i].files && megabytes(
                a.tiers@[i].bytes,
            ) == megabytes(b.tiers@[i].bytes),
{
    reveal_strlit("s");
    let n = a.tiers@.len() as int;
    let s = status_text(a);
    let t = status_text(b);
    let front = "fvfsd v"@ + a.version@ + " \u{2014} uptime "@;
    assert(s[0] == front + decimal(a.uptime_secs as nat) + "s"@);
    assert(t[0] == front + decimal(b.uptime_secs as nat) + "s"@);
    lemma_number_between(front, a.uptime_secs as nat, b.uptime_secs as nat, "s"@, "s"@);
    assert(s[n + 1] == "  WAL pending: "@ + decimal(a.wal_pending as nat));
    assert(t[n + 1] == "  WAL pending: "@ + decimal(b.wal_pending as nat));
    lemma_number_at_the_end("  WAL pending: "@, a.wal_pending as nat, b.wal_pending as nat);
    assert forall|i: int| 0 <= i < n implies (#[trigger] a.tiers@[i]).files == b.tiers@[i].files && megabytes(
        a.tiers@[i].bytes,
    ) == megabytes(b.tiers@[i].bytes) by {
        assert(s[i + 1] == tier_line(a.tiers@[i]));
        assert(t[i + 1] == tier_line(b.tiers@[i]));
        law_tier_line_tells(a.tiers@[i], b.tiers@[i]);
    }
}

/// The lines of a migration's report tell all of it, but for sizes below a megabyte.
pub proof fn law_migration_lines_tell(a: MigrateReport, b: MigrateReport)
    requires
        migration_text(a) == migration_text(b),
    ensures
        a.total_files == b.total_files,
        megabytes(a.total_bytes) == megabytes(b.total_bytes),
        a.duplicates == b.duplicates,
        megabytes(a.s3_upload_bytes) == megabytes(b.s3_upload_bytes),
        a.errors == b.errors,
{
    reveal_strlit(" MB");
    let s = migration_text(a);
    let t = migration_text(b);
    assert(s[1] == t[1] && s[2] == t[2] && s[3] == t[3] && s[4] == t[4] && s[5] == t[5]);
    lemma_number_at_the_end("  Total files  : "@, a.total_files as nat, b.total_files as nat);
    lemma_number_between(
        "  Total bytes  : "@,
        megabytes(a.total_bytes),
        megabytes(b.total_bytes),
        " MB"@,
        " MB"@,
    );
    lemma_number_at_the_end("  Duplicates   : "@, a.duplicates as nat, b.duplicates as nat);
    lemma_number_between(
        "  S3 uploaded  : "@,
        megabytes(a.s3_upload_bytes),
        megabytes(b.s3_upload_bytes),
        " MB"@,
        " MB"@,
    );
    lemma_number_at_the_end("  Errors       : "@, a.errors as nat, b.errors as nat);
}

/// The line of an entry starts with a letter for a directory and a dash for a file, ends
/// with the path, and spells the size in between, with spaces around it.
pub proof fn law_ls_line_tells(e: EntryView)
    ensures
        ({
            let line = ls_text(e);
            let end = line.len() - e.path.len();
            let size = crate::text::trim_start(line.subrange(2, end - 1), ' ');
            &&& end >= 4
            &&& line[0] == (if e.kind == EntryKind::Directory {
                'd'
            } else {
                '-'
            })
            &&& line[1] == ' ' && line[end - 1] == ' '
            &&& line.skip(end) == e.path
            &&& size == decimal(e.size_bytes as nat)
            &&& crate::text::spelled(size) == e.size_bytes
        }),
{
    reveal_strlit("d");
    reveal_strlit("-");
    reveal_strlit(" ");
    let digits = decimal(e.size_bytes as nat);
    let middle = padded(digits, 12);
    let line = ls_text(e);
    let end = line.len() - e.path.len();
    crate::text::law_decimal_spells_the_number(e.size_bytes as nat);
    law_padding_is_in_front(digits, 12);
    assert(line.skip(end) =~= e.path);
    assert(line.subrange(2, end - 1) =~= middle);
    crate::text::law_trim_start_takes_the_run(middle, ' ');
    let n = middle.len() - crate::text::trim_start(middle, ' ').len();
    let pad = middle.len() - digits.len();
    assert(middle[pad] == digits[0]);
    if n < pad {
        assert(middle[n] == ' ');
    } else if n > pad {
        assert(middle[pad] == ' ');
    }
    assert(middle.skip(pad) =~= digits);
}

} // verus!
