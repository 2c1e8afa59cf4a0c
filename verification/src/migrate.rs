//! Migration of existing data.
//!
//! The files below the local and the NAS directory are hashed, deduplicated by hash,
//! and what is unique is uploaded to S3 and entered in the metadata index.

use crate::action::Action;
use crate::action::ActionView;
use crate::action::Event;
use crate::action::EventView;
use crate::action::Shape;
use crate::path::normal_form;
use crate::path::VfsPath;
use crate::text::concat2;
use crate::text::replace_char;
use crate::text::replace_char_in;
use crate::tier::Tier;
use crate::tier::TierBitmask;
use crate::types::FileMetadata;
use crate::types::MetaView;
use vstd::hash_set::StringHashSet;
use vstd::prelude::*;

verus! {

/// A file that was found and hashed.
#[derive(Debug, PartialEq, Eq)]
pub struct HashedFile {
    /// Where it lies below the directory that was crawled.
    pub rel: String,
    pub tier: Tier,
    pub sha256: String,
    pub size_bytes: u64,
}

/// The mathematical value of a [`HashedFile`].
pub struct HashedView {
    pub rel: Seq<char>,
    pub tier: Tier,
    pub sha256: Seq<char>,
    pub size_bytes: u64,
}

impl View for HashedFile {
    type V = HashedView;

    open spec fn view(&self) -> HashedView {
        HashedView {
            rel: self.rel@,
            tier: self.tier,
            sha256: self.sha256@,
            size_bytes: self.size_bytes,
        }
    }
}

/// The value of what became of hashing a file.
pub open spec fn opt_hashed(f: Option<HashedFile>) -> Option<HashedView> {
    match f {
        Some(x) => Some(x@),
        None => None,
    }
}

/// The values of what became of hashing the files.
pub open spec fn hashed(v: Seq<Option<HashedFile>>) -> Seq<Option<HashedView>> {
    v.map_values(|f: Option<HashedFile>| opt_hashed(f))
}

/// What a migration has done.
#[derive(Debug, Clone, Copy, PartialEq, Eq, Structural)]
pub struct MigrateReport {
    pub total_files: u64,
    pub total_bytes: u64,
    pub duplicates: u64,
    pub s3_upload_bytes: u64,
    pub errors: u64,
}

// ---------------------------------------------------------------------------
// What is to be uploaded

/// The file at `i` was hashed, and no file before it has its hash.
pub open spec fn is_first(files: Seq<Option<HashedView>>, i: int) -> bool {
    &&& files[i] is Some
    &&& forall|j: int|
        0 <= j < i ==> (#[trigger] files[j] matches Some(f) ==> f.sha256 != files[i]->0.sha256)
}

/// The positions below `n`.
pub open spec fn positions(n: nat) -> Seq<int> {
    Seq::new(n, |i: int| i)
}

/// The positions of the files to upload: the first of each content.
pub open spec fn firsts(files: Seq<Option<HashedView>>) -> Seq<int> {
    positions(files.len()).filter(|i: int| is_first(files, i))
}

/// How many files were hashed.
pub open spec fn count_hashed(files: Seq<Option<HashedView>>) -> nat
    decreases files.len(),
{
    if files.len() == 0 {
        0
    } else {
        count_hashed(files.drop_last()) + if files.last() is Some {
            1nat
        } else {
            0
        }
    }
}

/// The total size of the files that were hashed.
pub open spec fn sum_hashed(files: Seq<Option<HashedView>>) -> nat
    decreases files.len(),
{
    if files.len() == 0 {
        0
    } else {
        sum_hashed(files.drop_last()) + match files.last() {
            Some(f) => f.size_bytes as nat,
            None => 0,
        }
    }
}

/// The report before anything is uploaded. The total size is kept modulo two to the
/// power of 64.
pub open spec fn opening_report(files: Seq<Option<HashedView>>) -> MigrateReport {
    MigrateReport {
        total_files: count_hashed(files) as u64,
        total_bytes: (sum_hashed(files) % 0x1_0000_0000_0000_0000) as u64,
        duplicates: (count_hashed(files) - firsts(files).len()) as u64,
        s3_upload_bytes: 0,
        errors: 0,
    }
}

spec fn ints(v: Seq<usize>) -> Seq<int> {
    v.map_values(|i: usize| i as int)
}

/// There are at most as many files to upload as were hashed.
pub proof fn lemma_firsts_count(files: Seq<Option<HashedView>>, n: nat)
    requires
        n <= files.len(),
    ensures
        positions(n).filter(|i: int| is_first(files, i)).len() <= count_hashed(files.take(n as int)) <= n,
    decreases n,
{
    let keep = |i: int| is_first(files, i);
    reveal(Seq::filter);
    if n > 0 {
        let m = (n - 1) as nat;
        lemma_firsts_count(files, m);
        assert(positions(n).drop_last() =~= positions(m));
        assert(files.take(n as int).drop_last() =~= files.take(m as int));
    }
}

/// The files to upload, and the report so far.
fn plan(files: &Vec<Option<HashedFile>>) -> (r: (Vec<usize>, MigrateReport))
    ensures
        ints(r.0@) == firsts(hashed(files@)),
        forall|k: int| 0 <= k < r.0@.len() ==> (#[trigger] r.0@[k]) < files@.len() && files@[r.0@[k] as int] is Some,
        r.1 == opening_report(hashed(files@)),
{
    let ghost fs = hashed(files@);
    let ghost keep = |i: int| is_first(fs, i);
    let mut seen = StringHashSet::new();
    let mut out: Vec<usize> = Vec::new();
    let mut total_files: u64 = 0;
    let mut total_bytes: u64 = 0;
    let mut duplicates: u64 = 0;
    let mut i: usize = 0;
    proof {
        reveal(Seq::filter);
        assert(positions(0).filter(keep) =~= Seq::empty());
        assert(fs.take(0) =~= Seq::empty());
    }
    while i < files.len()
        invariant
            i <= files@.len(),
            fs == hashed(files@),
            keep == (|i: int| is_first(fs, i)),
            forall|h: Seq<char>| #[trigger] seen@.contains(h) <==> exists|j: int|
                0 <= j < i && (#[trigger] fs[j] matches Some(f) && f.sha256 == h),
            ints(out@) == positions(i as nat).filter(keep),
            forall|k: int| 0 <= k < out@.len() ==> (#[trigger] out@[k]) < files@.len() && files@[out@[k] as int] is Some,
            total_files == count_hashed(fs.take(i as int)),
            total_files <= i,
            total_bytes == sum_hashed(fs.take(i as int)) % 0x1_0000_0000_0000_0000,
            duplicates == total_files - out@.len(),
            out@.len() <= total_files,
        decreases files.len() - i,
    {
        proof {
            reveal(Seq::filter);
            assert(positions((i + 1) as nat).drop_last() =~= positions(i as nat));
            assert(fs.take(i + 1).drop_last() =~= fs.take(i as int));
            assert(fs[i as int] == opt_hashed(files@[i as int]));
        }
        let ghost before = out@;
        let ghost had = seen@;
        match &files[i] {
            Some(f) => {
                let hash = f.sha256.clone();
                total_files = total_files + 1;
                let ghost sum = sum_hashed(fs.take(i as int));
                total_bytes = total_bytes.wrapping_add(f.size_bytes);
                proof {
                    let m = 0x1_0000_0000_0000_0000int;
                    vstd::arithmetic::div_mod::lemma_add_mod_noop(sum as int, f.size_bytes as int, m);
                    vstd::arithmetic::div_mod::lemma_small_mod(f.size_bytes as nat, m as nat);
                    let whole = (sum % (m as nat)) + f.size_bytes;
                    if whole < m {
                        vstd::arithmetic::div_mod::lemma_small_mod(whole as nat, m as nat);
                    } else {
                        vstd::arithmetic::div_mod::lemma_small_mod((whole - m) as nat, m as nat);
                        vstd::arithmetic::div_mod::lemma_mod_sub_multiples_vanish(whole as int, m);
                    }
                }
                if seen.contains(hash.as_str()) {
                    assert(!is_first(fs, i as int));
                    duplicates = duplicates + 1;
                } else {
                    proof {
                        assert forall|j: int| 0 <= j < i implies (#[trigger] fs[j] matches Some(g) ==> g.sha256
                            != fs[i as int]->0.sha256) by {
                            if let Some(g) = fs[j] {
                                if g.sha256 == hash@ {
                                    assert(seen@.contains(hash@));
                                }
                            }
                        }
                        assert(is_first(fs, i as int));
                    }
                    seen.insert(hash);
                    out.push(i);
                    assert(ints(out@) =~= ints(before).push(i as int));
                }
                proof {
                    assert forall|h: Seq<char>| #[trigger] seen@.contains(h) <==> exists|j: int|
                        0 <= j < i + 1 && (#[trigger] fs[j] matches Some(f) && f.sha256 == h) by {
                        if had.contains(h) {
                            let j = choose|j: int|
                                0 <= j < i && (#[trigger] fs[j] matches Some(f) && f.sha256 == h);
                            assert(0 <= j < i + 1 && (fs[j] matches Some(f) && f.sha256 == h));
                        }
                        if h == hash@ {
                            assert(fs[i as int] matches Some(f) && f.sha256 == h);
                        }
                    }
                }
            },
            None => {
                assert(fs[i as int] is None);
                assert(!is_first(fs, i as int));
            },
        }
        i += 1;
    }
    proof {
        assert(fs.take(fs.len() as int) =~= fs);
    }
    (
        out,
        MigrateReport { total_files, total_bytes, duplicates, s3_upload_bytes: 0, errors: 0 },
    )
}

// ---------------------------------------------------------------------------
// The uploads

/// The text that names the file in the virtual filesystem.
pub open spec fn vfs_text(rel: Seq<char>) -> Seq<char> {
    "/"@ + replace_char(rel, '\\', '/')
}

/// The entry of a migrated file: on the tier where it was found, and in S3.
pub open spec fn migrated_file(path: Seq<char>, f: HashedView, now: i64) -> MetaView {
    MetaView {
        tiers: TierBitmask(0).with(f.tier).with(Tier::S3),
        ..crate::types::fresh_file(path, f.size_bytes, f.sha256, now)
    }
}

/// What is being done for the file at hand.
#[derive(Debug, Clone, Copy, PartialEq, Eq, Structural)]
pub enum Stage {
    /// Reading it.
    Reading,
    /// Uploading it.
    Uploading,
    /// Entering it in the index.
    Indexing,
}

/// Where a migration stands: the file at hand, which is uploaded to `path`, and the
/// positions of those behind it.
pub struct MigrationView {
    pub files: Seq<Option<HashedView>>,
    pub rest: Seq<int>,
    pub index: int,
    pub path: Seq<char>,
    pub report: MigrateReport,
    pub stage: Stage,
}

/// The outcome of one step of a migration.
pub enum MigrateStepView {
    Next(MigrationView, ActionView),
    Done(MigrateReport),
}

/// The report with one more error.
pub open spec fn with_error(r: MigrateReport) -> MigrateReport {
    MigrateReport { errors: (r.errors + 1) as u64, ..r }
}

/// The report with the upload of a file.
pub open spec fn with_upload(r: MigrateReport, size_bytes: u64) -> MigrateReport {
    MigrateReport { s3_upload_bytes: r.s3_upload_bytes.wrapping_add(size_bytes), ..r }
}

/// The step to the next file whose name can be a path.
pub open spec fn next_source(files: Seq<Option<HashedView>>, rest: Seq<int>, report: MigrateReport) -> MigrateStepView
    decreases rest.len(),
{
    if rest.len() == 0 {
        MigrateStepView::Done(report)
    } else {
        let text = vfs_text(files[rest[0]]->0.rel);
        if crate::path::nameable(text) {
            MigrateStepView::Next(
                MigrationView {
                    files,
                    rest: rest.skip(1),
                    index: rest[0],
                    path: normal_form(text),
                    report,
                    stage: Stage::Reading,
                },
                ActionView::ReadSource { index: rest[0] as usize },
            )
        } else {
            next_source(files, rest.skip(1), with_error(report))
        }
    }
}

/// The shape of the answer that a migration waits for.
pub open spec fn migration_awaits(s: MigrationView) -> Shape {
    match s.stage {
        Stage::Reading => Shape::Data,
        Stage::Uploading => Shape::Finished,
        Stage::Indexing => Shape::Id,
    }
}

/// What a migration does with an answer.
pub open spec fn migration_step(s: MigrationView, e: EventView, now: i64) -> MigrateStepView {
    let f = s.files[s.index]->0;
    match (s.stage, e) {
        (Stage::Reading, EventView::Data(Ok(data))) => MigrateStepView::Next(
            MigrationView { stage: Stage::Uploading, ..s },
            ActionView::Put { tier: Tier::S3, path: s.path, data },
        ),
        (Stage::Uploading, EventView::Finished(Ok(_))) => MigrateStepView::Next(
            MigrationView {
                stage: Stage::Indexing,
                report: with_upload(s.report, f.size_bytes),
                ..s
            },
            ActionView::Upsert { meta: migrated_file(s.path, f, now) },
        ),
        (Stage::Indexing, _) => next_source(s.files, s.rest, s.report),
        _ => next_source(s.files, s.rest, with_error(s.report)),
    }
}

/// A migration in progress.
#[derive(Debug, PartialEq, Eq)]
pub struct Migration {
    files: Vec<Option<HashedFile>>,
    uploads: Vec<usize>,
    at: usize,
    path: VfsPath,
    report: MigrateReport,
    stage: Stage,
}

impl View for Migration {
    type V = MigrationView;

    closed spec fn view(&self) -> MigrationView {
        MigrationView {
            files: hashed(self.files@),
            rest: ints(self.uploads@).skip(self.at + 1),
            index: self.uploads@[self.at as int] as int,
            path: self.path@,
            report: self.report,
            stage: self.stage,
        }
    }
}

/// The outcome of one step of a migration.
#[derive(Debug, PartialEq, Eq)]
pub enum MigrateStep {
    /// The migration goes on, and waits for the answer to the action.
    Next(Migration, Action),
    /// The migration is over.
    Done(MigrateReport),
}

impl View for MigrateStep {
    type V = MigrateStepView;

    open spec fn view(&self) -> MigrateStepView {
        match self {
            MigrateStep::Next(s, a) => MigrateStepView::Next(s@, a@),
            MigrateStep::Done(r) => MigrateStepView::Done(*r),
        }
    }
}

/// The path of a file in the virtual filesystem, if its name can be one.
fn vfs_path_of(rel: &str) -> (r: Option<VfsPath>)
    ensures
        match r {
            Some(p) => crate::path::nameable(vfs_text(rel@)) && p@ == normal_form(vfs_text(rel@)),
            None => !crate::path::nameable(vfs_text(rel@)),
        },
{
    let slashed = replace_char_in(rel, '\\', '/');
    let text = concat2("/", slashed.as_str());
    match VfsPath::new(text.as_str()) {
        Ok(p) => Some(p),
        Err(_) => None,
    }
}

/// The step to the first file from `from` on whose name can be a path.
fn source_from(files: Vec<Option<HashedFile>>, uploads: Vec<usize>, from: usize, report: MigrateReport) -> (r: MigrateStep)
    requires
        from <= uploads@.len(),
        report.errors <= from,
        forall|k: int| 0 <= k < uploads@.len() ==> (#[trigger] uploads@[k]) < files@.len() && files@[uploads@[k] as int] is Some,
    ensures
        r@ == next_source(hashed(files@), ints(uploads@).skip(from as int), report),
{
    let ghost fs = hashed(files@);
    let ghost all = ints(uploads@);
    let mut at: usize = from;
    let mut done = report;
    while at < uploads.len()
        invariant
            at <= uploads@.len(),
            done.errors <= at,
            fs == hashed(files@),
            all == ints(uploads@),
            forall|k: int| 0 <= k < uploads@.len() ==> (#[trigger] uploads@[k]) < files@.len() && files@[uploads@[k] as int] is Some,
            next_source(fs, all.skip(from as int), report) == next_source(fs, all.skip(at as int), done),
        decreases uploads.len() - at,
    {
        let index: usize = uploads[at];
        assert(all.skip(at as int)[0] == index);
        assert(all.skip(at as int).skip(1) =~= all.skip(at + 1));
        assert(fs[index as int] == opt_hashed(files@[index as int]));
        let found = match &files[index] {
            Some(f) => vfs_path_of(f.rel.as_str()),
            None => None,
        };
        match found {
            Some(path) => {
                return MigrateStep::Next(
                    Migration { files, uploads, at, path, report: done, stage: Stage::Reading },
                    Action::ReadSource { index },
                );
            },
            None => {
                done = MigrateReport { errors: done.errors + 1, ..done };
            },
        }
        at += 1;
    }
    MigrateStep::Done(done)
}

/// Starts a migration of the files that were found: each was hashed, or could not be.
pub fn run_migration(files: Vec<Option<HashedFile>>) -> (r: MigrateStep)
    ensures
        r@ == next_source(
            hashed(files@),
            firsts(hashed(files@)),
            opening_report(hashed(files@)),
        ),
{
    let (uploads, report) = plan(&files);
    proof {
        assert(ints(uploads@).skip(0) =~= ints(uploads@));
    }
    source_from(files, uploads, 0, report)
}

impl Migration {
    /// The file at hand is one of those to upload, and there are no more errors than
    /// files behind.
    #[verifier::type_invariant]
    spec fn bounded(self) -> bool {
        &&& self.at < self.uploads@.len()
        &&& self.report.errors <= self.at
        &&& forall|k: int|
            0 <= k < self.uploads@.len() ==> (#[trigger] self.uploads@[k]) < self.files@.len()
                && self.files@[self.uploads@[k] as int] is Some
    }

    /// Whether the migration waits for an answer of this shape.
    pub fn expects(&self, event: &Event) -> (r: bool)
        ensures
            r == (crate::action::event_shape(event@) == migration_awaits(self@)),
    {
        match self.stage {
            Stage::Reading => event.shape() == Shape::Data,
            Stage::Uploading => event.shape() == Shape::Finished,
            Stage::Indexing => event.shape() == Shape::Id,
        }
    }

    /// Takes the answer to the last action, which arrives at the time `now`.
    pub fn step(self, event: Event, now: i64) -> (r: MigrateStep)
        requires
            crate::action::event_shape(event@) == migration_awaits(self@),
        ensures
            r@ == migration_step(self@, event@, now),
    {
        proof {
            use_type_invariant(&self);
        }
        let Migration { files, uploads, at, path, report, stage } = self;
        assert(at < uploads.len());
        let index: usize = uploads[at];
        assert(hashed(files@)[index as int] == opt_hashed(files@[index as int]));
        match (stage, event) {
            (Stage::Reading, Event::Data(Ok(data))) => {
                let to = path.clone();
                MigrateStep::Next(
                    Migration { files, uploads, at, path, report, stage: Stage::Uploading },
                    Action::Put { tier: Tier::S3, path: to, data },
                )
            },
            (Stage::Uploading, Event::Finished(Ok(_))) => {
                let (tier, sha256, size_bytes) = match &files[index] {
                    Some(f) => (f.tier, f.sha256.clone(), f.size_bytes),
                    None => {
                        assert(false);
                        (Tier::S3, String::new(), 0u64)
                    },
                };
                let mut tier_bitmask = TierBitmask::none();
                tier_bitmask.set(tier);
                tier_bitmask.set(Tier::S3);
                let fresh = FileMetadata::file_at(path.clone(), size_bytes, sha256, now);
                let meta = FileMetadata { tier_bitmask, ..fresh };
                let report = MigrateReport {
                    s3_upload_bytes: report.s3_upload_bytes.wrapping_add(size_bytes),
                    ..report
                };
                MigrateStep::Next(
                    Migration { files, uploads, at, path, report, stage: Stage::Indexing },
                    Action::Upsert { meta },
                )
            },
            (Stage::Indexing, _) => source_from(files, uploads, at + 1, report),
            (_, _) => {
                let report = MigrateReport { errors: report.errors + 1, ..report };
                source_from(files, uploads, at + 1, report)
            },
        }
    }
}

// ---------------------------------------------------------------------------
// Laws of a migration

/// Deduplication by hash: no two files that are uploaded have the same hash, and every
/// file that was hashed has the hash of one that is.
pub proof fn law_one_upload_per_content(files: Seq<Option<HashedView>>)
    ensures
        forall|a: int, b: int|
            0 <= a < b < firsts(files).len() ==> files[#[trigger] firsts(files)[a]]->0.sha256
                != files[#[trigger] firsts(files)[b]]->0.sha256,
        forall|i: int|
            0 <= i < files.len() && (#[trigger] files[i]) is Some ==> exists|a: int|
                0 <= a < firsts(files).len() && files[#[trigger] firsts(files)[a]] is Some
                    && files[firsts(files)[a]]->0.sha256 == files[i]->0.sha256,
{
    assert forall|a: int, b: int| 0 <= a < b < firsts(files).len() implies files[#[trigger] firsts(files)[a]]->0.sha256
        != files[#[trigger] firsts(files)[b]]->0.sha256 by {
        lemma_firsts_differ(files, a, b);
    }
    assert forall|i: int| 0 <= i < files.len() && (#[trigger] files[i]) is Some implies exists|a: int|
        0 <= a < firsts(files).len() && files[#[trigger] firsts(files)[a]] is Some
            && files[firsts(files)[a]]->0.sha256 == files[i]->0.sha256 by {
        let a = lemma_firsts_cover(files, i);
        assert(files[firsts(files)[a]] is Some);
    }
}

/// Of the files with the same hash the one that was found first is uploaded: a file is passed
/// over only for one that comes before it.
pub proof fn law_first_copy_is_uploaded(files: Seq<Option<HashedView>>, i: int)
    requires
        0 <= i < files.len(),
        files[i] is Some,
        !firsts(files).contains(i),
    ensures
        exists|j: int|
            0 <= j < i && (#[trigger] files[j] matches Some(f) && f.sha256 == files[i]->0.sha256)
                && firsts(files).contains(j),
{
    let a = lemma_firsts_cover(files, i);
    let j = firsts(files)[a];
    assert(firsts(files).contains(j));
    lemma_filtered_positions(files, files.len());
    assert(files[j] is Some);
}

/// The files are uploaded in the order in which they were found.
pub proof fn law_uploads_keep_the_order(files: Seq<Option<HashedView>>, a: int, b: int)
    requires
        0 <= a < b < firsts(files).len(),
    ensures
        0 <= firsts(files)[a] < firsts(files)[b] < files.len(),
{
    lemma_filtered_positions(files, files.len());
}

proof fn lemma_firsts_differ(files: Seq<Option<HashedView>>, a: int, b: int)
    requires
        0 <= a < b < firsts(files).len(),
    ensures
        files[firsts(files)[a]]->0.sha256 != files[firsts(files)[b]]->0.sha256,
{
    lemma_filtered_positions(files, files.len());
    let x = firsts(files)[a];
    let y = firsts(files)[b];
    assert(x < y && is_first(files, x) && is_first(files, y));
    assert(files[x] is Some);
}

proof fn lemma_firsts_cover(files: Seq<Option<HashedView>>, i: int) -> (a: int)
    requires
        0 <= i < files.len(),
        files[i] is Some,
    ensures
        0 <= a < firsts(files).len(),
        files[firsts(files)[a]] is Some,
        files[firsts(files)[a]]->0.sha256 == files[i]->0.sha256,
        firsts(files)[a] <= i,
{
    let k = lemma_earliest(files, i);
    lemma_filtered_positions(files, files.len());
    assert(is_first(files, k));
    assert(firsts(files).contains(k));
    choose|a: int| 0 <= a < firsts(files).len() && firsts(files)[a] == k
}

proof fn lemma_filtered_positions(files: Seq<Option<HashedView>>, n: nat)
    requires
        n <= files.len(),
    ensures
        ({
            let fs = positions(n).filter(|i: int| is_first(files, i));
            &&& forall|a: int| 0 <= a < fs.len() ==> 0 <= #[trigger] fs[a] < n && is_first(files, fs[a])
            &&& forall|a: int, b: int| 0 <= a < b < fs.len() ==> #[trigger] fs[a] < #[trigger] fs[b]
            &&& forall|i: int| 0 <= i < n && #[trigger] is_first(files, i) ==> fs.contains(i)
        }),
    decreases n,
{
    let keep = |i: int| is_first(files, i);
    reveal(Seq::filter);
    if n > 0 {
        let m = (n - 1) as nat;
        lemma_filtered_positions(files, m);
        assert(positions(n).drop_last() =~= positions(m));
        let small = positions(m).filter(keep);
        let fs = positions(n).filter(keep);
        assert forall|i: int| 0 <= i < n && #[trigger] is_first(files, i) implies fs.contains(i) by {
            if i < m {
                assert(small.contains(i));
                let k = choose|k: int| 0 <= k < small.len() && small[k] == i;
                assert(fs[k] == i);
            } else {
                assert(fs[fs.len() - 1] == i);
            }
        }
    }
}

proof fn lemma_earliest(files: Seq<Option<HashedView>>, i: int) -> (k: int)
    requires
        0 <= i < files.len(),
        files[i] is Some,
    ensures
        0 <= k <= i,
        is_first(files, k),
        files[k]->0.sha256 == files[i]->0.sha256,
    decreases i,
{
    if is_first(files, i) {
        i
    } else {
        let j = choose|j: int|
            0 <= j < i && (#[trigger] files[j] matches Some(f) && f.sha256 == files[i]->0.sha256);
        lemma_earliest(files, j)
    }
}

/// The files that were hashed are those uploaded and the duplicates.
pub proof fn law_report_adds_up(files: Seq<Option<HashedView>>)
    requires
        files.len() <= u64::MAX,
    ensures
        opening_report(files).total_files == firsts(files).len() + opening_report(files).duplicates,
        opening_report(files).total_files == count_hashed(files),
        sum_hashed(files) <= u64::MAX ==> opening_report(files).total_bytes == sum_hashed(files),
{
    lemma_firsts_count(files, files.len());
    assert(files.take(files.len() as int) =~= files);
    if sum_hashed(files) <= u64::MAX {
        vstd::arithmetic::div_mod::lemma_small_mod(sum_hashed(files), 0x1_0000_0000_0000_0000nat);
    }
}

// ---------------------------------------------------------------------------
// A whole migration

/// A request that a migration made for a file, and how it was answered.
pub struct MigrationRequest {
    pub index: int,
    pub action: ActionView,
    pub answer: EventView,
}

/// How a migration ends: the report, and all the requests that it made.
pub struct MigrationOutcome {
    pub report: MigrateReport,
    pub requests: Seq<MigrationRequest>,
}

/// How a migration ends from one of its steps on, within `fuel` requests, if the `k`-th
/// request gets the answer `answers(k)` at the time `clock(k)`.
pub open spec fn migrated(
    answers: spec_fn(nat) -> EventView,
    clock: spec_fn(nat) -> i64,
    k: nat,
    step: MigrateStepView,
    fuel: nat,
) -> Option<MigrationOutcome>
    decreases fuel,
{
    match step {
        MigrateStepView::Done(report) => Some(MigrationOutcome { report, requests: Seq::empty() }),
        MigrateStepView::Next(s, action) => if fuel == 0 {
            None
        } else {
            let answer = answers(k);
            match migrated(
                answers,
                clock,
                k + 1,
                migration_step(s, answer, clock(k)),
                (fuel - 1) as nat,
            ) {
                Some(end) => Some(
                    MigrationOutcome {
                        requests: seq![MigrationRequest { index: s.index, action, answer }]
                            + end.requests,
                        ..end
                    },
                ),
                None => None,
            }
        },
    }
}

/// The request is an upload that succeeded.
pub open spec fn uploaded(r: MigrationRequest) -> bool {
    r.action is Put && r.answer matches EventView::Finished(Ok(_))
}

/// How many uploads succeeded.
pub open spec fn count_uploads(rs: Seq<MigrationRequest>) -> nat
    decreases rs.len(),
{
    if rs.len() == 0 {
        0
    } else {
        count_uploads(rs.skip(1)) + if uploaded(rs[0]) {
            1nat
        } else {
            0
        }
    }
}

/// The total size that was found of the files whose upload succeeded.
pub open spec fn sum_uploads(files: Seq<Option<HashedView>>, rs: Seq<MigrationRequest>) -> nat
    decreases rs.len(),
{
    if rs.len() == 0 {
        0
    } else {
        sum_uploads(files, rs.skip(1)) + if uploaded(rs[0]) {
            files[rs[0].index]->0.size_bytes as nat
        } else {
            0
        }
    }
}

/// The total size of what the uploads that succeeded carried.
pub open spec fn bytes_uploaded(rs: Seq<MigrationRequest>) -> nat
    decreases rs.len(),
{
    if rs.len() == 0 {
        0
    } else {
        bytes_uploaded(rs.skip(1)) + if uploaded(rs[0]) {
            rs[0].action->Put_data.len()
        } else {
            0
        }
    }
}

/// The total size of the files at some positions.
pub open spec fn sum_at(files: Seq<Option<HashedView>>, at: Seq<int>) -> nat
    decreases at.len(),
{
    if at.len() == 0 {
        0
    } else {
        sum_at(files, at.drop_last()) + files[at.last()]->0.size_bytes as nat
    }
}

/// The request before `j` was for the same file, and this holds of it.
pub open spec fn just_before(rs: Seq<MigrationRequest>, j: int, p: spec_fn(MigrationRequest) -> bool) -> bool {
    0 < j && rs[j - 1].index == rs[j].index && p(rs[j - 1])
}

/// The requests follow the plan: they are for the files at the positions `at`, one file
/// after the other; what is uploaded is what was just read of the file, once; and an entry
/// is made only of a file whose upload just succeeded.
pub open spec fn orderly(at: Seq<int>, rs: Seq<MigrationRequest>) -> bool {
    &&& forall|j: int| 0 <= j < rs.len() ==> at.contains((#[trigger] rs[j]).index)
    &&& forall|j: int|
        0 <= j < rs.len() ==> ((#[trigger] rs[j]).action matches ActionView::ReadSource { index } ==> index
            == rs[j].index as usize)
    &&& forall|i: int, j: int|
        0 <= i < j < rs.len() && (#[trigger] rs[i]).action is Put && (#[trigger] rs[j]).action is Put
            ==> rs[i].index < rs[j].index
    &&& forall|j: int|
        0 <= j < rs.len() ==> ((#[trigger] rs[j]).action matches ActionView::Put { tier, data, .. } ==> tier
            == Tier::S3 && just_before(
            rs,
            j,
            |r: MigrationRequest| r.action is ReadSource && r.answer == EventView::Data(Ok(data)),
        ))
    &&& forall|j: int|
        0 <= j < rs.len() && (#[trigger] rs[j]).action is Upsert ==> just_before(
            rs,
            j,
            |r: MigrationRequest| uploaded(r),
        )
}

/// The files are still what they were when they were hashed.
pub open spec fn unchanged(files: Seq<Option<HashedView>>, rs: Seq<MigrationRequest>) -> bool {
    forall|j: int|
        0 <= j < rs.len() && (#[trigger] rs[j]).action is ReadSource ==> (rs[j].answer matches EventView::Data(
            Ok(data),
        ) ==> {
            &&& data.len() == files[rs[j].index]->0.size_bytes
            &&& crate::digest::content_hash(data) == files[rs[j].index]->0.sha256
        })
}

/// Requests for one file, and those for the files behind it.
proof fn lemma_orderly_chain(at: Seq<int>, one: Seq<MigrationRequest>, rest: Seq<MigrationRequest>)
    requires
        at.len() > 0,
        forall|a: int, b: int| 0 <= a < b < at.len() ==> #[trigger] at[a] < #[trigger] at[b],
        orderly(seq![at[0]], one),
        orderly(at.skip(1), rest),
    ensures
        orderly(at, one + rest),
{
    let all = one + rest;
    let n = one.len() as int;
    assert forall|j: int| 0 <= j < all.len() implies at.contains((#[trigger] all[j]).index) && (j < n
        ==> all[j].index == at[0]) && (j >= n ==> all[j].index > at[0]) by {
        if j < n {
            assert(seq![at[0]].contains(one[j].index));
        } else {
            assert(at.skip(1).contains(rest[j - n].index));
            let a = choose|a: int| 0 <= a < at.skip(1).len() && at.skip(1)[a] == rest[j - n].index;
            assert(at[a + 1] == all[j].index);
        }
    }
    assert forall|j: int| 0 <= j < all.len() implies ((#[trigger] all[j]).action matches ActionView::ReadSource {
        index,
    } ==> index == all[j].index as usize) by {
        if j < n {
            assert(one[j].action == all[j].action);
        } else {
            assert(rest[j - n].action == all[j].action);
        }
    }
    assert forall|i: int, j: int|
        0 <= i < j < all.len() && (#[trigger] all[i]).action is Put && (#[trigger] all[j]).action is Put implies all[i].index
        < all[j].index by {
        if j < n {
            assert(one[i].action is Put && one[j].action is Put);
        } else if i >= n {
            assert(rest[i - n].action is Put && rest[j - n].action is Put);
        }
    }
    assert forall|j: int| 0 <= j < all.len() implies ((#[trigger] all[j]).action matches ActionView::Put {
        tier,
        data,
        ..
    } ==> tier == Tier::S3 && just_before(
        all,
        j,
        |r: MigrationRequest| r.action is ReadSource && r.answer == EventView::Data(Ok(data)),
    )) by {
        if let ActionView::Put { data, .. } = all[j].action {
            let p = |r: MigrationRequest| r.action is ReadSource && r.answer == EventView::Data(Ok(data));
            if j < n {
                assert(one[j].action == all[j].action);
                assert(just_before(one, j, p));
            } else {
                assert(rest[j - n].action == all[j].action);
                assert(just_before(rest, j - n, p));
            }
        }
    }
    assert forall|j: int| 0 <= j < all.len() && (#[trigger] all[j]).action is Upsert implies just_before(
        all,
        j,
        |r: MigrationRequest| uploaded(r),
    ) by {
        let p = |r: MigrationRequest| uploaded(r);
        if j < n {
            assert(one[j].action is Upsert);
            assert(just_before(one, j, p));
        } else {
            assert(rest[j - n].action is Upsert);
            assert(just_before(rest, j - n, p));
        }
    }
}

/// The first of some positions, and those behind it.
proof fn lemma_sum_at_first(files: Seq<Option<HashedView>>, at: Seq<int>)
    requires
        at.len() > 0,
    ensures
        sum_at(files, at) == files[at[0]]->0.size_bytes as nat + sum_at(files, at.skip(1)),
    decreases at.len(),
{
    if at.len() == 1 {
        assert(at.drop_last() =~= Seq::empty());
        assert(at.skip(1) =~= Seq::empty());
    } else {
        lemma_sum_at_first(files, at.drop_last());
        assert(at.drop_last().skip(1) =~= at.skip(1).drop_last());
    }
}

/// What one more request counts.
proof fn lemma_counts_first(files: Seq<Option<HashedView>>, r: MigrationRequest, rest: Seq<MigrationRequest>)
    ensures
        count_uploads(seq![r] + rest) == count_uploads(rest) + if uploaded(r) {
            1nat
        } else {
            0
        },
        sum_uploads(files, seq![r] + rest) == sum_uploads(files, rest) + if uploaded(r) {
            files[r.index]->0.size_bytes as nat
        } else {
            0
        },
{
    assert((seq![r] + rest).skip(1) =~= rest);
}

/// The report at the end, from the one at the start and what was uploaded.
spec fn accounted(
    files: Seq<Option<HashedView>>,
    rest: Seq<int>,
    report: MigrateReport,
    end: MigrationOutcome,
) -> bool {
    &&& end.report == (MigrateReport {
        errors: end.report.errors,
        s3_upload_bytes: end.report.s3_upload_bytes,
        ..report
    })
    &&& end.report.errors + count_uploads(end.requests) == report.errors + rest.len()
    &&& end.report.s3_upload_bytes == (report.s3_upload_bytes + sum_uploads(files, end.requests))
        % 0x1_0000_0000_0000_0000
    &&& sum_uploads(files, end.requests) <= sum_at(files, rest)
    &&& orderly(rest, end.requests)
}

proof fn lemma_wrapping_sum(a: u64, b: u64, more: nat)
    ensures
        (a.wrapping_add(b) + more) % 0x1_0000_0000_0000_0000 == (a + (b + more)) % 0x1_0000_0000_0000_0000,
{
    let m = 0x1_0000_0000_0000_0000int;
    if a + b > u64::MAX {
        vstd::arithmetic::div_mod::lemma_mod_sub_multiples_vanish(a + b + more, m);
    }
}

/// The requests for one file follow the plan: reading it, uploading what was read, and
/// entering it, as far as they were made.
proof fn lemma_orderly_file(i: int, rs: Seq<MigrationRequest>)
    requires
        rs.len() <= 3,
        forall|j: int| 0 <= j < rs.len() ==> (#[trigger] rs[j]).index == i,
        rs.len() > 0 ==> rs[0].action == (ActionView::ReadSource { index: i as usize }),
        rs.len() > 1 ==> (rs[1].action matches ActionView::Put { tier, data, .. } && tier == Tier::S3
            && rs[0].answer == EventView::Data(Ok(data))),
        rs.len() > 2 ==> rs[2].action is Upsert && uploaded(rs[1]),
    ensures
        orderly(seq![i], rs),
{
    assert(seq![i][0] == i);
    assert(seq![i].contains(i));
    assert forall|j: int| 0 <= j < rs.len() implies ((#[trigger] rs[j]).action matches ActionView::Put {
        tier,
        data,
        ..
    } ==> tier == Tier::S3 && just_before(
        rs,
        j,
        |r: MigrationRequest| r.action is ReadSource && r.answer == EventView::Data(Ok(data)),
    )) by {
        if j == 1 {
            assert(rs[0].index == rs[1].index);
        }
    }
    assert forall|j: int| 0 <= j < rs.len() && (#[trigger] rs[j]).action is Upsert implies just_before(
        rs,
        j,
        |r: MigrationRequest| uploaded(r),
    ) by {
        if j == 2 {
            assert(rs[1].index == rs[2].index);
        }
    }
}

proof fn lemma_migrated(
    answers: spec_fn(nat) -> EventView,
    clock: spec_fn(nat) -> i64,
    k: nat,
    files: Seq<Option<HashedView>>,
    rest: Seq<int>,
    report: MigrateReport,
    fuel: nat,
)
    requires
        fuel >= 3 * rest.len(),
        report.errors + rest.len() <= u64::MAX,
        forall|a: int, b: int| 0 <= a < b < rest.len() ==> #[trigger] rest[a] < #[trigger] rest[b],
    ensures
        migrated(answers, clock, k, next_source(files, rest, report), fuel) matches Some(end) && accounted(
            files,
            rest,
            report,
            end,
        ),
    decreases rest.len(),
{
    if rest.len() == 0 {
        vstd::arithmetic::div_mod::lemma_small_mod(
            report.s3_upload_bytes as nat,
            0x1_0000_0000_0000_0000nat,
        );
    } else {
        let tail = rest.skip(1);
        let f = files[rest[0]]->0;
        let text = vfs_text(f.rel);
        lemma_sum_at_first(files, rest);
        assert forall|a: int, b: int| 0 <= a < b < tail.len() implies #[trigger] tail[a] < #[trigger] tail[b] by {
            assert(rest[a + 1] < rest[b + 1]);
        }
        let none = Seq::<MigrationRequest>::empty();
        if !crate::path::nameable(text) {
            lemma_migrated(answers, clock, k, files, tail, with_error(report), fuel);
            let end = migrated(answers, clock, k, next_source(files, tail, with_error(report)), fuel)->0;
            lemma_orderly_file(rest[0], none);
            lemma_orderly_chain(rest, none, end.requests);
            assert(none + end.requests =~= end.requests);
        } else {
            let read = MigrationView {
                files,
                rest: tail,
                index: rest[0],
                path: normal_form(text),
                report,
                stage: Stage::Reading,
            };
            let r0 = MigrationRequest {
                index: rest[0],
                action: ActionView::ReadSource { index: rest[0] as usize },
                answer: answers(k),
            };
            if let EventView::Data(Ok(data)) = answers(k) {
                let put = MigrationView { stage: Stage::Uploading, ..read };
                let r1 = MigrationRequest {
                    index: rest[0],
                    action: ActionView::Put { tier: Tier::S3, path: read.path, data },
                    answer: answers(k + 1),
                };
                let s1 = migration_step(read, answers(k), clock(k));
                assert(s1 == MigrateStepView::Next(put, r1.action));
                let s2 = migration_step(put, answers(k + 1), clock(k + 1));
                if uploaded(r1) {
                    let indexing = MigrationView {
                        stage: Stage::Indexing,
                        report: with_upload(report, f.size_bytes),
                        ..read
                    };
                    let r2 = MigrationRequest {
                        index: rest[0],
                        action: ActionView::Upsert {
                            meta: migrated_file(read.path, f, clock(k + 1)),
                        },
                        answer: answers(k + 2),
                    };
                    assert(s2 == MigrateStepView::Next(indexing, r2.action));
                    let s3 = migration_step(indexing, answers(k + 2), clock(k + 2));
                    assert(s3 == next_source(files, tail, indexing.report));
                    let less = (fuel - 3) as nat;
                    lemma_migrated(answers, clock, k + 3, files, tail, indexing.report, less);
                    let end = migrated(answers, clock, k + 3, s3, less)->0;
                    let one = seq![r0, r1, r2];
                    lemma_orderly_file(rest[0], one);
                    lemma_orderly_chain(rest, one, end.requests);
                    lemma_counts_first(files, r2, end.requests);
                    lemma_counts_first(files, r1, seq![r2] + end.requests);
                    lemma_counts_first(files, r0, seq![r1] + (seq![r2] + end.requests));
                    assert(migrated(answers, clock, k + 2, s2, (fuel - 2) as nat)->0.requests == seq![r2]
                        + end.requests);
                    assert(migrated(answers, clock, k + 1, s1, (fuel - 1) as nat)->0.requests == seq![r1] + (
                    seq![r2] + end.requests));
                    assert(seq![r0] + (seq![r1] + (seq![r2] + end.requests)) =~= one + end.requests);
                    lemma_wrapping_sum(
                        report.s3_upload_bytes,
                        f.size_bytes,
                        sum_uploads(files, end.requests),
                    );
                } else {
                    let less = (fuel - 2) as nat;
                    assert(s2 == next_source(files, tail, with_error(report)));
                    lemma_migrated(answers, clock, k + 2, files, tail, with_error(report), less);
                    let end = migrated(answers, clock, k + 2, s2, less)->0;
                    let one = seq![r0, r1];
                    lemma_orderly_file(rest[0], one);
                    lemma_orderly_chain(rest, one, end.requests);
                    lemma_counts_first(files, r1, end.requests);
                    lemma_counts_first(files, r0, seq![r1] + end.requests);
                    assert(migrated(answers, clock, k + 1, s1, (fuel - 1) as nat)->0.requests == seq![r1]
                        + end.requests);
                    assert(seq![r0] + (seq![r1] + end.requests) =~= one + end.requests);
                }
            } else {
                let less = (fuel - 1) as nat;
                let s1 = migration_step(read, answers(k), clock(k));
                assert(s1 == next_source(files, tail, with_error(report)));
                lemma_migrated(answers, clock, k + 1, files, tail, with_error(report), less);
                let end = migrated(answers, clock, k + 1, s1, less)->0;
                lemma_orderly_file(rest[0], seq![r0]);
                lemma_orderly_chain(rest, seq![r0], end.requests);
                lemma_counts_first(files, r0, end.requests);
            }
        }
    }
}

/// The files to upload are among those that were hashed.
proof fn lemma_firsts_sum(files: Seq<Option<HashedView>>, n: nat)
    requires
        n <= files.len(),
    ensures
        sum_at(files, positions(n).filter(|i: int| is_first(files, i))) <= sum_hashed(
            files.take(n as int),
        ),
    decreases n,
{
    let keep = |i: int| is_first(files, i);
    reveal(Seq::filter);
    if n > 0 {
        let m = (n - 1) as nat;
        lemma_firsts_sum(files, m);
        assert(positions(n).drop_last() =~= positions(m));
        assert(files.take(n as int).drop_last() =~= files.take(m as int));
        let small = positions(m).filter(keep);
        if is_first(files, m as int) {
            assert(small.push(m as int).drop_last() =~= small);
        }
    }
}

/// If the files did not change, the uploads that succeeded carried the sizes that were
/// found.
proof fn lemma_bytes_uploaded(files: Seq<Option<HashedView>>, rs: Seq<MigrationRequest>)
    requires
        forall|j: int|
            0 <= j < rs.len() && (#[trigger] rs[j]).action is Put ==> rs[j].action->Put_data.len()
                == files[rs[j].index]->0.size_bytes,
    ensures
        bytes_uploaded(rs) == sum_uploads(files, rs),
    decreases rs.len(),
{
    if rs.len() > 0 {
        let rest = rs.skip(1);
        assert forall|j: int| 0 <= j < rest.len() && (#[trigger] rest[j]).action is Put implies rest[j].action->Put_data.len()
            == files[rest[j].index]->0.size_bytes by {
            assert(rs[j + 1].action is Put);
        }
        lemma_bytes_uploaded(files, rest);
    }
}

/// If the files did not change, what is uploaded of one is its content, and different for
/// different files.
proof fn lemma_unchanged_uploads(files: Seq<Option<HashedView>>, rs: Seq<MigrationRequest>)
    requires
        unchanged(files, rs),
        orderly(firsts(files), rs),
    ensures
        bytes_uploaded(rs) == sum_uploads(files, rs),
        forall|i: int, j: int|
            0 <= i < j < rs.len() && (#[trigger] rs[i]).action is Put && (#[trigger] rs[j]).action is Put
                ==> rs[i].action->Put_data != rs[j].action->Put_data,
{
    let plan = firsts(files);
    lemma_filtered_positions(files, files.len());
    assert forall|j: int| 0 <= j < rs.len() && (#[trigger] rs[j]).action is Put implies rs[j].action->Put_data.len()
        == files[rs[j].index]->0.size_bytes && crate::digest::content_hash(rs[j].action->Put_data)
        == files[rs[j].index]->0.sha256 by {
        if let ActionView::Put { tier, path, data } = rs[j].action {
            let p = |r: MigrationRequest| r.action is ReadSource && r.answer == EventView::Data(Ok(data));
            assert(just_before(rs, j, p));
            assert(rs[j - 1].action is ReadSource);
        }
    }
    lemma_bytes_uploaded(files, rs);
    assert forall|i: int, j: int|
        0 <= i < j < rs.len() && (#[trigger] rs[i]).action is Put && (#[trigger] rs[j]).action is Put implies rs[i].action->Put_data
        != rs[j].action->Put_data by {
        assert(plan.contains(rs[i].index) && plan.contains(rs[j].index));
        let a = choose|a: int| 0 <= a < plan.len() && plan[a] == rs[i].index;
        let b = choose|b: int| 0 <= b < plan.len() && plan[b] == rs[j].index;
        if b < a {
            assert(plan[b] < plan[a]);
        }
        lemma_firsts_differ(files, a, b);
    }
}

/// A migration ends, whatever answers its requests get, and its report is true: the files
/// that were hashed, less the duplicates, are the errors and the uploads that succeeded;
/// the bytes uploaded are the sizes of those; and no entry is made of a file that was not
/// uploaded. If the files did not change since they were hashed, those sizes are what the
/// uploads carried, and no two uploads carry the same content.
pub proof fn law_migration_accounts(
    answers: spec_fn(nat) -> EventView,
    clock: spec_fn(nat) -> i64,
    k: nat,
    files: Seq<Option<HashedView>>,
    fuel: nat,
)
    requires
        files.len() <= u64::MAX,
        fuel >= 3 * firsts(files).len(),
    ensures
        migrated(
            answers,
            clock,
            k,
            next_source(files, firsts(files), opening_report(files)),
            fuel,
        ) matches Some(end) && {
            &&& end.report.total_files == count_hashed(files)
            &&& end.report.total_files - end.report.duplicates == end.report.errors + count_uploads(
                end.requests,
            )
            &&& end.report.s3_upload_bytes == sum_uploads(files, end.requests) % 0x1_0000_0000_0000_0000
            &&& sum_hashed(files) <= u64::MAX ==> {
                &&& end.report.total_bytes == sum_hashed(files)
                &&& end.report.s3_upload_bytes == sum_uploads(files, end.requests)
                &&& end.report.s3_upload_bytes <= end.report.total_bytes
            }
            &&& orderly(firsts(files), end.requests)
            &&& unchanged(files, end.requests) ==> {
                &&& bytes_uploaded(end.requests) == sum_uploads(files, end.requests)
                &&& forall|i: int, j: int|
                    0 <= i < j < end.requests.len() && (#[trigger] end.requests[i]).action is Put && (
                    #[trigger] end.requests[j]).action is Put ==> end.requests[i].action->Put_data
                        != end.requests[j].action->Put_data
            }
        },
{
    let plan = firsts(files);
    let opening = opening_report(files);
    lemma_filtered_positions(files, files.len());
    lemma_firsts_count(files, files.len());
    law_report_adds_up(files);
    lemma_firsts_sum(files, files.len());
    assert(files.take(files.len() as int) =~= files);
    lemma_migrated(answers, clock, k, files, plan, opening, fuel);
    let end = migrated(answers, clock, k, next_source(files, plan, opening), fuel)->0;
    let rs = end.requests;
    if sum_hashed(files) <= u64::MAX {
        vstd::arithmetic::div_mod::lemma_small_mod(
            sum_uploads(files, rs),
            0x1_0000_0000_0000_0000nat,
        );
    }
    if unchanged(files, rs) {
        lemma_unchanged_uploads(files, rs);
    }
}

} // verus!
