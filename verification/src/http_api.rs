//! The decisions of the HTTP API: which path a request names, which status an error
//! gets, and what the health report says.

use crate::action::Action;
use crate::action::ActionView;
use crate::action::Event;
use crate::action::EventView;
use crate::action::Shape;
use crate::error::error_text;
use crate::error::ErrorView;
use crate::error::FvfsError;
use crate::path::normal_form;
use crate::path::valid_path;
use crate::path::VfsPath;
use crate::text::concat2;
use crate::text::trim_start;
use crate::text::trim_start_of;
use crate::tier::Tier;
use crate::types::DaemonStatus;
use crate::types::TierStats;
use crate::world::count_on;
use crate::world::healthy;
use crate::world::perform;
use crate::world::total_on;
use crate::world::Env;
use crate::world::World;
use vstd::prelude::*;

verus! {

// ---------------------------------------------------------------------------
// Paths

/// The text that the path part of a request stands for: one slash in front.
pub open spec fn request_text(raw: Seq<char>) -> Seq<char> {
    seq!['/'] + trim_start(raw, '/')
}

/// The path that a request names. A null is refused.
pub fn parse_path(raw: &str) -> (r: Result<VfsPath, FvfsError>)
    ensures
        match r {
            Ok(p) => !request_text(raw@).contains('\0') && p@ == normal_form(request_text(raw@)),
            Err(e) => request_text(raw@).contains('\0') && e@ == ErrorView::InvalidPath(
                "path cannot contain null bytes"@,
            ),
        },
{
    proof {
        reveal_strlit("/");
        assert("/"@ =~= seq!['/']);
    }
    let rel = trim_start_of(raw, '/');
    let text = concat2("/", rel.as_str());
    assert(text@ == request_text(raw@));
    VfsPath::new(text.as_str())
}

/// A path survives the way through a request: with or without its first slash, it names
/// itself.
pub proof fn law_request_names_the_path(p: Seq<char>)
    requires
        valid_path(p),
    ensures
        normal_form(request_text(p)) == p,
        normal_form(request_text(p.subrange(1, p.len() as int))) == p,
        !request_text(p).contains('\0'),
{
    crate::path::lemma_valid_path(p);
    crate::path::law_normal_form_is_fixed(p);
    let rel = p.subrange(1, p.len() as int);
    reveal_with_fuel(trim_start, 2);
    if p == seq!['/'] {
        assert(rel =~= Seq::empty());
        assert(request_text(p) =~= p);
        assert(request_text(rel) =~= p);
    } else {
        crate::path::lemma_path_edges(p);
        assert(rel[0] == p[1]);
        assert(request_text(p) =~= p);
        assert(request_text(rel) =~= p);
    }
}

// ---------------------------------------------------------------------------
// Errors

/// The status of the answer to a request that failed.
pub open spec fn status_of(e: ErrorView) -> u16 {
    match e {
        ErrorView::NotFound(_) => 404,
        ErrorView::AlreadyExists(_) => 409,
        ErrorView::IsADirectory(_) => 400,
        ErrorView::NotADirectory(_) => 400,
        ErrorView::PermissionDenied(_) => 403,
        _ => 500,
    }
}

/// The message of the answer to a request that failed.
pub open spec fn api_message(e: ErrorView) -> Seq<char> {
    match e {
        ErrorView::NotFound(p) => "not found: "@ + p,
        ErrorView::AlreadyExists(p) => "already exists: "@ + p,
        ErrorView::IsADirectory(p) => "is a directory: "@ + p,
        ErrorView::NotADirectory(p) => "not a directory: "@ + p,
        ErrorView::PermissionDenied(m) => m,
        _ => error_text(e),
    }
}

/// The status and the message of the answer to a request that failed.
pub fn api_error(e: &FvfsError) -> (r: (u16, String))
    ensures
        r.0 == status_of(e@),
        r.1@ == api_message(e@),
{
    match e {
        FvfsError::NotFound { path } => (404, concat2("not found: ", path.as_str())),
        FvfsError::AlreadyExists { path } => (409, concat2("already exists: ", path.as_str())),
        FvfsError::IsADirectory { path } => (400, concat2("is a directory: ", path.as_str())),
        FvfsError::NotADirectory { path } => (400, concat2("not a directory: ", path.as_str())),
        FvfsError::PermissionDenied(m) => (403, m.clone()),
        _ => (500, e.message()),
    }
}

// ---------------------------------------------------------------------------
// The health report

/// The requests for a health report, in order.
pub open spec fn status_query(k: int) -> ActionView {
    if k == 0 {
        ActionView::BytesOnTier { tier: Tier::Local }
    } else if k == 1 {
        ActionView::CountOnTier { tier: Tier::Local }
    } else if k == 2 {
        ActionView::BytesOnTier { tier: Tier::Nas }
    } else if k == 3 {
        ActionView::CountOnTier { tier: Tier::Nas }
    } else if k == 4 {
        ActionView::BytesOnTier { tier: Tier::S3 }
    } else if k == 5 {
        ActionView::CountOnTier { tier: Tier::S3 }
    } else {
        ActionView::WalPending
    }
}

/// The number in an answer; zero if the request failed.
pub open spec fn number_in(e: EventView) -> u64 {
    match e {
        EventView::Bytes(Ok(n)) => n,
        EventView::Entries(Ok(v)) => v.len() as u64,
        _ => 0,
    }
}

/// The shape of the answer to the `k`-th request.
pub open spec fn query_shape(k: int) -> Shape {
    if k < 6 {
        Shape::Bytes
    } else {
        Shape::Entries
    }
}

/// What one tier holds.
pub open spec fn is_stats(s: TierStats, tier: Tier, files: u64, bytes: u64) -> bool {
    s.name@ == crate::tier::tier_label(tier) && s.files == files && s.bytes == bytes
}

/// The health report that the seven numbers make.
pub open spec fn is_report(s: DaemonStatus, version: Seq<char>, uptime_secs: u64, n: Seq<u64>) -> bool {
    &&& s.version@ == version
    &&& s.uptime_secs == uptime_secs
    &&& s.tiers@.len() == 3
    &&& is_stats(s.tiers@[0], Tier::Local, n[1], n[0])
    &&& is_stats(s.tiers@[1], Tier::Nas, n[3], n[2])
    &&& is_stats(s.tiers@[2], Tier::S3, n[5], n[4])
    &&& s.wal_pending == n[6]
}

/// A health report in progress: the numbers so far.
#[derive(Debug, PartialEq, Eq)]
pub struct StatusReport {
    version: String,
    uptime_secs: u64,
    numbers: Vec<u64>,
}

/// The mathematical value of a [`StatusReport`].
pub struct StatusView {
    pub version: Seq<char>,
    pub uptime_secs: u64,
    pub numbers: Seq<u64>,
}

impl View for StatusReport {
    type V = StatusView;

    closed spec fn view(&self) -> StatusView {
        StatusView {
            version: self.version@,
            uptime_secs: self.uptime_secs,
            numbers: self.numbers@,
        }
    }
}

/// The outcome of one step of a health report.
#[derive(Debug, PartialEq, Eq)]
pub enum StatusStep {
    /// Another number is asked for.
    Next(StatusReport, Action),
    /// The report is complete.
    Done(DaemonStatus),
}

fn query(k: usize) -> (a: Action)
    requires
        k < 7,
    ensures
        a@ == status_query(k as int),
{
    match k {
        0 => Action::BytesOnTier { tier: Tier::Local },
        1 => Action::CountOnTier { tier: Tier::Local },
        2 => Action::BytesOnTier { tier: Tier::Nas },
        3 => Action::CountOnTier { tier: Tier::Nas },
        4 => Action::BytesOnTier { tier: Tier::S3 },
        5 => Action::CountOnTier { tier: Tier::S3 },
        _ => Action::WalPending,
    }
}

fn stats(tier: Tier, files: u64, bytes: u64) -> (s: TierStats)
    ensures
        is_stats(s, tier, files, bytes),
{
    TierStats { name: tier.label().to_owned(), files, bytes }
}

impl StatusReport {
    /// There is a number left to ask for.
    #[verifier::type_invariant]
    spec fn open(self) -> bool {
        self.numbers@.len() < 7
    }

    /// Starts a health report of a daemon of this version that has run this long.
    pub fn start(version: &str, uptime_secs: u64) -> (r: (StatusReport, Action))
        ensures
            r.0@ == (StatusView {
                version: version@,
                uptime_secs,
                numbers: Seq::<u64>::empty(),
            }),
            r.1@ == status_query(0),
    {
        (
            StatusReport { version: version.to_owned(), uptime_secs, numbers: Vec::new() },
            query(0),
        )
    }

    /// Whether the report waits for an answer of this shape.
    pub fn expects(&self, event: &Event) -> (r: bool)
        ensures
            r == (crate::action::event_shape(event@) == query_shape(self@.numbers.len() as int)),
    {
        if self.numbers.len() < 6 {
            event.shape() == Shape::Bytes
        } else {
            event.shape() == Shape::Entries
        }
    }

    /// Takes the answer to the last request. A request that failed counts for zero.
    pub fn step(self, event: Event) -> (r: StatusStep)
        requires
            crate::action::event_shape(event@) == query_shape(self@.numbers.len() as int),
        ensures
            ({
                let numbers = self@.numbers.push(number_in(event@));
                match r {
                    StatusStep::Next(s, a) => {
                        &&& numbers.len() < 7
                        &&& s@ == (StatusView { numbers, ..self@ })
                        &&& a@ == status_query(numbers.len() as int)
                    },
                    StatusStep::Done(s) => numbers.len() == 7 && is_report(
                        s,
                        self@.version,
                        self@.uptime_secs,
                        numbers,
                    ),
                }
            }),
    {
        proof {
            use_type_invariant(&self);
        }
        let number: u64 = match event {
            Event::Bytes(Ok(n)) => n,
            Event::Entries(Ok(v)) => v.len() as u64,
            _ => 0,
        };
        let StatusReport { version, uptime_secs, numbers } = self;
        let mut numbers = numbers;
        numbers.push(number);
        if numbers.len() < 7 {
            let a = query(numbers.len());
            return StatusStep::Next(StatusReport { version, uptime_secs, numbers }, a);
        }
        let mut tiers: Vec<TierStats> = Vec::new();
        tiers.push(stats(Tier::Local, numbers[1], numbers[0]));
        tiers.push(stats(Tier::Nas, numbers[3], numbers[2]));
        tiers.push(stats(Tier::S3, numbers[5], numbers[4]));
        StatusStep::Done(DaemonStatus { version, uptime_secs, tiers, wal_pending: numbers[6] })
    }
}

// ---------------------------------------------------------------------------
// Laws of the health report

/// The numbers of a health report that has come to `numbers` and asks for the next one
/// as the `k`-th request, once all seven are known.
pub open spec fn reported(env: Env, k: nat, w: World, numbers: Seq<u64>) -> Seq<u64>
    decreases 7 - numbers.len(),
{
    if numbers.len() >= 7 {
        numbers
    } else {
        let (w2, e) = perform(env, k, w, status_query(numbers.len() as int));
        reported(env, k + 1, w2, numbers.push(number_in(e)))
    }
}

/// The number, or nothing where the `k`-th request fails.
pub open spec fn unless_failed(env: Env, k: nat, n: nat) -> nat {
    if (env.faults)(k) is Some {
        0
    } else {
        n
    }
}

/// The numbers of the world fit in those of a report.
pub open spec fn reportable(w: World) -> bool {
    &&& forall|t: Tier| #[trigger] total_on(w, t) <= u64::MAX
    &&& forall|t: Tier| #[trigger] count_on(w, t) <= u64::MAX
    &&& w.wal.len() <= u64::MAX
}

/// A health report names the local disk, the NAS and the object store, in this order,
/// each with the number and the total size of the files on it, and says how long the log
/// is. A number that could not be had is reported as zero, and the others are not
/// affected.
pub proof fn law_health_report_whatever_fails(
    env: Env,
    k: nat,
    w: World,
    version: Seq<char>,
    uptime_secs: u64,
    s: DaemonStatus,
)
    requires
        reportable(w),
        is_report(s, version, uptime_secs, reported(env, k, w, Seq::empty())),
    ensures
        s.version@ == version,
        s.uptime_secs == uptime_secs,
        s.tiers@.len() == 3,
        s.tiers@[0].name@ == "local"@,
        s.tiers@[0].bytes == unless_failed(env, k, total_on(w, Tier::Local)),
        s.tiers@[0].files == unless_failed(env, k + 1, count_on(w, Tier::Local)),
        s.tiers@[1].name@ == "nas"@,
        s.tiers@[1].bytes == unless_failed(env, k + 2, total_on(w, Tier::Nas)),
        s.tiers@[1].files == unless_failed(env, k + 3, count_on(w, Tier::Nas)),
        s.tiers@[2].name@ == "s3"@,
        s.tiers@[2].bytes == unless_failed(env, k + 4, total_on(w, Tier::S3)),
        s.tiers@[2].files == unless_failed(env, k + 5, count_on(w, Tier::S3)),
        s.wal_pending == unless_failed(env, k + 6, w.wal.len()),
{
    reveal_with_fuel(reported, 8);
    assert((env.faults)(k) is None || (env.faults)(k) is Some);
    assert((env.faults)(k + 1) is None || (env.faults)(k + 1) is Some);
    assert((env.faults)(k + 2) is None || (env.faults)(k + 2) is Some);
    assert((env.faults)(k + 3) is None || (env.faults)(k + 3) is Some);
    assert((env.faults)(k + 4) is None || (env.faults)(k + 4) is Some);
    assert((env.faults)(k + 5) is None || (env.faults)(k + 5) is Some);
    assert((env.faults)(k + 6) is None || (env.faults)(k + 6) is Some);
}

/// If no request fails, the health report is true of every tier and of the log.
pub proof fn law_health_report(
    env: Env,
    k: nat,
    w: World,
    version: Seq<char>,
    uptime_secs: u64,
    s: DaemonStatus,
)
    requires
        healthy(env),
        reportable(w),
        is_report(s, version, uptime_secs, reported(env, k, w, Seq::empty())),
    ensures
        s.tiers@.len() == 3,
        s.tiers@[0].name@ == "local"@,
        s.tiers@[0].files == count_on(w, Tier::Local),
        s.tiers@[0].bytes == total_on(w, Tier::Local),
        s.tiers@[1].name@ == "nas"@,
        s.tiers@[1].files == count_on(w, Tier::Nas),
        s.tiers@[1].bytes == total_on(w, Tier::Nas),
        s.tiers@[2].name@ == "s3"@,
        s.tiers@[2].files == count_on(w, Tier::S3),
        s.tiers@[2].bytes == total_on(w, Tier::S3),
        s.wal_pending == w.wal.len(),
{
    law_health_report_whatever_fails(env, k, w, version, uptime_secs, s);
    assert((env.faults)(k) is None && (env.faults)(k + 1) is None && (env.faults)(k + 2) is None);
    assert((env.faults)(k + 3) is None && (env.faults)(k + 4) is None && (env.faults)(k + 5) is None);
    assert((env.faults)(k + 6) is None);
}

/// A request names the path that its text names, however many slashes are in front of it.
pub proof fn law_request_text_names_the_same(raw: Seq<char>)
    ensures
        normal_form(request_text(raw)) == normal_form(raw),
    decreases raw.len(),
{
    if raw.len() > 0 && raw[0] == '/' {
        let rest = raw.subrange(1, raw.len() as int);
        law_request_text_names_the_same(rest);
        assert(raw =~= seq!['/'] + rest);
        crate::path::law_names_start_at_the_root(rest);
    } else {
        crate::path::law_names_start_at_the_root(raw);
    }
}

/// The message of an answer ends with what the error is about.
pub proof fn law_answer_names_the_subject(e: ErrorView)
    ensures
        crate::error::ends_with(api_message(e), crate::error::subject_of(e)),
{
    crate::error::law_message_names_the_subject(e);
    let t = api_message(e);
    let s = crate::error::subject_of(e);
    assert(t.skip(t.len() - s.len()) =~= s);
}

} // verus!
