//! The background upload to S3.
//!
//! Drains the write-ahead log of its upload entries. A flush is due when the pending
//! size exceeds the flush size, or when the flush interval elapses, whichever comes
//! first. Each upload is settled on its own: when some fail, only those are tried again.

use crate::action::Action;
use crate::action::ActionView;
use crate::action::Event;
use crate::action::EventView;
use crate::action::Shape;
use crate::error::error_text;
use crate::transfer::Transfer;
use crate::transfer::TransferStep;
use crate::transfer::TransferStepView;
use crate::transfer::TransferView;
use crate::types::WalEntry;
use crate::types::WalOp;
use crate::types::WalView;
use crate::wal_replay::MAX_ATTEMPTS;
use crate::world::healthy;
use crate::world::perform;
use crate::world::Env;
use crate::world::World;
use vstd::prelude::*;

verus! {

/// A log entry that the uploader takes up.
pub open spec fn uploadable(e: WalView) -> bool {
    e.op == WalOp::UploadS3 && e.attempts < MAX_ATTEMPTS
}

/// The entries of the log that the uploader takes up, in the log's order.
pub open spec fn uploads(entries: Seq<WalView>) -> Seq<WalView> {
    entries.filter(|e: WalView| uploadable(e))
}

/// What is being done for the entry at hand.
pub enum UploadPhase {
    /// Looking up the file.
    Finding,
    /// Uploading it.
    Moving(TransferView),
    /// Noting how it went.
    Settling,
}

/// Where a flush stands.
pub enum FlushView {
    /// Loading the log.
    Loading,
    /// Working on an entry, with others behind it.
    Working { rest: Seq<WalView>, entry: WalView, phase: UploadPhase },
}

/// The outcome of one step of a flush.
pub enum FlushStepView {
    Next(FlushView, ActionView),
    Done,
}

/// The step to the next entry.
pub open spec fn next_upload(rest: Seq<WalView>) -> FlushStepView {
    if rest.len() == 0 {
        FlushStepView::Done
    } else {
        FlushStepView::Next(
            FlushView::Working { rest: rest.skip(1), entry: rest[0], phase: UploadPhase::Finding },
            ActionView::LookupId { id: rest[0].file_id },
        )
    }
}

/// The shape of the answer that a flush waits for.
pub open spec fn flush_awaits(s: FlushView) -> Shape {
    match s {
        FlushView::Loading => Shape::Entries,
        FlushView::Working { phase, .. } => match phase {
            UploadPhase::Finding => Shape::Meta,
            UploadPhase::Moving(t) => crate::transfer::transfer_awaits(t),
            UploadPhase::Settling => Shape::Finished,
        },
    }
}

/// What a flush does with an answer.
pub open spec fn flush_step(s: FlushView, e: EventView, now: i64) -> FlushStepView {
    match s {
        FlushView::Loading => match e {
            EventView::Entries(Ok(entries)) => next_upload(uploads(entries)),
            _ => FlushStepView::Done,
        },
        FlushView::Working { rest, entry, phase } => match (phase, e) {
            (UploadPhase::Finding, EventView::Meta(Ok(Some(m)))) => FlushStepView::Next(
                FlushView::Working {
                    rest,
                    entry,
                    phase: UploadPhase::Moving(
                        crate::transfer::transfer_start(WalOp::UploadS3, m),
                    ),
                },
                crate::transfer::transfer_request(WalOp::UploadS3, m),
            ),
            (UploadPhase::Finding, EventView::Meta(Ok(None))) => FlushStepView::Next(
                FlushView::Working { rest, entry, phase: UploadPhase::Settling },
                ActionView::WalComplete { id: entry.id },
            ),
            (UploadPhase::Finding, _) => next_upload(rest),
            (UploadPhase::Moving(t), _) => match crate::transfer::transfer_step(t, e, now) {
                TransferStepView::Next(t2, a) => FlushStepView::Next(
                    FlushView::Working { rest, entry, phase: UploadPhase::Moving(t2) },
                    a,
                ),
                TransferStepView::Done(Ok(_)) => FlushStepView::Next(
                    FlushView::Working { rest, entry, phase: UploadPhase::Settling },
                    ActionView::WalComplete { id: entry.id },
                ),
                TransferStepView::Done(Err(x)) => FlushStepView::Next(
                    FlushView::Working { rest, entry, phase: UploadPhase::Settling },
                    ActionView::WalRecordFailure { id: entry.id, error: error_text(x) },
                ),
            },
            (UploadPhase::Settling, _) => next_upload(rest),
        },
    }
}

#[derive(Debug, PartialEq, Eq)]
enum Phase {
    Finding,
    Moving(Transfer),
    Settling,
}

impl View for Phase {
    type V = UploadPhase;

    closed spec fn view(&self) -> UploadPhase {
        match self {
            Phase::Finding => UploadPhase::Finding,
            Phase::Moving(t) => UploadPhase::Moving(t@),
            Phase::Settling => UploadPhase::Settling,
        }
    }
}

#[derive(Debug, PartialEq, Eq)]
struct Work {
    entries: Vec<WalEntry>,
    at: usize,
    phase: Phase,
}

/// A flush in progress.
#[derive(Debug, PartialEq, Eq)]
pub struct S3Flush {
    work: Option<Work>,
}

impl View for S3Flush {
    type V = FlushView;

    closed spec fn view(&self) -> FlushView {
        match self.work {
            None => FlushView::Loading,
            Some(w) => FlushView::Working {
                rest: crate::action::wals(w.entries@).skip(w.at + 1),
                entry: w.entries@[w.at as int]@,
                phase: w.phase@,
            },
        }
    }
}

/// The outcome of one step of a flush.
#[derive(Debug, PartialEq, Eq)]
pub enum FlushStep {
    /// The flush goes on, and waits for the answer to the action.
    Next(S3Flush, Action),
    /// The flush is over.
    Done,
}

impl View for FlushStep {
    type V = FlushStepView;

    open spec fn view(&self) -> FlushStepView {
        match self {
            FlushStep::Next(s, a) => FlushStepView::Next(s@, a@),
            FlushStep::Done => FlushStepView::Done,
        }
    }
}

/// Starts a flush: the log is loaded first.
pub fn flush_pending() -> (r: (S3Flush, Action))
    ensures
        r.0@ == FlushView::Loading,
        r.1@ == ActionView::WalPending,
{
    (S3Flush { work: None }, Action::WalPending)
}

/// The entries that the uploader takes up.
pub fn uploads_of(entries: &Vec<WalEntry>) -> (r: Vec<WalEntry>)
    ensures
        crate::action::wals(r@) == uploads(crate::action::wals(entries@)),
{
    let ghost all = crate::action::wals(entries@);
    let ghost keep = |e: WalView| uploadable(e);
    let mut out: Vec<WalEntry> = Vec::new();
    let mut i: usize = 0;
    assert(all.take(0).filter(keep) =~= Seq::empty()) by {
        reveal(Seq::filter);
    }
    while i < entries.len()
        invariant
            i <= entries@.len(),
            all == crate::action::wals(entries@),
            keep == (|e: WalView| uploadable(e)),
            crate::action::wals(out@) == all.take(i as int).filter(keep),
        decreases entries.len() - i,
    {
        proof {
            reveal(Seq::filter);
            assert(all.take(i + 1).drop_last() =~= all.take(i as int));
            assert(all.take(i + 1).last() == entries@[i as int]@);
        }
        let ghost before = out@;
        if entries[i].op == WalOp::UploadS3 && entries[i].attempts < MAX_ATTEMPTS {
            out.push(entries[i].clone());
            assert(crate::action::wals(out@) =~= crate::action::wals(before).push(
                entries@[i as int]@,
            ));
        }
        i += 1;
    }
    assert(all.take(all.len() as int) =~= all);
    out
}

fn upload_from(entries: Vec<WalEntry>, at: usize) -> (r: FlushStep)
    requires
        at <= entries@.len(),
    ensures
        r@ == next_upload(crate::action::wals(entries@).skip(at as int)),
{
    if at >= entries.len() {
        return FlushStep::Done;
    }
    proof {
        let all = crate::action::wals(entries@);
        assert(all.skip(at as int).skip(1) =~= all.skip(at + 1));
    }
    let id: i64 = entries[at].file_id;
    FlushStep::Next(
        S3Flush { work: Some(Work { entries, at, phase: Phase::Finding }) },
        Action::LookupId { id },
    )
}

impl S3Flush {
    /// The entry at hand is one of the log.
    #[verifier::type_invariant]
    spec fn bounded(self) -> bool {
        self.work matches Some(w) ==> w.at < w.entries@.len()
    }

    /// Whether the flush waits for an answer of this shape.
    pub fn expects(&self, event: &Event) -> (r: bool)
        ensures
            r == (crate::action::event_shape(event@) == flush_awaits(self@)),
    {
        match &self.work {
            None => event.shape() == Shape::Entries,
            Some(w) => match &w.phase {
                Phase::Finding => event.shape() == Shape::Meta,
                Phase::Moving(t) => t.expects(event),
                Phase::Settling => event.shape() == Shape::Finished,
            },
        }
    }

    /// Takes the answer to the last action, which arrives at the time `now`.
    pub fn step(self, event: Event, now: i64) -> (r: FlushStep)
        requires
            crate::action::event_shape(event@) == flush_awaits(self@),
        ensures
            r@ == flush_step(self@, event@, now),
    {
        proof {
            use_type_invariant(&self);
        }
        let w = match self.work {
            None => {
                return match event {
                    Event::Entries(Ok(entries)) => {
                        let kept = uploads_of(&entries);
                        proof {
                            let all = crate::action::wals(kept@);
                            assert(all.skip(0) =~= all);
                        }
                        upload_from(kept, 0)
                    },
                    _ => FlushStep::Done,
                };
            },
            Some(w) => w,
        };
        let Work { entries, at, phase } = w;
        assert(at < entries.len());
        let wal_id: i64 = entries[at].id;
        match (phase, event) {
            (Phase::Finding, Event::Meta(Ok(Some(m)))) => {
                let (t, a) = Transfer::start(WalOp::UploadS3, &m);
                FlushStep::Next(
                    S3Flush { work: Some(Work { entries, at, phase: Phase::Moving(t) }) },
                    a,
                )
            },
            (Phase::Finding, Event::Meta(Ok(None))) => FlushStep::Next(
                S3Flush { work: Some(Work { entries, at, phase: Phase::Settling }) },
                Action::WalComplete { id: wal_id },
            ),
            (Phase::Finding, _) => upload_from(entries, at + 1),
            (Phase::Moving(t), ev) => match t.step(ev, now) {
                TransferStep::Next(t2, a) => FlushStep::Next(
                    S3Flush { work: Some(Work { entries, at, phase: Phase::Moving(t2) }) },
                    a,
                ),
                TransferStep::Done(Ok(_)) => FlushStep::Next(
                    S3Flush { work: Some(Work { entries, at, phase: Phase::Settling }) },
                    Action::WalComplete { id: wal_id },
                ),
                TransferStep::Done(Err(e)) => FlushStep::Next(
                    S3Flush { work: Some(Work { entries, at, phase: Phase::Settling }) },
                    Action::WalRecordFailure { id: wal_id, error: e.message() },
                ),
            },
            (Phase::Settling, _) => upload_from(entries, at + 1),
        }
    }
}

// ---------------------------------------------------------------------------
// Whether the pending size calls for a flush

/// Where the measurement of the pending size stands.
pub enum BacklogView {
    /// Loading the log.
    Loading { limit: u64 },
    /// Looking up the file of an entry, with others behind it.
    Summing { limit: u64, rest: Seq<WalView>, total: u64 },
}

/// The outcome of one step of the measurement: in the end, whether a flush is due.
pub enum BacklogStepView {
    Next(BacklogView, ActionView),
    Done(bool),
}

/// The step to the file of the next entry.
pub open spec fn next_size(limit: u64, rest: Seq<WalView>, total: u64) -> BacklogStepView {
    if rest.len() == 0 {
        BacklogStepView::Done(total > limit)
    } else {
        BacklogStepView::Next(
            BacklogView::Summing { limit, rest: rest.skip(1), total },
            ActionView::LookupId { id: rest[0].file_id },
        )
    }
}

/// The shape of the answer that the measurement waits for.
pub open spec fn backlog_awaits(s: BacklogView) -> Shape {
    match s {
        BacklogView::Loading { .. } => Shape::Entries,
        BacklogView::Summing { .. } => Shape::Meta,
    }
}

/// The sum of two sizes, or the greatest number where that is smaller.
pub open spec fn sum_capped(a: u64, b: u64) -> u64 {
    if a + b <= u64::MAX {
        (a + b) as u64
    } else {
        u64::MAX
    }
}

/// What the measurement does with an answer. A file that cannot be looked up counts
/// for nothing.
pub open spec fn backlog_step(s: BacklogView, e: EventView) -> BacklogStepView {
    match (s, e) {
        (BacklogView::Loading { limit }, EventView::Entries(Ok(entries))) => next_size(
            limit,
            uploads(entries),
            0,
        ),
        (BacklogView::Loading { .. }, _) => BacklogStepView::Done(false),
        (BacklogView::Summing { limit, rest, total }, EventView::Meta(Ok(Some(m)))) => next_size(
            limit,
            rest,
            sum_capped(total, m.size_bytes),
        ),
        (BacklogView::Summing { limit, rest, total }, _) => next_size(limit, rest, total),
    }
}

#[derive(Debug, PartialEq, Eq)]
struct Sum {
    entries: Vec<WalEntry>,
    next: usize,
    total: u64,
}

/// A measurement of the pending size in progress.
#[derive(Debug, PartialEq, Eq)]
pub struct Backlog {
    limit: u64,
    sum: Option<Sum>,
}

impl View for Backlog {
    type V = BacklogView;

    closed spec fn view(&self) -> BacklogView {
        match self.sum {
            None => BacklogView::Loading { limit: self.limit },
            Some(s) => BacklogView::Summing {
                limit: self.limit,
                rest: crate::action::wals(s.entries@).skip(s.next as int),
                total: s.total,
            },
        }
    }
}

/// The outcome of one step of the measurement.
#[derive(Debug, PartialEq, Eq)]
pub enum BacklogStep {
    /// The measurement goes on, and waits for the answer to the action.
    Next(Backlog, Action),
    /// The measurement is over: whether a flush is due.
    Done(bool),
}

impl View for BacklogStep {
    type V = BacklogStepView;

    open spec fn view(&self) -> BacklogStepView {
        match self {
            BacklogStep::Next(s, a) => BacklogStepView::Next(s@, a@),
            BacklogStep::Done(due) => BacklogStepView::Done(*due),
        }
    }
}

fn size_from(limit: u64, entries: Vec<WalEntry>, at: usize, total: u64) -> (r: BacklogStep)
    requires
        at <= entries@.len(),
    ensures
        r@ == next_size(limit, crate::action::wals(entries@).skip(at as int), total),
{
    if at >= entries.len() {
        return BacklogStep::Done(total > limit);
    }
    proof {
        let all = crate::action::wals(entries@);
        assert(all.skip(at as int).skip(1) =~= all.skip(at + 1));
    }
    let id: i64 = entries[at].file_id;
    BacklogStep::Next(
        Backlog { limit, sum: Some(Sum { entries, next: at + 1, total }) },
        Action::LookupId { id },
    )
}

impl Backlog {
    /// What is left to look up is a part of the log.
    #[verifier::type_invariant]
    spec fn bounded(self) -> bool {
        self.sum matches Some(s) ==> s.next <= s.entries@.len()
    }

    /// Starts the measurement against a flush size in bytes.
    pub fn measure(flush_size_bytes: u64) -> (r: (Backlog, Action))
        ensures
            r.0@ == (BacklogView::Loading { limit: flush_size_bytes }),
            r.1@ == ActionView::WalPending,
    {
        (Backlog { limit: flush_size_bytes, sum: None }, Action::WalPending)
    }

    /// Whether the measurement waits for an answer of this shape.
    pub fn expects(&self, event: &Event) -> (r: bool)
        ensures
            r == (crate::action::event_shape(event@) == backlog_awaits(self@)),
    {
        match &self.sum {
            None => event.shape() == Shape::Entries,
            Some(_) => event.shape() == Shape::Meta,
        }
    }

    /// Takes the answer to the last action.
    pub fn step(self, event: Event) -> (r: BacklogStep)
        requires
            crate::action::event_shape(event@) == backlog_awaits(self@),
        ensures
            r@ == backlog_step(self@, event@),
    {
        proof {
            use_type_invariant(&self);
        }
        match (self.sum, event) {
            (None, Event::Entries(Ok(entries))) => {
                let kept = uploads_of(&entries);
                proof {
                    let all = crate::action::wals(kept@);
                    assert(all.skip(0) =~= all);
                }
                size_from(self.limit, kept, 0, 0)
            },
            (None, _) => BacklogStep::Done(false),
            (Some(s), Event::Meta(Ok(Some(m)))) => size_from(
                self.limit,
                s.entries,
                s.next,
                s.total.saturating_add(m.size_bytes),
            ),
            (Some(s), _) => size_from(self.limit, s.entries, s.next, s.total),
        }
    }
}

// ---------------------------------------------------------------------------
// Laws of uploads

/// The uploader takes up the uploads of the log that have failed fewer than ten times, and
/// nothing else.
pub proof fn law_uploads_are_the_pending_ones(entries: Seq<WalView>, e: WalView)
    ensures
        uploads(entries).contains(e) <==> entries.contains(e) && e.op == WalOp::UploadS3 && e.attempts < 10,
{
    crate::metadata::lemma_filter_keeps(entries, |x: WalView| uploadable(x), e);
}

/// It takes them up in the order of the log: what is in front of an entry on the log is in
/// front of it among the uploads.
pub proof fn law_uploads_keep_the_order(a: Seq<WalView>, b: Seq<WalView>)
    ensures
        uploads(a + b) == uploads(a) + uploads(b),
{
    Seq::filter_distributes_over_add(a, b, |x: WalView| uploadable(x));
}

/// How the measurement of the pending size ends that has come to `s`, and makes the request
/// `a` as the `k`-th, within `fuel` requests: whether a flush is due.
pub open spec fn run_backlog(env: Env, k: nat, w: World, s: BacklogView, a: ActionView, fuel: nat) -> Option<bool>
    decreases fuel,
{
    if fuel == 0 {
        None
    } else {
        let (w2, e) = perform(env, k, w, a);
        match backlog_step(s, e) {
            BacklogStepView::Done(due) => Some(due),
            BacklogStepView::Next(s2, a2) => run_backlog(env, k + 1, w2, s2, a2, (fuel - 1) as nat),
        }
    }
}

/// The same from one of its steps on.
pub open spec fn run_backlog_step(env: Env, k: nat, w: World, step: BacklogStepView, fuel: nat) -> Option<bool> {
    match step {
        BacklogStepView::Done(due) => Some(due),
        BacklogStepView::Next(s, a) => run_backlog(env, k, w, s, a, fuel),
    }
}

/// The size of the file that a log entry is about; nothing if there is none.
pub open spec fn size_for(w: World, e: WalView) -> nat {
    match w.by_id(e.file_id) {
        Some(m) => m.size_bytes as nat,
        None => 0,
    }
}

/// The total size of the files of the uploads that are pending on a log.
pub open spec fn pending_size(w: World, wal: Seq<WalView>) -> nat
    decreases wal.len(),
{
    if wal.len() == 0 {
        0
    } else {
        let e = wal.last();
        pending_size(w, wal.drop_last()) + if e.op == WalOp::UploadS3 && e.attempts < 10 {
            size_for(w, e)
        } else {
            0
        }
    }
}

/// The total size of the files of some entries that can be looked up, the first by the
/// `k`-th request.
pub open spec fn sizes_found(env: Env, k: nat, w: World, rest: Seq<WalView>) -> nat
    decreases rest.len(),
{
    if rest.len() == 0 {
        0
    } else {
        (if (env.faults)(k) is Some {
            0
        } else {
            size_for(w, rest[0])
        }) + sizes_found(env, k + 1, w, rest.skip(1))
    }
}

/// The number, or the greatest one that a size can be.
pub open spec fn at_most_max(n: nat) -> nat {
    if n <= u64::MAX {
        n
    } else {
        u64::MAX as nat
    }
}

proof fn lemma_sizes_summed(env: Env, k: nat, w: World, limit: u64, rest: Seq<WalView>, so_far: nat, total: u64, fuel: nat)
    requires
        total == at_most_max(so_far),
        fuel >= rest.len(),
    ensures
        run_backlog_step(env, k, w, next_size(limit, rest, total), fuel) == Some(
            at_most_max(so_far + sizes_found(env, k, w, rest)) > limit,
        ),
    decreases rest.len(),
{
    if rest.len() > 0 {
        let e = rest[0];
        let tail = rest.skip(1);
        assert((env.faults)(k) is None || (env.faults)(k) is Some);
        let more = if (env.faults)(k) is Some {
            0
        } else {
            size_for(w, e)
        };
        let next = at_most_max(so_far + more) as u64;
        let s = BacklogView::Summing { limit, rest: tail, total };
        let a = ActionView::LookupId { id: e.file_id };
        lemma_sizes_summed(env, k + 1, w, limit, tail, so_far + more, next, (fuel - 1) as nat);
        let (w2, ev) = perform(env, k, w, a);
        assert(w2 == w);
        assert(backlog_step(s, ev) == next_size(limit, tail, next));
    }
}

proof fn lemma_sizes_of_uploads(env: Env, k: nat, w: World, a: Seq<WalView>, b: Seq<WalView>)
    ensures
        sizes_found(env, k, w, a + b) == sizes_found(env, k, w, a) + sizes_found(env, k + a.len(), w, b),
    decreases a.len(),
{
    if a.len() == 0 {
        assert(a + b =~= b);
    } else {
        assert((a + b).skip(1) =~= a.skip(1) + b);
        lemma_sizes_of_uploads(env, k + 1, w, a.skip(1), b);
        assert(k + 1 + a.skip(1).len() == k + a.len());
    }
}

proof fn lemma_pending_size(env: Env, k: nat, w: World, wal: Seq<WalView>)
    requires
        healthy(env),
    ensures
        sizes_found(env, k, w, uploads(wal)) == pending_size(w, wal),
    decreases wal.len(),
{
    reveal(Seq::filter);
    if wal.len() > 0 {
        let front = uploads(wal.drop_last());
        lemma_pending_size(env, k, w, wal.drop_last());
        if uploadable(wal.last()) {
            let one = seq![wal.last()];
            assert(uploads(wal) =~= front + one);
            lemma_sizes_of_uploads(env, k, w, front, one);
            assert((env.faults)(k + front.len()) is None);
            assert(one.skip(1) =~= Seq::empty());
            reveal_with_fuel(sizes_found, 2);
        }
    }
}

/// A flush is due when the files of the uploads on the log, as far as they can be looked up,
/// are together larger than the flush size; a log that cannot be loaded calls for none.
pub proof fn law_flush_is_due_whatever_fails(env: Env, k: nat, w: World, limit: u64, fuel: nat)
    requires
        fuel >= w.wal.len() + 1,
    ensures
        run_backlog(env, k, w, BacklogView::Loading { limit }, ActionView::WalPending, fuel) == Some(
            (env.faults)(k) is None && at_most_max(sizes_found(env, k + 1, w, uploads(w.wal))) > limit,
        ),
{
    assert((env.faults)(k) is None || (env.faults)(k) is Some);
    let rest = uploads(w.wal);
    w.wal.lemma_filter_len(|x: WalView| uploadable(x));
    lemma_sizes_summed(env, k + 1, w, limit, rest, 0, 0, (fuel - 1) as nat);
}

/// If no request fails, a flush is due just when the pending uploads are together larger
/// than the flush size.
pub proof fn law_flush_is_due(env: Env, k: nat, w: World, limit: u64, fuel: nat)
    requires
        healthy(env),
        pending_size(w, w.wal) <= u64::MAX,
        fuel >= w.wal.len() + 1,
    ensures
        run_backlog(env, k, w, BacklogView::Loading { limit }, ActionView::WalPending, fuel) == Some(
            pending_size(w, w.wal) > limit,
        ),
{
    law_flush_is_due_whatever_fails(env, k, w, limit, fuel);
    lemma_pending_size(env, k + 1, w, w.wal);
    assert((env.faults)(k) is None);
}

} // verus!
