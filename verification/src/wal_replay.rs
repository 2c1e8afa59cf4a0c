//! Replay of the write-ahead log, on startup, before any request is served.
//!
//! Entries left over from a crash are carried out again, each with exponential
//! backoff between its attempts.

use crate::action::Action;
use crate::action::ActionView;
use crate::action::Event;
use crate::action::EventView;
use crate::action::Shape;
use crate::error::error_text;
use crate::transfer::Transfer;
use crate::transfer::TransferStep;
use crate::transfer::TransferStepView;
use crate::transfer::TransferView;
use crate::types::WalEntry;
use crate::types::WalView;
use vstd::prelude::*;

verus! {

/// An entry that has failed this often is given up.
pub const MAX_ATTEMPTS: u32 = 10;

/// The wait after the first failed attempt.
pub const BASE_DELAY_MS: u64 = 500;

/// The longest wait.
pub const MAX_DELAY_MS: u64 = 30_000;

/// The wait that follows a wait of `delay`: twice as long, up to the longest.
pub open spec fn longer(delay: u64) -> u64 {
    if 2 * delay <= MAX_DELAY_MS {
        (2 * delay) as u64
    } else {
        MAX_DELAY_MS
    }
}

/// What is being done for the entry at hand.
pub enum PhaseView {
    /// Looking up the file.
    Finding,
    /// Carrying out the operation.
    Moving(TransferView),
    /// Taking the entry off the log.
    Completing,
    /// Noting that the attempt failed.
    Recording,
    /// Waiting before the next attempt.
    Pausing,
}

/// Where a replay stands.
pub enum ReplayView {
    /// Loading the log.
    Loading,
    /// Working on an entry, with others behind it.
    Working { rest: Seq<WalView>, entry: WalView, attempt: u32, delay: u64, phase: PhaseView },
}

/// The outcome of one step of a replay.
pub enum ReplayStepView {
    Next(ReplayView, ActionView),
    Done,
}

/// The step to the next attempt on an entry.
pub open spec fn try_entry(rest: Seq<WalView>, entry: WalView, attempt: u32, delay: u64) -> ReplayStepView {
    ReplayStepView::Next(
        ReplayView::Working { rest, entry, attempt, delay, phase: PhaseView::Finding },
        ActionView::LookupId { id: entry.file_id },
    )
}

/// The step to the next entry that is not given up.
pub open spec fn advance(rest: Seq<WalView>) -> ReplayStepView
    decreases rest.len(),
{
    if rest.len() == 0 {
        ReplayStepView::Done
    } else if rest[0].attempts >= MAX_ATTEMPTS {
        advance(rest.skip(1))
    } else {
        try_entry(rest.skip(1), rest[0], rest[0].attempts, BASE_DELAY_MS)
    }
}

/// The shape of the answer that a replay waits for.
pub open spec fn replay_awaits(s: ReplayView) -> Shape {
    match s {
        ReplayView::Loading => Shape::Entries,
        ReplayView::Working { phase, .. } => match phase {
            PhaseView::Finding => Shape::Meta,
            PhaseView::Moving(t) => crate::transfer::transfer_awaits(t),
            _ => Shape::Finished,
        },
    }
}

/// What a replay does with an answer.
pub open spec fn replay_step(s: ReplayView, e: EventView, now: i64) -> ReplayStepView {
    match s {
        ReplayView::Loading => match e {
            EventView::Entries(Ok(entries)) => advance(entries),
            _ => ReplayStepView::Done,
        },
        ReplayView::Working { rest, entry, attempt, delay, phase } => match (phase, e) {
            (PhaseView::Finding, EventView::Meta(Ok(Some(m)))) => ReplayStepView::Next(
                ReplayView::Working {
                    rest,
                    entry,
                    attempt,
                    delay,
                    phase: PhaseView::Moving(crate::transfer::transfer_start(entry.op, m)),
                },
                crate::transfer::transfer_request(entry.op, m),
            ),
            (PhaseView::Finding, EventView::Meta(Ok(None))) => ReplayStepView::Next(
                ReplayView::Working { rest, entry, attempt, delay, phase: PhaseView::Completing },
                ActionView::WalComplete { id: entry.id },
            ),
            (PhaseView::Finding, _) => advance(rest),
            (PhaseView::Moving(t), _) => match crate::transfer::transfer_step(t, e, now) {
                TransferStepView::Next(t2, a) => ReplayStepView::Next(
                    ReplayView::Working {
                        rest,
                        entry,
                        attempt,
                        delay,
                        phase: PhaseView::Moving(t2),
                    },
                    a,
                ),
                TransferStepView::Done(Ok(_)) => ReplayStepView::Next(
                    ReplayView::Working { rest, entry, attempt, delay, phase: PhaseView::Completing },
                    ActionView::WalComplete { id: entry.id },
                ),
                TransferStepView::Done(Err(x)) => ReplayStepView::Next(
                    ReplayView::Working { rest, entry, attempt, delay, phase: PhaseView::Recording },
                    ActionView::WalRecordFailure { id: entry.id, error: error_text(x) },
                ),
            },
            (PhaseView::Completing, _) => advance(rest),
            (PhaseView::Recording, _) => ReplayStepView::Next(
                ReplayView::Working {
                    rest,
                    entry,
                    attempt: (attempt + 1) as u32,
                    delay,
                    phase: PhaseView::Pausing,
                },
                ActionView::Sleep { millis: delay },
            ),
            (PhaseView::Pausing, _) => {
                if attempt >= MAX_ATTEMPTS {
                    advance(rest)
                } else {
                    try_entry(rest, entry, attempt, longer(delay))
                }
            },
        },
    }
}

#[derive(Debug, PartialEq, Eq)]
enum Phase {
    Finding,
    Moving(Transfer),
    Completing,
    Recording,
    Pausing,
}

impl View for Phase {
    type V = PhaseView;

    closed spec fn view(&self) -> PhaseView {
        match self {
            Phase::Finding => PhaseView::Finding,
            Phase::Moving(t) => PhaseView::Moving(t@),
            Phase::Completing => PhaseView::Completing,
            Phase::Recording => PhaseView::Recording,
            Phase::Pausing => PhaseView::Pausing,
        }
    }
}

#[derive(Debug, PartialEq, Eq)]
struct Work {
    entries: Vec<WalEntry>,
    at: usize,
    attempt: u32,
    delay: u64,
    phase: Phase,
}

/// A replay in progress.
#[derive(Debug, PartialEq, Eq)]
pub struct WalReplay {
    work: Option<Work>,
}

impl View for WalReplay {
    type V = ReplayView;

    closed spec fn view(&self) -> ReplayView {
        match self.work {
            None => ReplayView::Loading,
            Some(w) => ReplayView::Working {
                rest: crate::action::wals(w.entries@).skip(w.at + 1),
                entry: w.entries@[w.at as int]@,
                attempt: w.attempt,
                delay: w.delay,
                phase: w.phase@,
            },
        }
    }
}

/// The outcome of one step of a replay.
#[derive(Debug, PartialEq, Eq)]
pub enum ReplayStep {
    /// The replay goes on, and waits for the answer to the action.
    Next(WalReplay, Action),
    /// The replay is over.
    Done,
}

impl View for ReplayStep {
    type V = ReplayStepView;

    open spec fn view(&self) -> ReplayStepView {
        match self {
            ReplayStep::Next(s, a) => ReplayStepView::Next(s@, a@),
            ReplayStep::Done => ReplayStepView::Done,
        }
    }
}

/// Starts a replay: the log is loaded first.
pub fn replay_wal() -> (r: (WalReplay, Action))
    ensures
        r.0@ == ReplayView::Loading,
        r.1@ == ActionView::WalPending,
{
    (WalReplay { work: None }, Action::WalPending)
}

/// The step to the first entry from `from` on that is not given up.
fn advance_from(entries: Vec<WalEntry>, from: usize) -> (r: ReplayStep)
    requires
        from <= entries@.len(),
    ensures
        r@ == advance(crate::action::wals(entries@).skip(from as int)),
{
    let ghost all = crate::action::wals(entries@);
    let mut at: usize = from;
    while at < entries.len()
        invariant
            at <= entries@.len(),
            all == crate::action::wals(entries@),
            advance(all.skip(from as int)) == advance(all.skip(at as int)),
        decreases entries.len() - at,
    {
        assert(all.skip(at as int)[0] == entries@[at as int]@);
        assert(all.skip(at as int).skip(1) =~= all.skip(at + 1));
        if entries[at].attempts < MAX_ATTEMPTS {
            let attempt: u32 = entries[at].attempts;
            let id: i64 = entries[at].file_id;
            return ReplayStep::Next(
                WalReplay {
                    work: Some(
                        Work { entries, at, attempt, delay: BASE_DELAY_MS, phase: Phase::Finding },
                    ),
                },
                Action::LookupId { id },
            );
        }
        at += 1;
    }
    ReplayStep::Done
}

impl WalReplay {
    /// The entry at hand is one of the log, its attempts are not used up unless it is
    /// about to be given up, and the wait is within bounds.
    #[verifier::type_invariant]
    spec fn bounded(self) -> bool {
        self.work matches Some(w) ==> {
            &&& w.at < w.entries@.len()
            &&& w.phase is Pausing || w.attempt < MAX_ATTEMPTS
            &&& w.delay <= MAX_DELAY_MS
        }
    }

    /// Whether the replay waits for an answer of this shape.
    pub fn expects(&self, event: &Event) -> (r: bool)
        ensures
            r == (crate::action::event_shape(event@) == replay_awaits(self@)),
    {
        match &self.work {
            None => event.shape() == Shape::Entries,
            Some(w) => match &w.phase {
                Phase::Finding => event.shape() == Shape::Meta,
                Phase::Moving(t) => t.expects(event),
                _ => event.shape() == Shape::Finished,
            },
        }
    }

    /// Takes the answer to the last action, which arrives at the time `now`.
    pub fn step(self, event: Event, now: i64) -> (r: ReplayStep)
        requires
            crate::action::event_shape(event@) == replay_awaits(self@),
        ensures
            r@ == replay_step(self@, event@, now),
    {
        proof {
            use_type_invariant(&self);
        }
        let w = match self.work {
            None => {
                return match event {
                    Event::Entries(Ok(entries)) => {
                        proof {
                            let all = crate::action::wals(entries@);
                            assert(all.skip(0) =~= all);
                        }
                        advance_from(entries, 0)
                    },
                    _ => ReplayStep::Done,
                };
            },
            Some(w) => w,
        };
        let Work { entries, at, attempt, delay, phase } = w;
        assert(at < entries.len());
        let wal_id: i64 = entries[at].id;
        match (phase, event) {
            (Phase::Finding, Event::Meta(Ok(Some(m)))) => {
                let (t, a) = Transfer::start(entries[at].op, &m);
                ReplayStep::Next(
                    WalReplay {
                        work: Some(Work { entries, at, attempt, delay, phase: Phase::Moving(t) }),
                    },
                    a,
                )
            },
            (Phase::Finding, Event::Meta(Ok(None))) => ReplayStep::Next(
                WalReplay {
                    work: Some(Work { entries, at, attempt, delay, phase: Phase::Completing }),
                },
                Action::WalComplete { id: wal_id },
            ),
            (Phase::Finding, _) => advance_from(entries, at + 1),
            (Phase::Moving(t), ev) => match t.step(ev, now) {
                TransferStep::Next(t2, a) => ReplayStep::Next(
                    WalReplay {
                        work: Some(Work { entries, at, attempt, delay, phase: Phase::Moving(t2) }),
                    },
                    a,
                ),
                TransferStep::Done(Ok(_)) => ReplayStep::Next(
                    WalReplay {
                        work: Some(Work { entries, at, attempt, delay, phase: Phase::Completing }),
                    },
                    Action::WalComplete { id: wal_id },
                ),
                TransferStep::Done(Err(e)) => ReplayStep::Next(
                    WalReplay {
                        work: Some(Work { entries, at, attempt, delay, phase: Phase::Recording }),
                    },
                    Action::WalRecordFailure { id: wal_id, error: e.message() },
                ),
            },
            (Phase::Completing, _) => advance_from(entries, at + 1),
            (Phase::Recording, _) => ReplayStep::Next(
                WalReplay {
                    work: Some(
                        Work { entries, at, attempt: attempt + 1, delay, phase: Phase::Pausing },
                    ),
                },
                Action::Sleep { millis: delay },
            ),
            (Phase::Pausing, _) => {
                if attempt >= MAX_ATTEMPTS {
                    advance_from(entries, at + 1)
                } else {
                    let doubled: u64 = delay * 2;
                    let longest: u64 = MAX_DELAY_MS;
                    let delay: u64 = if doubled <= longest {
                        doubled
                    } else {
                        longest
                    };
                    let id: i64 = entries[at].file_id;
                    ReplayStep::Next(
                        WalReplay {
                            work: Some(
                                Work { entries, at, attempt, delay, phase: Phase::Finding },
                            ),
                        },
                        Action::LookupId { id },
                    )
                }
            },
        }
    }
}

// ---------------------------------------------------------------------------
// Laws of a replay

/// The wait after `k` failed attempts before it: 500 ms doubled `k` times, capped at
/// 30 s.
pub open spec fn backoff(k: nat) -> int {
    let doubled = 500 * vstd::arithmetic::power2::pow2(k);
    if doubled <= 30_000 {
        doubled as int
    } else {
        30_000
    }
}

/// A replay in which every attempt counts: none is made once ten have been, and each
/// wait is the backoff for the attempts that this replay has made on the entry.
pub open spec fn paced(s: ReplayView) -> bool {
    s matches ReplayView::Working { entry, attempt, delay, phase, .. } ==> {
        &&& entry.attempts <= attempt <= 10
        &&& !(phase is Pausing) ==> attempt < 10 && delay == backoff((attempt - entry.attempts) as nat)
        &&& phase is Pausing ==> entry.attempts < attempt && delay == backoff(
            (attempt - entry.attempts - 1) as nat,
        )
    }
}

/// After a failed attempt the request is to wait for the backoff, and where a file is looked
/// up or an attempt is settled it is none to wait.
pub open spec fn waits(s: ReplayView, a: ActionView) -> bool {
    match s {
        ReplayView::Working { entry, attempt, phase: PhaseView::Pausing, .. } => a matches ActionView::Sleep {
            millis,
        } && millis == backoff((attempt - entry.attempts - 1) as nat),
        ReplayView::Working { phase: PhaseView::Moving(_), .. } => true,
        _ => !(a is Sleep),
    }
}

/// The log's entries wait longer and longer: a replay starts paced and stays so, and what it
/// waits after an attempt is the backoff.
pub proof fn law_replay_is_paced(s: ReplayView, e: EventView, now: i64)
    requires
        paced(s),
    ensures
        paced(ReplayView::Loading),
        replay_step(s, e, now) matches ReplayStepView::Next(t, a) ==> paced(t) && waits(t, a),
{
    vstd::arithmetic::power2::lemma2_to64();
    match s {
        ReplayView::Loading => {
            if let EventView::Entries(Ok(entries)) = e {
                lemma_advance_is_paced(entries);
            }
        },
        ReplayView::Working { rest, entry, attempt, delay, phase } => {
            lemma_advance_is_paced(rest);
            if phase is Pausing && attempt < 10 {
                let k = (attempt - entry.attempts - 1) as nat;
                vstd::arithmetic::power2::lemma_pow2_unfold(k + 1);
                assert(backoff(k + 1) == longer(delay));
            }
        },
    }
}

proof fn lemma_advance_is_paced(rest: Seq<WalView>)
    ensures
        advance(rest) matches ReplayStepView::Next(t, a) ==> paced(t) && waits(t, a),
    decreases rest.len(),
{
    vstd::arithmetic::power2::lemma2_to64();
    if rest.len() > 0 && rest[0].attempts >= MAX_ATTEMPTS {
        lemma_advance_is_paced(rest.skip(1));
    }
}

/// Only pending entries that are not given up are worked on: what a replay takes up
/// next is one of those behind, and has had fewer than ten attempts.
pub proof fn law_replay_takes_what_is_pending(rest: Seq<WalView>)
    ensures
        match advance(rest) {
            ReplayStepView::Next(ReplayView::Working { entry, .. }, _) => rest.contains(entry)
                && entry.attempts < 10,
            ReplayStepView::Next(ReplayView::Loading, _) => false,
            ReplayStepView::Done => forall|i: int|
                0 <= i < rest.len() ==> (#[trigger] rest[i]).attempts >= 10,
        },
    decreases rest.len(),
{
    if rest.len() > 0 {
        if rest[0].attempts >= MAX_ATTEMPTS {
            let tail = rest.skip(1);
            law_replay_takes_what_is_pending(tail);
            match advance(tail) {
                ReplayStepView::Next(ReplayView::Working { entry, .. }, _) => {
                    let k = choose|k: int| 0 <= k < tail.len() && tail[k] == entry;
                    assert(rest[k + 1] == entry);
                },
                _ => {
                    assert forall|i: int| 0 <= i < rest.len() implies (#[trigger] rest[i]).attempts
                        >= 10 by {
                        if i > 0 {
                            assert(tail[i - 1] == rest[i]);
                        }
                    }
                },
            }
        } else {
            assert(rest.contains(rest[0]));
        }
    }
}

} // verus!
