//! Copying one file to a colder tier, as an entry of the write-ahead log asks for.

use crate::action::Action;
use crate::action::ActionView;
use crate::action::Event;
use crate::action::EventView;
use crate::action::Shape;
use crate::error::ErrorView;
use crate::error::FvfsError;
use crate::path::VfsPath;
use crate::router::Reply;
use crate::router::ReplyView;
use crate::router::RouterView;
use crate::router::Step;
use crate::router::StepView;
use crate::router::TierRouter;
use crate::tier::Tier;
use crate::tier::TierBitmask;
use crate::types::FileMetadata;
use crate::types::MetaView;
use crate::types::WalOp;
use vstd::prelude::*;

verus! {

/// What a transfer has to know of the file.
pub struct SubjectView {
    pub path: Seq<char>,
    pub id: i64,
    pub tiers: TierBitmask,
}

/// Where a transfer stands.
pub enum TransferView {
    /// Reading the local copy, to be put on the NAS.
    FromLocal(SubjectView),
    /// Writing to the NAS.
    ToNas(SubjectView),
    /// Reading from the fastest tier, to be uploaded.
    Reading(SubjectView, RouterView),
    /// Uploading to S3.
    ToS3(SubjectView),
    /// Noting the tier that has the file now.
    Marking,
}

/// The outcome of one step of a transfer.
pub enum TransferStepView {
    Next(TransferView, ActionView),
    Done(Result<(), ErrorView>),
}

/// What a transfer knows of an entry.
pub open spec fn subject(m: MetaView) -> SubjectView {
    SubjectView { path: m.path, id: m.id, tiers: m.tiers }
}

/// The first state of a transfer.
pub open spec fn transfer_start(op: WalOp, m: MetaView) -> TransferView {
    match op {
        WalOp::ReplicateNas => TransferView::FromLocal(subject(m)),
        WalOp::UploadS3 => TransferView::Reading(subject(m), RouterView::ReadMeta { path: m.path }),
    }
}

/// The first request of a transfer.
pub open spec fn transfer_request(op: WalOp, m: MetaView) -> ActionView {
    match op {
        WalOp::ReplicateNas => ActionView::Get { tier: Tier::Local, path: m.path },
        WalOp::UploadS3 => ActionView::Lookup { path: m.path },
    }
}

/// The shape of the answer that a transfer waits for.
pub open spec fn transfer_awaits(t: TransferView) -> Shape {
    match t {
        TransferView::FromLocal(_) => Shape::Data,
        TransferView::Reading(_, s) => crate::router::awaited(s),
        _ => Shape::Finished,
    }
}

/// The step that notes that the file is on the tier now.
pub open spec fn mark(f: SubjectView, tier: Tier) -> TransferStepView {
    TransferStepView::Next(
        TransferView::Marking,
        ActionView::SetTiers { id: f.id, tiers: f.tiers.with(tier) },
    )
}

/// What a transfer does with an answer.
pub open spec fn transfer_step(t: TransferView, e: EventView, now: i64) -> TransferStepView {
    match (t, e) {
        (TransferView::FromLocal(f), EventView::Data(r)) => match r {
            Ok(data) => TransferStepView::Next(
                TransferView::ToNas(f),
                ActionView::Put { tier: Tier::Nas, path: f.path, data },
            ),
            Err(x) => TransferStepView::Done(Err(x)),
        },
        (TransferView::ToNas(f), EventView::Finished(r)) => match r {
            Ok(_) => mark(f, Tier::Nas),
            Err(x) => TransferStepView::Done(Err(x)),
        },
        (TransferView::Reading(f, s), _) => match crate::router::router_step(s, e, now) {
            StepView::Next(s2, a) => TransferStepView::Next(TransferView::Reading(f, s2), a),
            StepView::Done(Ok(ReplyView::Data(data))) => TransferStepView::Next(
                TransferView::ToS3(f),
                ActionView::Put { tier: Tier::S3, path: f.path, data },
            ),
            StepView::Done(Ok(_)) => arbitrary(),
            StepView::Done(Err(x)) => TransferStepView::Done(Err(x)),
        },
        (TransferView::ToS3(f), EventView::Finished(r)) => match r {
            Ok(_) => mark(f, Tier::S3),
            Err(x) => TransferStepView::Done(Err(x)),
        },
        (TransferView::Marking, EventView::Finished(r)) => TransferStepView::Done(r),
        _ => arbitrary(),
    }
}

#[derive(Debug, PartialEq, Eq)]
struct Subject {
    path: VfsPath,
    id: i64,
    tiers: TierBitmask,
}

impl View for Subject {
    type V = SubjectView;

    closed spec fn view(&self) -> SubjectView {
        SubjectView { path: self.path@, id: self.id, tiers: self.tiers }
    }
}

#[derive(Debug, PartialEq, Eq)]
enum State {
    FromLocal(Subject),
    ToNas(Subject),
    Reading(Subject, TierRouter),
    ToS3(Subject),
    Marking,
}

/// A transfer in progress.
#[derive(Debug, PartialEq, Eq)]
pub struct Transfer {
    state: State,
}

impl View for Transfer {
    type V = TransferView;

    closed spec fn view(&self) -> TransferView {
        match self.state {
            State::FromLocal(f) => TransferView::FromLocal(f@),
            State::ToNas(f) => TransferView::ToNas(f@),
            State::Reading(f, s) => TransferView::Reading(f@, s@),
            State::ToS3(f) => TransferView::ToS3(f@),
            State::Marking => TransferView::Marking,
        }
    }
}

/// The outcome of one step of a transfer.
#[derive(Debug, PartialEq, Eq)]
pub enum TransferStep {
    /// The transfer goes on, and waits for the answer to the action.
    Next(Transfer, Action),
    /// The transfer is over.
    Done(Result<(), FvfsError>),
}

impl View for TransferStep {
    type V = TransferStepView;

    open spec fn view(&self) -> TransferStepView {
        match self {
            TransferStep::Next(t, a) => TransferStepView::Next(t@, a@),
            TransferStep::Done(r) => TransferStepView::Done(
                match r {
                    Ok(_) => Ok(()),
                    Err(e) => Err(e@),
                },
            ),
        }
    }
}

fn mark_on(f: Subject, tier: Tier) -> (r: TransferStep)
    ensures
        r@ == mark(f@, tier),
{
    let mut tiers = f.tiers;
    tiers.set(tier);
    TransferStep::Next(
        Transfer { state: State::Marking },
        Action::SetTiers { id: f.id, tiers },
    )
}

impl Transfer {
    /// While the file is being read for an upload, the operation is a read.
    #[verifier::type_invariant]
    spec fn reads(self) -> bool {
        self.state matches State::Reading(_, s) ==> crate::router::is_read(s@)
    }

    /// Starts what a log entry asks for, on the file that it is about.
    pub fn start(op: WalOp, file: &FileMetadata) -> (r: (Transfer, Action))
        ensures
            r.0@ == transfer_start(op, file@),
            r.1@ == transfer_request(op, file@),
    {
        let f = Subject { path: file.path.clone(), id: file.id, tiers: file.tier_bitmask };
        match op {
            WalOp::ReplicateNas => (
                Transfer { state: State::FromLocal(f) },
                Action::Get { tier: Tier::Local, path: file.path.clone() },
            ),
            WalOp::UploadS3 => {
                let (s, a) = TierRouter::read(&file.path);
                (Transfer { state: State::Reading(f, s) }, a)
            },
        }
    }

    /// Whether the transfer waits for an answer of this shape.
    pub fn expects(&self, event: &Event) -> (r: bool)
        ensures
            r == (crate::action::event_shape(event@) == transfer_awaits(self@)),
    {
        match &self.state {
            State::FromLocal(_) => event.shape() == Shape::Data,
            State::Reading(_, s) => s.expects(event),
            _ => event.shape() == Shape::Finished,
        }
    }

    /// Takes the answer to the last action, which arrives at the time `now`.
    pub fn step(self, event: Event, now: i64) -> (r: TransferStep)
        requires
            crate::action::event_shape(event@) == transfer_awaits(self@),
        ensures
            r@ == transfer_step(self@, event@, now),
    {
        proof {
            use_type_invariant(&self);
        }
        match (self.state, event) {
            (State::Reading(f, s), ev) => {
                proof {
                    crate::router::lemma_read_step(s@, ev@, now);
                }
                match s.step(ev, now) {
                    Step::Next(s2, a) => TransferStep::Next(
                        Transfer { state: State::Reading(f, s2) },
                        a,
                    ),
                    Step::Done(Ok(Reply::Data(data))) => {
                        let path = f.path.clone();
                        TransferStep::Next(
                            Transfer { state: State::ToS3(f) },
                            Action::Put { tier: Tier::S3, path, data },
                        )
                    },
                    Step::Done(Ok(_)) => {
                        assert(false);
                        TransferStep::Done(Ok(()))
                    },
                    Step::Done(Err(e)) => TransferStep::Done(Err(e)),
                }
            },
            (State::FromLocal(f), Event::Data(Ok(data))) => {
                let path = f.path.clone();
                TransferStep::Next(
                    Transfer { state: State::ToNas(f) },
                    Action::Put { tier: Tier::Nas, path, data },
                )
            },
            (State::FromLocal(_), Event::Data(Err(e))) => TransferStep::Done(Err(e)),
            (State::ToNas(f), Event::Finished(Ok(_))) => mark_on(f, Tier::Nas),
            (State::ToS3(f), Event::Finished(Ok(_))) => mark_on(f, Tier::S3),
            (State::Marking, Event::Finished(r)) => TransferStep::Done(r),
            (_, Event::Finished(Err(e))) => TransferStep::Done(Err(e)),
            (_, _) => {
                assert(false);
                TransferStep::Done(Ok(()))
            },
        }
    }
}

} // verus!
