//! The background promotion of files to the local disk.

use crate::action::Action;
use crate::action::ActionView;
use crate::action::Event;
use crate::action::EventView;
use crate::action::PromoteSignal;
use crate::action::Shape;
use crate::path::VfsPath;
use crate::router::Reply;
use crate::router::ReplyView;
use crate::router::RouterView;
use crate::router::Step;
use crate::router::StepView;
use crate::router::TierRouter;
use crate::tier::Tier;
use vstd::prelude::*;

verus! {

/// Where a promotion stands.
pub enum PromotionView {
    /// Reading the file.
    Reading { path: Seq<char>, op: RouterView },
    /// Writing it to the local disk.
    Storing { path: Seq<char> },
    /// Looking up its entry.
    Finding,
    /// Noting that the local disk has it.
    Marking,
}

/// The outcome of one step of a promotion.
pub enum PromotionStepView {
    Next(PromotionView, ActionView),
    Done,
}

/// The shape of the answer that a promotion waits for.
pub open spec fn promotion_awaits(s: PromotionView) -> Shape {
    match s {
        PromotionView::Reading { op, .. } => crate::router::awaited(op),
        PromotionView::Storing { .. } => Shape::Finished,
        PromotionView::Finding => Shape::Meta,
        PromotionView::Marking => Shape::Finished,
    }
}

/// What a promotion does with an answer. Whatever fails ends it.
pub open spec fn promotion_step(s: PromotionView, e: EventView, now: i64) -> PromotionStepView {
    match (s, e) {
        (PromotionView::Reading { path, op }, _) => match crate::router::router_step(op, e, now) {
            StepView::Next(op2, a) => PromotionStepView::Next(
                PromotionView::Reading { path, op: op2 },
                a,
            ),
            StepView::Done(Ok(ReplyView::Data(data))) => PromotionStepView::Next(
                PromotionView::Storing { path },
                ActionView::Put { tier: Tier::Local, path, data },
            ),
            StepView::Done(_) => PromotionStepView::Done,
        },
        (PromotionView::Storing { path }, EventView::Finished(Ok(_))) => PromotionStepView::Next(
            PromotionView::Finding,
            ActionView::Lookup { path },
        ),
        (PromotionView::Finding, EventView::Meta(Ok(Some(m)))) => PromotionStepView::Next(
            PromotionView::Marking,
            ActionView::SetTiers { id: m.id, tiers: m.tiers.with(Tier::Local) },
        ),
        _ => PromotionStepView::Done,
    }
}

#[derive(Debug, PartialEq, Eq)]
enum State {
    Reading { path: VfsPath, op: TierRouter },
    Storing { path: VfsPath },
    Finding,
    Marking,
}

/// A promotion in progress.
#[derive(Debug, PartialEq, Eq)]
pub struct Promotion {
    state: State,
}

impl View for Promotion {
    type V = PromotionView;

    closed spec fn view(&self) -> PromotionView {
        match self.state {
            State::Reading { path, op } => PromotionView::Reading { path: path@, op: op@ },
            State::Storing { path } => PromotionView::Storing { path: path@ },
            State::Finding => PromotionView::Finding,
            State::Marking => PromotionView::Marking,
        }
    }
}

/// The outcome of one step of a promotion.
#[derive(Debug, PartialEq, Eq)]
pub enum PromotionStep {
    /// The promotion goes on, and waits for the answer to the action.
    Next(Promotion, Action),
    /// The promotion is over.
    Done,
}

impl View for PromotionStep {
    type V = PromotionStepView;

    open spec fn view(&self) -> PromotionStepView {
        match self {
            PromotionStep::Next(s, a) => PromotionStepView::Next(s@, a@),
            PromotionStep::Done => PromotionStepView::Done,
        }
    }
}

impl Promotion {
    /// Starts what a signal asks for: the file is read first, from wherever it is
    /// read fastest by then.
    pub fn start(signal: PromoteSignal) -> (r: (Promotion, Action))
        ensures
            signal matches PromoteSignal::Promote { path, .. } ==> {
                &&& r.0@ == (PromotionView::Reading {
                    path: path@,
                    op: RouterView::ReadMeta { path: path@ },
                })
                &&& r.1@ == (ActionView::Lookup { path: path@ })
            },
    {
        let PromoteSignal::Promote { path, from: _ } = signal;
        let (op, a) = TierRouter::read(&path);
        (Promotion { state: State::Reading { path, op } }, a)
    }

    /// Whether the promotion waits for an answer of this shape.
    pub fn expects(&self, event: &Event) -> (r: bool)
        ensures
            r == (crate::action::event_shape(event@) == promotion_awaits(self@)),
    {
        match &self.state {
            State::Reading { op, .. } => op.expects(event),
            State::Storing { .. } => event.shape() == Shape::Finished,
            State::Finding => event.shape() == Shape::Meta,
            State::Marking => event.shape() == Shape::Finished,
        }
    }

    /// Takes the answer to the last action, which arrives at the time `now`.
    pub fn step(self, event: Event, now: i64) -> (r: PromotionStep)
        requires
            crate::action::event_shape(event@) == promotion_awaits(self@),
        ensures
            r@ == promotion_step(self@, event@, now),
    {
        match (self.state, event) {
            (State::Reading { path, op }, ev) => match op.step(ev, now) {
                Step::Next(op2, a) => PromotionStep::Next(
                    Promotion { state: State::Reading { path, op: op2 } },
                    a,
                ),
                Step::Done(Ok(Reply::Data(data))) => {
                    let to = path.clone();
                    PromotionStep::Next(
                        Promotion { state: State::Storing { path } },
                        Action::Put { tier: Tier::Local, path: to, data },
                    )
                },
                Step::Done(_) => PromotionStep::Done,
            },
            (State::Storing { path }, Event::Finished(Ok(_))) => PromotionStep::Next(
                Promotion { state: State::Finding },
                Action::Lookup { path },
            ),
            (State::Finding, Event::Meta(Ok(Some(m)))) => {
                let mut tiers = m.tier_bitmask;
                tiers.set(Tier::Local);
                PromotionStep::Next(
                    Promotion { state: State::Marking },
                    Action::SetTiers { id: m.id, tiers },
                )
            },
            (_, _) => PromotionStep::Done,
        }
    }
}

} // verus!
