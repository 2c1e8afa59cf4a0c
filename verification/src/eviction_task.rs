//! The background eviction.
//!
//! For each of the local disk and the NAS, a cycle
//!   1. asks for the total size of the files on the tier;
//!   2. if that is above the high watermark, evicts files, the lowest score first,
//!      until usage has dropped to the low watermark;
//!   3. evicts a file only if the object store has it.

use crate::action::Action;
use crate::action::ActionView;
use crate::action::Event;
use crate::action::EventView;
use crate::action::Shape;
use crate::router::RouterView;
use crate::router::Step;
use crate::router::StepView;
use crate::router::TierRouter;
use crate::s3_uploader::sum_capped;
use crate::tier::Tier;
use crate::types::FileMetadata;
use crate::types::MetaView;
use vstd::prelude::*;

verus! {

/// Usage above the first is brought down to the second.
#[derive(Debug, Clone, Copy, PartialEq, Eq, Structural)]
pub struct TierWatermarks {
    pub high_bytes: u64,
    pub low_bytes: u64,
}

impl TierWatermarks {
    /// Watermarks given in gigabytes of two to the power of 30 bytes.
    pub fn from_gb(high_gb: u64, low_gb: u64) -> (r: TierWatermarks)
        ensures
            r.high_bytes == high_gb << 30,
            r.low_bytes == low_gb << 30,
            high_gb < 0x4_0000_0000 ==> r.high_bytes == high_gb * 0x4000_0000,
            low_gb < 0x4_0000_0000 ==> r.low_bytes == low_gb * 0x4000_0000,
    {
        proof {
            lemma_gigabytes(high_gb);
            lemma_gigabytes(low_gb);
        }
        TierWatermarks { high_bytes: high_gb << 30, low_bytes: low_gb << 30 }
    }
}

proof fn lemma_gigabytes(gb: u64)
    ensures
        gb < 0x4_0000_0000 ==> gb << 30 == gb * 0x4000_0000,
{
    assert(gb < 0x4_0000_0000 ==> gb << 30 == gb * 0x4000_0000) by (bit_vector);
}

/// Where a cycle stands.
pub enum CycleView {
    /// Asking for the size of what is on the tier.
    Measuring { tier: Tier, wm: TierWatermarks },
    /// Loading the files on the tier.
    Loading { tier: Tier, target: u64 },
    /// Evicting a file, with others behind it.
    Evicting {
        tier: Tier,
        target: u64,
        freed: u64,
        rest: Seq<MetaView>,
        file: MetaView,
        op: RouterView,
    },
}

/// The outcome of one step of a cycle: in the end, how much was freed.
pub enum CycleStepView {
    Next(CycleView, ActionView),
    Done(u64),
}

/// The step to the next file that can be evicted, unless enough has been freed.
pub open spec fn next_victim(tier: Tier, target: u64, freed: u64, rest: Seq<MetaView>) -> CycleStepView
    decreases rest.len(),
{
    if freed >= target || rest.len() == 0 {
        CycleStepView::Done(freed)
    } else if !rest[0].tiers.can_lose(tier) {
        next_victim(tier, target, freed, rest.skip(1))
    } else {
        CycleStepView::Next(
            CycleView::Evicting {
                tier,
                target,
                freed,
                rest: rest.skip(1),
                file: rest[0],
                op: RouterView::EvictMeta { path: rest[0].path, tier },
            },
            ActionView::Lookup { path: rest[0].path },
        )
    }
}

/// The shape of the answer that a cycle waits for.
pub open spec fn cycle_awaits(s: CycleView) -> Shape {
    match s {
        CycleView::Measuring { .. } => Shape::Bytes,
        CycleView::Loading { .. } => Shape::Ranked,
        CycleView::Evicting { op, .. } => crate::router::awaited(op),
    }
}

/// What has to be freed to get from `used` down to `low`.
pub open spec fn excess(used: u64, low: u64) -> u64 {
    if used > low {
        (used - low) as u64
    } else {
        0
    }
}

/// What a cycle does with an answer.
pub open spec fn cycle_step(s: CycleView, e: EventView, now: i64) -> CycleStepView {
    match s {
        CycleView::Measuring { tier, wm } => match e {
            EventView::Bytes(Ok(used)) => {
                if used <= wm.high_bytes {
                    CycleStepView::Done(0)
                } else {
                    CycleStepView::Next(
                        CycleView::Loading { tier, target: excess(used, wm.low_bytes) },
                        ActionView::FilesOnTier { tier },
                    )
                }
            },
            _ => CycleStepView::Done(0),
        },
        CycleView::Loading { tier, target } => match e {
            EventView::Ranked(Ok(files)) => next_victim(
                tier,
                target,
                0,
                crate::eviction::ranked(files),
            ),
            _ => CycleStepView::Done(0),
        },
        CycleView::Evicting { tier, target, freed, rest, file, op } => match crate::router::router_step(
            op,
            e,
            now,
        ) {
            StepView::Next(op2, a) => CycleStepView::Next(
                CycleView::Evicting { tier, target, freed, rest, file, op: op2 },
                a,
            ),
            StepView::Done(Ok(_)) => next_victim(
                tier,
                target,
                sum_capped(freed, file.size_bytes),
                rest,
            ),
            StepView::Done(Err(_)) => next_victim(tier, target, freed, rest),
        },
    }
}

#[derive(Debug, PartialEq, Eq)]
struct Work {
    files: Vec<FileMetadata>,
    at: usize,
    freed: u64,
    op: TierRouter,
}

#[derive(Debug, PartialEq, Eq)]
enum State {
    Measuring { wm: TierWatermarks },
    Loading { target: u64 },
    Evicting { target: u64, work: Work },
}

/// A cycle in progress.
#[derive(Debug, PartialEq, Eq)]
pub struct EvictionCycle {
    tier: Tier,
    state: State,
}

impl View for EvictionCycle {
    type V = CycleView;

    closed spec fn view(&self) -> CycleView {
        match self.state {
            State::Measuring { wm } => CycleView::Measuring { tier: self.tier, wm },
            State::Loading { target } => CycleView::Loading { tier: self.tier, target },
            State::Evicting { target, work } => CycleView::Evicting {
                tier: self.tier,
                target,
                freed: work.freed,
                rest: crate::action::metas(work.files@).skip(work.at + 1),
                file: work.files@[work.at as int]@,
                op: work.op@,
            },
        }
    }
}

/// The outcome of one step of a cycle.
#[derive(Debug, PartialEq, Eq)]
pub enum CycleStep {
    /// The cycle goes on, and waits for the answer to the action.
    Next(EvictionCycle, Action),
    /// The cycle is over, and has freed this many bytes.
    Done(u64),
}

impl View for CycleStep {
    type V = CycleStepView;

    open spec fn view(&self) -> CycleStepView {
        match self {
            CycleStep::Next(s, a) => CycleStepView::Next(s@, a@),
            CycleStep::Done(freed) => CycleStepView::Done(*freed),
        }
    }
}

/// Starts a cycle on a tier.
pub fn run_eviction_cycle(tier: Tier, wm: TierWatermarks) -> (r: (EvictionCycle, Action))
    ensures
        r.0@ == (CycleView::Measuring { tier, wm }),
        r.1@ == (ActionView::BytesOnTier { tier }),
{
    (EvictionCycle { tier, state: State::Measuring { wm } }, Action::BytesOnTier { tier })
}

/// The step to the first file from `from` on that can be evicted.
fn evict_from(tier: Tier, target: u64, freed: u64, files: Vec<FileMetadata>, from: usize) -> (r: CycleStep)
    requires
        from <= files@.len(),
    ensures
        r@ == next_victim(tier, target, freed, crate::action::metas(files@).skip(from as int)),
{
    let ghost all = crate::action::metas(files@);
    let mut at: usize = from;
    while at < files.len()
        invariant
            at <= files@.len(),
            all == crate::action::metas(files@),
            next_victim(tier, target, freed, all.skip(from as int)) == next_victim(
                tier,
                target,
                freed,
                all.skip(at as int),
            ),
        decreases files.len() - at,
    {
        if freed >= target {
            return CycleStep::Done(freed);
        }
        assert(all.skip(at as int)[0] == files@[at as int]@);
        assert(all.skip(at as int).skip(1) =~= all.skip(at + 1));
        if files[at].tier_bitmask.safe_to_evict_from(tier) {
            let (op, a) = TierRouter::evict_from_tier(&files[at].path, tier);
            return CycleStep::Next(
                EvictionCycle {
                    tier,
                    state: State::Evicting { target, work: Work { files, at, freed, op } },
                },
                a,
            );
        }
        at += 1;
    }
    CycleStep::Done(freed)
}

impl EvictionCycle {
    /// The file at hand is one of those loaded.
    #[verifier::type_invariant]
    spec fn bounded(self) -> bool {
        self.state matches State::Evicting { work, .. } ==> work.at < work.files@.len()
    }

    /// Whether the cycle waits for an answer of this shape.
    pub fn expects(&self, event: &Event) -> (r: bool)
        ensures
            r == (crate::action::event_shape(event@) == cycle_awaits(self@)),
    {
        match &self.state {
            State::Measuring { .. } => event.shape() == Shape::Bytes,
            State::Loading { .. } => event.shape() == Shape::Ranked,
            State::Evicting { work, .. } => work.op.expects(event),
        }
    }

    /// Takes the answer to the last action, which arrives at the time `now`.
    pub fn step(self, event: Event, now: i64) -> (r: CycleStep)
        requires
            crate::action::event_shape(event@) == cycle_awaits(self@),
        ensures
            r@ == cycle_step(self@, event@, now),
    {
        proof {
            use_type_invariant(&self);
        }
        let tier = self.tier;
        match (self.state, event) {
            (State::Measuring { wm }, Event::Bytes(Ok(used))) => {
                if used <= wm.high_bytes {
                    CycleStep::Done(0)
                } else {
                    let target: u64 = used.saturating_sub(wm.low_bytes);
                    CycleStep::Next(
                        EvictionCycle { tier, state: State::Loading { target } },
                        Action::FilesOnTier { tier },
                    )
                }
            },
            (State::Measuring { .. }, _) => CycleStep::Done(0),
            (State::Loading { target }, Event::Ranked(Ok(loaded))) => {
                let files = crate::eviction::rank_for_eviction(&loaded);
                proof {
                    let all = crate::action::metas(files@);
                    assert(all.skip(0) =~= all);
                }
                evict_from(tier, target, 0, files, 0)
            },
            (State::Loading { .. }, _) => CycleStep::Done(0),
            (State::Evicting { target, work }, ev) => {
                let Work { files, at, freed, op } = work;
                assert(at < files.len());
                match op.step(ev, now) {
                    Step::Next(op2, a) => CycleStep::Next(
                        EvictionCycle {
                            tier,
                            state: State::Evicting {
                                target,
                                work: Work { files, at, freed, op: op2 },
                            },
                        },
                        a,
                    ),
                    Step::Done(Ok(_)) => {
                        let freed: u64 = freed.saturating_add(files[at].size_bytes);
                        evict_from(tier, target, freed, files, at + 1)
                    },
                    Step::Done(Err(_)) => evict_from(tier, target, freed, files, at + 1),
                }
            },
        }
    }
}

// ---------------------------------------------------------------------------
// Laws of a cycle

/// At or below the high watermark nothing is evicted.
pub proof fn law_no_eviction_below_high_watermark(tier: Tier, wm: TierWatermarks, used: u64, now: i64)
    requires
        used <= wm.high_bytes,
    ensures
        cycle_step(CycleView::Measuring { tier, wm }, EventView::Bytes(Ok(used)), now)
            == CycleStepView::Done(0),
{
}

/// A cycle stops only when what it set out to free is freed, or when every file that
/// is left has no copy in the object store.
pub proof fn law_cycle_stops_at_low_watermark(tier: Tier, target: u64, freed: u64, rest: Seq<MetaView>)
    ensures
        match next_victim(tier, target, freed, rest) {
            CycleStepView::Done(f) => f == freed && (freed >= target || forall|i: int|
                0 <= i < rest.len() ==> !(#[trigger] rest[i]).tiers.can_lose(tier)),
            CycleStepView::Next(CycleView::Evicting { file, freed: f, target: t, .. }, a) => {
                &&& freed < target
                &&& f == freed && t == target
                &&& rest.contains(file)
                &&& file.tiers.can_lose(tier)
                &&& a == (ActionView::Lookup { path: file.path })
            },
            CycleStepView::Next(_, _) => false,
        },
    decreases rest.len(),
{
    if freed < target && rest.len() > 0 {
        if !rest[0].tiers.can_lose(tier) {
            let tail = rest.skip(1);
            law_cycle_stops_at_low_watermark(tier, target, freed, tail);
            match next_victim(tier, target, freed, tail) {
                CycleStepView::Done(_) => {
                    assert forall|i: int| 0 <= i < rest.len() implies !(#[trigger] rest[i]).tiers.can_lose(
                        tier,
                    ) by {
                        if i > 0 {
                            assert(tail[i - 1] == rest[i]);
                        }
                    }
                },
                CycleStepView::Next(CycleView::Evicting { file, .. }, _) => {
                    let k = choose|k: int| 0 <= k < tail.len() && tail[k] == file;
                    assert(rest[k + 1] == file);
                },
                _ => {},
            }
        } else {
            assert(rest[0] == rest[0]);
            assert(rest.contains(rest[0]));
        }
    }
}

} // verus!
