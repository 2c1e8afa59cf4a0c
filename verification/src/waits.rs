//! Every operation waits for an answer of the shape that its request has, as laws about
//! their steps: a request that is answered is never answered in another shape than the one
//! that is waited for.

use crate::action::answer_shape;
use crate::action::event_shape;
use crate::action::ActionView;
use crate::action::EventView;
use crate::eviction_task::cycle_awaits;
use crate::eviction_task::cycle_step;
use crate::eviction_task::next_victim;
use crate::eviction_task::CycleStepView;
use crate::eviction_task::CycleView;
use crate::fuse::InodesView;
use crate::fuse_daemon::call_awaits;
use crate::fuse_daemon::call_step;
use crate::fuse_daemon::CallStepView;
use crate::fuse_daemon::CallView;
use crate::migrate::migration_awaits;
use crate::migrate::migration_step;
use crate::migrate::next_source;
use crate::migrate::HashedView;
use crate::migrate::MigrateReport;
use crate::migrate::MigrateStepView;
use crate::migrate::MigrationView;
use crate::promotion::promotion_awaits;
use crate::promotion::promotion_step;
use crate::promotion::PromotionStepView;
use crate::promotion::PromotionView;
use crate::router::is_read;
use crate::router::RouterView;
use crate::s3_uploader::backlog_awaits;
use crate::s3_uploader::backlog_step;
use crate::s3_uploader::flush_awaits;
use crate::s3_uploader::flush_step;
use crate::s3_uploader::BacklogStepView;
use crate::s3_uploader::BacklogView;
use crate::s3_uploader::FlushStepView;
use crate::s3_uploader::FlushView;
use crate::s3_uploader::UploadPhase;
use crate::tier::Tier;
use crate::transfer::transfer_awaits;
use crate::transfer::transfer_step;
use crate::transfer::TransferStepView;
use crate::transfer::TransferView;
use crate::types::MetaView;
use crate::types::WalOp;
use crate::types::WalView;
use crate::wal_replay::advance;
use crate::wal_replay::replay_awaits;
use crate::wal_replay::replay_step;
use crate::wal_replay::PhaseView;
use crate::wal_replay::ReplayStepView;
use crate::wal_replay::ReplayView;
use vstd::prelude::*;

verus! {

/// While a transfer reads, what it has in it is a read.
pub open spec fn transfer_reads(t: TransferView) -> bool {
    t matches TransferView::Reading(_, s) ==> is_read(s)
}

/// A transfer waits for what it asks for, from its first request on.
pub proof fn law_transfer_waits(t: TransferView, e: EventView, now: i64, op: WalOp, m: MetaView)
    requires
        transfer_reads(t),
        event_shape(e) == transfer_awaits(t),
    ensures
        transfer_reads(crate::transfer::transfer_start(op, m)),
        answer_shape(crate::transfer::transfer_request(op, m)) == transfer_awaits(
            crate::transfer::transfer_start(op, m),
        ),
        transfer_step(t, e, now) matches TransferStepView::Next(t2, a2) ==> transfer_reads(t2)
            && answer_shape(a2) == transfer_awaits(t2),
{
    if let TransferView::Reading(_, s) = t {
        crate::router::lemma_read_step(s, e, now);
        crate::reads::law_requests_fit_the_wait(s, e, now);
    }
}

/// A promotion waits for what it asks for.
pub proof fn law_promotion_waits(s: PromotionView, e: EventView, now: i64)
    requires
        event_shape(e) == promotion_awaits(s),
    ensures
        promotion_step(s, e, now) matches PromotionStepView::Next(s2, a2) ==> answer_shape(a2)
            == promotion_awaits(s2),
{
    if let PromotionView::Reading { op, .. } = s {
        crate::reads::law_requests_fit_the_wait(op, e, now);
    }
}

/// A flush waits for what it asks for.
pub proof fn law_flush_waits(s: FlushView, e: EventView, now: i64)
    requires
        s matches FlushView::Working { phase: UploadPhase::Moving(t), .. } ==> transfer_reads(t),
        event_shape(e) == flush_awaits(s),
    ensures
        answer_shape(ActionView::WalPending) == flush_awaits(FlushView::Loading),
        flush_step(s, e, now) matches FlushStepView::Next(s2, a2) ==> {
            &&& answer_shape(a2) == flush_awaits(s2)
            &&& s2 matches FlushView::Working { phase: UploadPhase::Moving(t), .. } ==> transfer_reads(t)
        },
{
    if let FlushView::Working { phase, .. } = s {
        if let UploadPhase::Moving(t) = phase {
            law_transfer_waits(t, e, now, WalOp::UploadS3, arbitrary());
        }
        if let EventView::Meta(Ok(Some(m))) = e {
            lemma_start_waits(WalOp::UploadS3, m);
        }
    }
}

/// The measurement of the pending size waits for what it asks for.
pub proof fn law_backlog_waits(s: BacklogView, e: EventView, limit: u64)
    requires
        event_shape(e) == backlog_awaits(s),
    ensures
        answer_shape(ActionView::WalPending) == backlog_awaits(BacklogView::Loading { limit }),
        backlog_step(s, e) matches BacklogStepView::Next(s2, a2) ==> answer_shape(a2) == backlog_awaits(
            s2,
        ),
{
}

/// The first request of a transfer is what it waits for.
proof fn lemma_start_waits(op: WalOp, m: MetaView)
    ensures
        transfer_reads(crate::transfer::transfer_start(op, m)),
        answer_shape(crate::transfer::transfer_request(op, m)) == transfer_awaits(
            crate::transfer::transfer_start(op, m),
        ),
{
}

proof fn lemma_advance_waits(rest: Seq<WalView>)
    ensures
        advance(rest) matches ReplayStepView::Next(s, a) ==> answer_shape(a) == replay_awaits(s)
            && !(s matches ReplayView::Working { phase: PhaseView::Moving(_), .. }),
    decreases rest.len(),
{
    if rest.len() > 0 && rest[0].attempts >= crate::wal_replay::MAX_ATTEMPTS {
        lemma_advance_waits(rest.skip(1));
    }
}

/// A replay waits for what it asks for.
pub proof fn law_replay_waits(s: ReplayView, e: EventView, now: i64)
    requires
        s matches ReplayView::Working { phase: PhaseView::Moving(t), .. } ==> transfer_reads(t),
        event_shape(e) == replay_awaits(s),
    ensures
        answer_shape(ActionView::WalPending) == replay_awaits(ReplayView::Loading),
        replay_step(s, e, now) matches ReplayStepView::Next(s2, a2) ==> {
            &&& answer_shape(a2) == replay_awaits(s2)
            &&& s2 matches ReplayView::Working { phase: PhaseView::Moving(t), .. } ==> transfer_reads(t)
        },
{
    match s {
        ReplayView::Loading => {
            if let EventView::Entries(Ok(entries)) = e {
                lemma_advance_waits(entries);
            }
        },
        ReplayView::Working { rest, entry, phase, .. } => {
            lemma_advance_waits(rest);
            if let PhaseView::Moving(t) = phase {
                law_transfer_waits(t, e, now, entry.op, arbitrary());
            }
            if let EventView::Meta(Ok(Some(m))) = e {
                lemma_start_waits(entry.op, m);
            }
        },
    }
}

proof fn lemma_next_victim_waits(tier: Tier, target: u64, freed: u64, rest: Seq<MetaView>)
    ensures
        next_victim(tier, target, freed, rest) matches CycleStepView::Next(s, a) ==> answer_shape(a)
            == cycle_awaits(s),
    decreases rest.len(),
{
    if freed < target && rest.len() > 0 && !rest[0].tiers.can_lose(tier) {
        lemma_next_victim_waits(tier, target, freed, rest.skip(1));
    }
}

/// An eviction cycle waits for what it asks for.
pub proof fn law_cycle_waits(s: CycleView, e: EventView, now: i64)
    requires
        event_shape(e) == cycle_awaits(s),
    ensures
        s matches CycleView::Measuring { tier, .. } ==> answer_shape(ActionView::BytesOnTier { tier })
            == cycle_awaits(s),
        cycle_step(s, e, now) matches CycleStepView::Next(s2, a2) ==> answer_shape(a2) == cycle_awaits(s2),
{
    match s {
        CycleView::Measuring { .. } => {},
        CycleView::Loading { tier, target } => {
            if let EventView::Ranked(Ok(files)) = e {
                lemma_next_victim_waits(tier, target, 0, crate::eviction::ranked(files));
            }
        },
        CycleView::Evicting { tier, target, freed, rest, file, op } => {
            crate::reads::law_requests_fit_the_wait(op, e, now);
            lemma_next_victim_waits(tier, target, freed, rest);
            lemma_next_victim_waits(
                tier,
                target,
                crate::s3_uploader::sum_capped(freed, file.size_bytes),
                rest,
            );
        },
    }
}

proof fn lemma_next_source_waits(files: Seq<Option<HashedView>>, rest: Seq<int>, report: MigrateReport)
    ensures
        next_source(files, rest, report) matches MigrateStepView::Next(s, a) ==> answer_shape(a)
            == migration_awaits(s),
    decreases rest.len(),
{
    if rest.len() > 0 {
        lemma_next_source_waits(files, rest.skip(1), crate::migrate::with_error(report));
    }
}

/// A migration waits for what it asks for, from its first request on.
pub proof fn law_migration_waits(
    s: MigrationView,
    e: EventView,
    now: i64,
    files: Seq<Option<HashedView>>,
    rest: Seq<int>,
    report: MigrateReport,
)
    requires
        event_shape(e) == migration_awaits(s),
    ensures
        next_source(files, rest, report) matches MigrateStepView::Next(s2, a2) ==> answer_shape(a2)
            == migration_awaits(s2),
        migration_step(s, e, now) matches MigrateStepView::Next(s2, a2) ==> answer_shape(a2)
            == migration_awaits(s2),
{
    lemma_next_source_waits(files, rest, report);
    lemma_next_source_waits(s.files, s.rest, s.report);
    lemma_next_source_waits(s.files, s.rest, crate::migrate::with_error(s.report));
}

/// A health report waits for what it asks for.
pub proof fn law_report_waits(k: int)
    requires
        0 <= k < 7,
    ensures
        answer_shape(crate::http_api::status_query(k)) == crate::http_api::query_shape(k),
{
}

/// While a call reads, what it has in it is a read.
pub open spec fn call_reads(s: CallView) -> bool {
    match s {
        CallView::Reading { op, .. } => is_read(op),
        CallView::WriteRead { op, .. } => is_read(op),
        _ => true,
    }
}

/// A call waits for what it asks for.
pub proof fn law_call_waits(t: InodesView, s: CallView, e: EventView, now: i64)
    requires
        call_reads(s),
        event_shape(e) == call_awaits(s),
    ensures
        call_step(t, s, e, now) matches CallStepView::Next(s2, a2) ==> call_reads(s2) && answer_shape(a2)
            == call_awaits(s2),
{
    let op = match s {
        CallView::Reading { op, .. } => Some(op),
        CallView::WriteRead { op, .. } => Some(op),
        CallView::WriteBack { op, .. } => Some(op),
        CallView::Creating { op, .. } => Some(op),
        CallView::Unlinking { op, .. } => Some(op),
        CallView::Listing { op, .. } => Some(op),
        CallView::Truncating { op, .. } => Some(op),
        _ => None::<RouterView>,
    };
    if let Some(o) = op {
        crate::reads::law_requests_fit_the_wait(o, e, now);
        if is_read(o) {
            crate::router::lemma_read_step(o, e, now);
        }
    }
}

} // verus!
