//! What the tier masks say: which tiers hold a copy of a file. Every operation keeps that
//! true.

use crate::action::ActionView;
use crate::eviction_task::cycle_step;
use crate::eviction_task::next_victim;
use crate::eviction_task::CycleStepView;
use crate::eviction_task::CycleView;
use crate::eviction_task::TierWatermarks;
use crate::guarantees::run_delete;
use crate::guarantees::run_evict;
use crate::guarantees::run_mkdir;
use crate::guarantees::run_read;
use crate::guarantees::run_write;
use crate::promotion::promotion_step;
use crate::promotion::PromotionStepView;
use crate::promotion::PromotionView;
use crate::recovery::run_cycle;
use crate::recovery::run_flush;
use crate::recovery::run_promote;
use crate::recovery::run_promotion;
use crate::recovery::run_replay;
use crate::recovery::run_whole_replay;
use crate::router::is_read;
use crate::router::router_step;
use crate::router::RouterView;
use crate::router::StepView;
use crate::s3_uploader::flush_step;
use crate::s3_uploader::FlushStepView;
use crate::s3_uploader::FlushView;
use crate::s3_uploader::UploadPhase;
use crate::tier::Tier;
use crate::tier::TierBitmask;
use crate::transfer::transfer_step;
use crate::transfer::SubjectView;
use crate::transfer::TransferStepView;
use crate::transfer::TransferView;
use crate::types::EntryKind;
use crate::types::MetaView;
use crate::types::WalView;
use crate::wal_replay::advance;
use crate::wal_replay::replay_step;
use crate::wal_replay::PhaseView;
use crate::wal_replay::ReplayStepView;
use crate::wal_replay::ReplayView;
use crate::world::carry_out;
use crate::world::healthy;
use crate::world::perform;
use crate::world::run;
use crate::world::Env;
use crate::world::World;
use vstd::prelude::*;

verus! {

/// Every tier in the mask of a file holds a copy of it.
pub open spec fn masks_true(w: World) -> bool {
    forall|p: Seq<char>, t: Tier|
        #[trigger] w.files.contains_key(p) && w.files[p].kind == EntryKind::File
            && #[trigger] w.files[p].tiers.holds(t) ==> w.store(t).contains_key(p)
}

/// The tiers of the mask hold a copy of the path.
spec fn backed(w: World, path: Seq<char>, tiers: TierBitmask) -> bool {
    forall|t: Tier| #[trigger] tiers.holds(t) ==> w.store(t).contains_key(path)
}

/// The request leaves the masks true if they are.
spec fn fair(w: World, a: ActionView) -> bool {
    match a {
        ActionView::Upsert { meta } => meta.kind == EntryKind::Directory || backed(
            w,
            meta.path,
            meta.tiers,
        ),
        ActionView::SetTiers { id, tiers } => forall|p: Seq<char>|
            #[trigger] w.files.contains_key(p) && w.files[p].id == id && w.files[p].kind
                == EntryKind::File ==> backed(w, p, tiers),
        ActionView::Remove { .. } => false,
        ActionView::RemoveAll { .. } => false,
        _ => true,
    }
}

proof fn lemma_fair_request(env: Env, k: nat, w: World, a: ActionView)
    requires
        masks_true(w),
        fair(w, a),
    ensures
        masks_true(perform(env, k, w, a).0),
{
    assert((env.faults)(k) is None || (env.faults)(k) is Some);
    let w2 = perform(env, k, w, a).0;
    assert forall|p: Seq<char>, t: Tier|
        #[trigger] w2.files.contains_key(p) && w2.files[p].kind == EntryKind::File
            && #[trigger] w2.files[p].tiers.holds(t) implies w2.store(t).contains_key(p) by {
        if (env.faults)(k) is None {
            match a {
                ActionView::Put { tier, path, data } => {
                    assert(w.files[p].tiers.holds(t));
                    assert(w.store(t).contains_key(p));
                },
                ActionView::Upsert { meta } => {
                    if p == meta.path {
                        assert(meta.tiers.holds(t));
                    } else {
                        assert(w.files[p].tiers.holds(t));
                    }
                },
                ActionView::SetTiers { id, tiers } => {
                    if w.files[p].id == id {
                        assert(backed(w, p, tiers));
                        assert(tiers.holds(t));
                    } else {
                        assert(w.files[p].tiers.holds(t));
                    }
                },
                _ => {
                    assert(w.files.contains_key(p));
                    assert(w.files[p].tiers.holds(t));
                },
            }
        }
    }
}

// ---------------------------------------------------------------------------
// Operations that take no copy away

/// The request that is open fits the world and the operation.
spec fn adds_only(w: World, s: RouterView, a: ActionView) -> bool {
    &&& crate::action::answer_shape(a) == crate::router::awaited(s)
    &&& fair(w, a)
    &&& match s {
        RouterView::WritePut { path, .. } => a matches ActionView::Put { tier, path: p, .. } && tier
            == Tier::Local && p == path,
        RouterView::DeleteMeta { .. } => false,
        RouterView::DeleteCopies { .. } => false,
        RouterView::DeleteEntry => false,
        RouterView::EvictMeta { .. } => false,
        RouterView::EvictCopy { .. } => false,
        RouterView::EvictMark => false,
        _ => true,
    }
}

proof fn lemma_adding_step(env: Env, k: nat, w: World, s: RouterView, a: ActionView)
    requires
        masks_true(w),
        adds_only(w, s, a),
    ensures
        masks_true(perform(env, k, w, a).0),
        router_step(s, perform(env, k, w, a).1, (env.clock)(k)) matches StepView::Next(s2, a2) ==> adds_only(
            perform(env, k, w, a).0,
            s2,
            a2,
        ),
{
    lemma_fair_request(env, k, w, a);
    assert((env.faults)(k) is None || (env.faults)(k) is Some);
    let w2 = perform(env, k, w, a).0;
    if let RouterView::WritePut { path, .. } = s {
        let tiers = TierBitmask(0).with(Tier::Local);
        crate::tier::law_set(TierBitmask(0), Tier::Local);
        if (env.faults)(k) is None {
            assert forall|t: Tier| #[trigger] tiers.holds(t) implies w2.store(t).contains_key(path) by {
                crate::tier::law_none_and_all(t);
                assert(TierBitmask(0).with(Tier::Local).holds(t) == (t == Tier::Local || TierBitmask(
                    0,
                ).holds(t)));
            }
            assert(backed(w2, path, tiers));
        }
    }
}

proof fn lemma_adding_run(env: Env, k: nat, w: World, s: RouterView, a: ActionView, fuel: nat)
    requires
        masks_true(w),
        adds_only(w, s, a),
    ensures
        run(env, k, w, s, a, fuel) matches Some(end) ==> masks_true(end.world),
    decreases fuel,
{
    if fuel > 0 {
        lemma_adding_step(env, k, w, s, a);
        let (w2, e) = perform(env, k, w, a);
        if let StepView::Next(s2, a2) = router_step(s, e, (env.clock)(k)) {
            lemma_adding_run(env, k + 1, w2, s2, a2, (fuel - 1) as nat);
        }
    }
}

/// A write, the creation of a directory, a read, and asking for an entry or a listing
/// keep the masks true, whatever fails.
pub proof fn law_masks_stay_true(
    env: Env,
    k: nat,
    w: World,
    path: Seq<char>,
    data: Seq<u8>,
    now: i64,
    fuel: nat,
)
    requires
        masks_true(w),
    ensures
        run_write(env, w, path, data, fuel) matches Some(end) ==> masks_true(end.world),
        run_mkdir(env, w, path, now, fuel) matches Some(end) ==> masks_true(end.world),
        run_read(env, k, w, path, fuel) matches Some(end) ==> masks_true(end.world),
        run(env, k, w, RouterView::StatMeta { path }, ActionView::Lookup { path }, fuel) matches Some(end)
            ==> masks_true(end.world),
        run(env, k, w, RouterView::ListMeta, ActionView::ListDir { path }, fuel) matches Some(end)
            ==> masks_true(end.world),
{
    let put = RouterView::WritePut {
        path,
        sha256: crate::digest::content_hash(data),
        size_bytes: data.len() as u64,
    };
    lemma_adding_run(env, 0, w, put, ActionView::Put { tier: Tier::Local, path, data }, fuel);
    let make = ActionView::Upsert { meta: crate::types::fresh_dir(path, now) };
    lemma_adding_run(env, 0, w, RouterView::MkdirUpsert { path }, make, fuel);
    let ask = ActionView::Lookup { path };
    lemma_adding_run(env, k, w, RouterView::ReadMeta { path }, ask, fuel);
    lemma_adding_run(env, k, w, RouterView::StatMeta { path }, ask, fuel);
    lemma_adding_run(env, k, w, RouterView::ListMeta, ActionView::ListDir { path }, fuel);
}

// ---------------------------------------------------------------------------
// Operations that take copies away

/// A delete keeps the masks true if it succeeds, and if no request fails.
pub proof fn law_delete_keeps_masks_true(env: Env, k: nat, w: World, path: Seq<char>, fuel: nat)
    requires
        masks_true(w),
        fuel >= 3,
    ensures
        run_delete(env, k, w, path, fuel) matches Some(end) && (end.result is Ok || healthy(env)
            ==> masks_true(end.world)),
{
    crate::guarantees::law_delete(env, k, w, path, fuel);
    let end = run_delete(env, k, w, path, fuel)->0;
    let w2 = end.world;
    if end.result is Ok {
        assert forall|p: Seq<char>, t: Tier|
            #[trigger] w2.files.contains_key(p) && w2.files[p].kind == EntryKind::File
                && #[trigger] w2.files[p].tiers.holds(t) implies w2.store(t).contains_key(p) by {
            assert(w.files[p].tiers.holds(t));
            assert(w2.store(t) == w.store_without(t, w.files[path].tiers, path));
        }
    }
}

/// An eviction keeps the masks true if it succeeds, and if no request fails.
pub proof fn law_evict_keeps_masks_true(env: Env, k: nat, w: World, path: Seq<char>, tier: Tier, fuel: nat)
    requires
        masks_true(w),
        w.indexed(),
        fuel >= 3,
    ensures
        run_evict(env, k, w, path, tier, fuel) matches Some(end) && (end.result is Ok || healthy(env)
            ==> masks_true(end.world)),
{
    crate::guarantees::law_evict(env, k, w, path, tier, fuel);
    let end = run_evict(env, k, w, path, tier, fuel)->0;
    let w2 = end.world;
    if end.result is Ok {
        crate::tier::law_clear(w.files[path].tiers, tier);
        assert forall|p: Seq<char>, t: Tier|
            #[trigger] w2.files.contains_key(p) && w2.files[p].kind == EntryKind::File
                && #[trigger] w2.files[p].tiers.holds(t) implies w2.store(t).contains_key(p) by {
            assert(w.files[p].tiers.holds(t));
            assert(w.store(t).contains_key(p));
        }
    } else if healthy(env) {
        reveal_with_fuel(run, 4);
        assert((env.faults)(k) is None && (env.faults)(k + 1) is None && (env.faults)(k + 2) is None);
        assert(w2 == w);
    }
}

// ---------------------------------------------------------------------------
// The log and promotion

/// The request adds no entry, takes none away and changes no id.
spec fn keeps_index(a: ActionView) -> bool {
    !(a is Upsert) && !(a is Forget)
}

proof fn lemma_index_kept(env: Env, k: nat, w: World, a: ActionView)
    requires
        w.indexed(),
        keeps_index(a),
    ensures
        perform(env, k, w, a).0.indexed(),
        forall|p: Seq<char>|
            #[trigger] perform(env, k, w, a).0.files.contains_key(p) == w.files.contains_key(p),
        forall|p: Seq<char>|
            #[trigger] w.files.contains_key(p) ==> perform(env, k, w, a).0.files[p].id == w.files[p].id
                && perform(env, k, w, a).0.files[p].kind == w.files[p].kind,
{
    assert((env.faults)(k) is None || (env.faults)(k) is Some);
    let w2 = perform(env, k, w, a).0;
    assert forall|p: Seq<char>| #[trigger] w2.files.contains_key(p) implies w2.files[p].path == p by {
        assert(w.files.contains_key(p));
    }
    assert forall|p: Seq<char>, q: Seq<char>|
        #[trigger] w2.files.contains_key(p) && #[trigger] w2.files.contains_key(q) && w2.files[p].id
            == w2.files[q].id implies p == q by {
        assert(w.files.contains_key(p) && w.files.contains_key(q));
    }
}

/// What a transfer knows of a file still holds: the id is the path's, and the tiers of
/// the mask hold a copy.
spec fn fits(w: World, f: SubjectView) -> bool {
    forall|p: Seq<char>|
        #[trigger] w.files.contains_key(p) && w.files[p].id == f.id ==> p == f.path && (w.files[p].kind
            == EntryKind::File ==> backed(w, p, f.tiers))
}

/// The entry of a path fits.
proof fn lemma_entry_fits(w: World, p: Seq<char>)
    requires
        masks_true(w),
        w.indexed(),
        w.files.contains_key(p),
    ensures
        fits(w, crate::transfer::subject(w.files[p])),
{
    let f = crate::transfer::subject(w.files[p]);
    assert forall|q: Seq<char>| #[trigger] w.files.contains_key(q) && w.files[q].id == f.id implies q == f.path && (
    w.files[q].kind == EntryKind::File ==> backed(w, q, f.tiers)) by {
        assert(q == p);
    }
}

/// Requests that take no copy away leave it so.
proof fn lemma_fits_kept(env: Env, k: nat, w: World, a: ActionView, f: SubjectView)
    requires
        w.indexed(),
        keeps_index(a),
        !(a is Remove),
        !(a is RemoveAll),
        fits(w, f),
    ensures
        fits(perform(env, k, w, a).0, f),
{
    lemma_index_kept(env, k, w, a);
    assert((env.faults)(k) is None || (env.faults)(k) is Some);
    let w2 = perform(env, k, w, a).0;
    assert forall|p: Seq<char>| #[trigger] w2.files.contains_key(p) && w2.files[p].id == f.id implies p == f.path
        && (w2.files[p].kind == EntryKind::File ==> backed(w2, p, f.tiers)) by {
        assert(w.files.contains_key(p));
        if w2.files[p].kind == EntryKind::File {
            assert forall|t: Tier| #[trigger] f.tiers.holds(t) implies w2.store(t).contains_key(p) by {
                assert(w.store(t).contains_key(p));
            }
        }
    }
}

/// With a copy on one more tier, that tier can be added to the mask.
proof fn lemma_mark_is_fair(w: World, f: SubjectView, tier: Tier)
    requires
        fits(w, f),
        w.store(tier).contains_key(f.path),
    ensures
        fair(w, ActionView::SetTiers { id: f.id, tiers: f.tiers.with(tier) }),
{
    crate::tier::law_set(f.tiers, tier);
    assert forall|p: Seq<char>|
        #[trigger] w.files.contains_key(p) && w.files[p].id == f.id && w.files[p].kind
            == EntryKind::File implies backed(w, p, f.tiers.with(tier)) by {
        assert forall|t: Tier| #[trigger] f.tiers.with(tier).holds(t) implies w.store(t).contains_key(p) by {
            if t != tier {
                assert(f.tiers.holds(t));
            }
        }
    }
}

/// The request that is open fits the world and the read.
spec fn reads(w: World, s: RouterView, a: ActionView) -> bool {
    &&& is_read(s)
    &&& adds_only(w, s, a)
    &&& keeps_index(a)
}

proof fn lemma_read_request(env: Env, k: nat, w: World, s: RouterView, a: ActionView)
    requires
        masks_true(w),
        reads(w, s, a),
    ensures
        router_step(s, perform(env, k, w, a).1, (env.clock)(k)) matches StepView::Next(s2, a2) ==> reads(
            perform(env, k, w, a).0,
            s2,
            a2,
        ),
        router_step(s, perform(env, k, w, a).1, (env.clock)(k)) matches StepView::Done(Ok(x)) ==> x is Data,
{
    lemma_adding_step(env, k, w, s, a);
    assert((env.faults)(k) is None || (env.faults)(k) is Some);
    crate::router::lemma_read_step(s, perform(env, k, w, a).1, (env.clock)(k));
}

/// The request that is open fits the world and the transfer.
spec fn transfers(w: World, t: TransferView, a: ActionView) -> bool {
    match t {
        TransferView::FromLocal(f) => fits(w, f) && a is Get,
        TransferView::ToNas(f) => fits(w, f) && (a matches ActionView::Put { tier, path, .. } && tier
            == Tier::Nas && path == f.path),
        TransferView::Reading(f, s) => fits(w, f) && reads(w, s, a),
        TransferView::ToS3(f) => fits(w, f) && (a matches ActionView::Put { tier, path, .. } && tier
            == Tier::S3 && path == f.path),
        TransferView::Marking => a is SetTiers && fair(w, a),
    }
}

proof fn lemma_transfer_request(env: Env, k: nat, w: World, t: TransferView, a: ActionView)
    requires
        masks_true(w),
        w.indexed(),
        transfers(w, t, a),
    ensures
        masks_true(perform(env, k, w, a).0),
        perform(env, k, w, a).0.indexed(),
        transfer_step(t, perform(env, k, w, a).1, (env.clock)(k)) matches TransferStepView::Next(t2, a2)
            ==> transfers(perform(env, k, w, a).0, t2, a2),
{
    lemma_fair_request(env, k, w, a);
    lemma_index_kept(env, k, w, a);
    assert((env.faults)(k) is None || (env.faults)(k) is Some);
    let w2 = perform(env, k, w, a).0;
    match t {
        TransferView::FromLocal(f) => {
            lemma_fits_kept(env, k, w, a, f);
        },
        TransferView::ToNas(f) => {
            lemma_fits_kept(env, k, w, a, f);
            if (env.faults)(k) is None {
                lemma_mark_is_fair(w2, f, Tier::Nas);
            }
        },
        TransferView::Reading(f, s) => {
            lemma_fits_kept(env, k, w, a, f);
            lemma_read_request(env, k, w, s, a);
        },
        TransferView::ToS3(f) => {
            lemma_fits_kept(env, k, w, a, f);
            if (env.faults)(k) is None {
                lemma_mark_is_fair(w2, f, Tier::S3);
            }
        },
        TransferView::Marking => {},
    }
}

/// The entry that a look-up by id gives fits, and so does the transfer that starts from
/// it.
proof fn lemma_transfer_starts(w: World, id: i64, op: crate::types::WalOp)
    requires
        masks_true(w),
        w.indexed(),
        w.has_id(id),
    ensures
        transfers(
            w,
            crate::transfer::transfer_start(op, w.by_id(id)->0),
            crate::transfer::transfer_request(op, w.by_id(id)->0),
        ),
{
    let p = w.path_of(id);
    assert(w.files.contains_key(p));
    lemma_entry_fits(w, p);
}

/// The request that is open fits the world and the replay.
spec fn replays(w: World, s: ReplayView, a: ActionView) -> bool {
    match s {
        ReplayView::Loading => a is WalPending,
        ReplayView::Working { phase, .. } => match phase {
            PhaseView::Finding => a is LookupId,
            PhaseView::Moving(t) => transfers(w, t, a),
            PhaseView::Completing => a is WalComplete,
            PhaseView::Recording => a is WalRecordFailure,
            PhaseView::Pausing => a is Sleep,
        },
    }
}

proof fn lemma_advance_replays(w: World, rest: Seq<WalView>)
    ensures
        advance(rest) matches ReplayStepView::Next(s, a) ==> replays(w, s, a),
    decreases rest.len(),
{
    if rest.len() > 0 {
        lemma_advance_replays(w, rest.skip(1));
    }
}

proof fn lemma_replay_request(env: Env, k: nat, w: World, s: ReplayView, a: ActionView)
    requires
        masks_true(w),
        w.indexed(),
        replays(w, s, a),
    ensures
        masks_true(perform(env, k, w, a).0),
        perform(env, k, w, a).0.indexed(),
        replay_step(s, perform(env, k, w, a).1, (env.clock)(k)) matches ReplayStepView::Next(s2, a2)
            ==> replays(perform(env, k, w, a).0, s2, a2),
{
    assert((env.faults)(k) is None || (env.faults)(k) is Some);
    let (w2, e) = perform(env, k, w, a);
    match s {
        ReplayView::Loading => {
            lemma_fair_request(env, k, w, a);
            lemma_advance_replays(w2, w.wal);
        },
        ReplayView::Working { rest, entry, attempt, delay, phase } => {
            lemma_advance_replays(w2, rest);
            match phase {
                PhaseView::Moving(t) => {
                    lemma_transfer_request(env, k, w, t, a);
                },
                PhaseView::Finding => {
                    lemma_fair_request(env, k, w, a);
                    lemma_index_kept(env, k, w, a);
                    if let ActionView::LookupId { id } = a {
                        if (env.faults)(k) is None && w.has_id(id) {
                            lemma_transfer_starts(w, id, entry.op);
                        }
                    }
                },
                _ => {
                    lemma_fair_request(env, k, w, a);
                    lemma_index_kept(env, k, w, a);
                },
            }
        },
    }
}

proof fn lemma_replay_run(env: Env, k: nat, w: World, s: ReplayView, a: ActionView, fuel: nat)
    requires
        masks_true(w),
        w.indexed(),
        replays(w, s, a),
    ensures
        run_replay(env, k, w, s, a, fuel) matches Some(w2) ==> masks_true(w2),
    decreases fuel,
{
    if fuel > 0 {
        lemma_replay_request(env, k, w, s, a);
        let (w2, e) = perform(env, k, w, a);
        if let ReplayStepView::Next(s2, a2) = replay_step(s, e, (env.clock)(k)) {
            lemma_replay_run(env, k + 1, w2, s2, a2, (fuel - 1) as nat);
        }
    }
}

/// A replay of the log keeps the masks true, whatever fails.
pub proof fn law_replay_keeps_masks_true(env: Env, k: nat, w: World, fuel: nat)
    requires
        masks_true(w),
        w.indexed(),
    ensures
        run_whole_replay(env, k, w, fuel) matches Some(w2) ==> masks_true(w2),
{
    lemma_replay_run(env, k, w, ReplayView::Loading, ActionView::WalPending, fuel);
}

/// The request that is open fits the world and the flush.
spec fn flushes(w: World, s: FlushView, a: ActionView) -> bool {
    match s {
        FlushView::Loading => a is WalPending,
        FlushView::Working { phase, .. } => match phase {
            UploadPhase::Finding => a is LookupId,
            UploadPhase::Moving(t) => transfers(w, t, a),
            UploadPhase::Settling => a is WalComplete || a is WalRecordFailure,
        },
    }
}

proof fn lemma_flush_request(env: Env, k: nat, w: World, s: FlushView, a: ActionView)
    requires
        masks_true(w),
        w.indexed(),
        flushes(w, s, a),
    ensures
        masks_true(perform(env, k, w, a).0),
        perform(env, k, w, a).0.indexed(),
        flush_step(s, perform(env, k, w, a).1, (env.clock)(k)) matches FlushStepView::Next(s2, a2)
            ==> flushes(perform(env, k, w, a).0, s2, a2),
{
    assert((env.faults)(k) is None || (env.faults)(k) is Some);
    match s {
        FlushView::Working { phase: UploadPhase::Moving(t), .. } => {
            lemma_transfer_request(env, k, w, t, a);
        },
        _ => {
            lemma_fair_request(env, k, w, a);
            lemma_index_kept(env, k, w, a);
            if let ActionView::LookupId { id } = a {
                if (env.faults)(k) is None && w.has_id(id) {
                    lemma_transfer_starts(w, id, crate::types::WalOp::UploadS3);
                }
            }
        },
    }
}

proof fn lemma_flush_run(env: Env, k: nat, w: World, s: FlushView, a: ActionView, fuel: nat)
    requires
        masks_true(w),
        w.indexed(),
        flushes(w, s, a),
    ensures
        run_flush(env, k, w, s, a, fuel) matches Some(w2) ==> masks_true(w2),
    decreases fuel,
{
    if fuel > 0 {
        lemma_flush_request(env, k, w, s, a);
        let (w2, e) = perform(env, k, w, a);
        if let FlushStepView::Next(s2, a2) = flush_step(s, e, (env.clock)(k)) {
            lemma_flush_run(env, k + 1, w2, s2, a2, (fuel - 1) as nat);
        }
    }
}

/// A flush to the object store keeps the masks true, whatever fails.
pub proof fn law_flush_keeps_masks_true(env: Env, k: nat, w: World, fuel: nat)
    requires
        masks_true(w),
        w.indexed(),
    ensures
        run_flush(env, k, w, FlushView::Loading, ActionView::WalPending, fuel) matches Some(w2)
            ==> masks_true(w2),
{
    lemma_flush_run(env, k, w, FlushView::Loading, ActionView::WalPending, fuel);
}

/// The request that is open fits the world and the promotion.
spec fn promotes(w: World, s: PromotionView, a: ActionView) -> bool {
    match s {
        PromotionView::Reading { op, .. } => reads(w, op, a),
        PromotionView::Storing { path } => a matches ActionView::Put { tier, path: p, .. } && tier
            == Tier::Local && p == path,
        PromotionView::Finding => a matches ActionView::Lookup { path } && w.local.contains_key(path),
        PromotionView::Marking => a is SetTiers && fair(w, a),
    }
}

proof fn lemma_promotion_request(env: Env, k: nat, w: World, s: PromotionView, a: ActionView)
    requires
        masks_true(w),
        w.indexed(),
        promotes(w, s, a),
    ensures
        masks_true(perform(env, k, w, a).0),
        perform(env, k, w, a).0.indexed(),
        promotion_step(s, perform(env, k, w, a).1, (env.clock)(k)) matches PromotionStepView::Next(s2, a2)
            ==> promotes(perform(env, k, w, a).0, s2, a2),
{
    assert((env.faults)(k) is None || (env.faults)(k) is Some);
    lemma_fair_request(env, k, w, a);
    lemma_index_kept(env, k, w, a);
    match s {
        PromotionView::Reading { op, .. } => {
            lemma_read_request(env, k, w, op, a);
        },
        PromotionView::Finding => {
            if let ActionView::Lookup { path } = a {
                if (env.faults)(k) is None && w.files.contains_key(path) {
                    lemma_entry_fits(w, path);
                    lemma_mark_is_fair(w, crate::transfer::subject(w.files[path]), Tier::Local);
                }
            }
        },
        _ => {},
    }
}

proof fn lemma_promotion_run(env: Env, k: nat, w: World, s: PromotionView, a: ActionView, fuel: nat)
    requires
        masks_true(w),
        w.indexed(),
        promotes(w, s, a),
    ensures
        run_promotion(env, k, w, s, a, fuel) matches Some(w2) ==> masks_true(w2),
    decreases fuel,
{
    if fuel > 0 {
        lemma_promotion_request(env, k, w, s, a);
        let (w2, e) = perform(env, k, w, a);
        if let PromotionStepView::Next(s2, a2) = promotion_step(s, e, (env.clock)(k)) {
            lemma_promotion_run(env, k + 1, w2, s2, a2, (fuel - 1) as nat);
        }
    }
}

/// A promotion keeps the masks true, whatever fails.
pub proof fn law_promotion_keeps_masks_true(env: Env, k: nat, w: World, path: Seq<char>, fuel: nat)
    requires
        masks_true(w),
        w.indexed(),
    ensures
        run_promote(env, k, w, path, fuel) matches Some(w2) ==> masks_true(w2),
{
    lemma_promotion_run(
        env,
        k,
        w,
        PromotionView::Reading { path, op: RouterView::ReadMeta { path } },
        ActionView::Lookup { path },
        fuel,
    );
}

// ---------------------------------------------------------------------------
// The eviction cycle

/// The request that is open fits the world and the cycle.
spec fn cycles(w: World, s: CycleView, a: ActionView) -> bool {
    match s {
        CycleView::Measuring { .. } => masks_true(w) && a is BytesOnTier,
        CycleView::Loading { .. } => masks_true(w) && a is FilesOnTier,
        CycleView::Evicting { op, .. } => match op {
            RouterView::EvictMeta { path, .. } => masks_true(w) && a == (ActionView::Lookup { path }),
            RouterView::EvictCopy { tier, id, tiers } => masks_true(w) && (a matches ActionView::Remove {
                tier: t,
                path,
            } && t == tier && w.files.contains_key(path) && w.files[path].id == id && w.files[path].tiers
                == tiers),
            RouterView::EvictMark => a is SetTiers && masks_true(carry_out(w, a, 0).0),
            _ => false,
        },
    }
}

proof fn lemma_next_victim_cycles(w: World, tier: Tier, target: u64, freed: u64, rest: Seq<MetaView>)
    requires
        masks_true(w),
    ensures
        next_victim(tier, target, freed, rest) matches CycleStepView::Next(s, a) ==> cycles(w, s, a),
    decreases rest.len(),
{
    if freed < target && rest.len() > 0 && !rest[0].tiers.can_lose(tier) {
        lemma_next_victim_cycles(w, tier, target, freed, rest.skip(1));
    }
}

/// Once a copy is gone, the mask without its tier is true again.
pub proof fn lemma_unmark(w: World, path: Seq<char>, tier: Tier)
    requires
        masks_true(w),
        w.indexed(),
        w.files.contains_key(path),
        w.store(tier).contains_key(path),
    ensures
        masks_true(
            carry_out(
                w.with_store(tier, w.store(tier).remove(path)),
                ActionView::SetTiers {
                    id: w.files[path].id,
                    tiers: w.files[path].tiers.without(tier),
                },
                0,
            ).0,
        ),
{
    let w1 = w.with_store(tier, w.store(tier).remove(path));
    let a = ActionView::SetTiers {
        id: w.files[path].id,
        tiers: w.files[path].tiers.without(tier),
    };
    let w2 = carry_out(w1, a, 0).0;
    crate::tier::law_clear(w.files[path].tiers, tier);
    assert forall|p: Seq<char>, t: Tier|
        #[trigger] w2.files.contains_key(p) && w2.files[p].kind == EntryKind::File
            && #[trigger] w2.files[p].tiers.holds(t) implies w2.store(t).contains_key(p) by {
        assert(w.files.contains_key(p));
        assert(w.files[p].tiers.holds(t));
        assert(w.store(t).contains_key(p));
    }
}

proof fn lemma_cycle_step(env: Env, k: nat, w: World, s: CycleView, a: ActionView)
    requires
        healthy(env),
        w.indexed(),
        cycles(w, s, a),
    ensures
        perform(env, k, w, a).0.indexed(),
        match cycle_step(s, perform(env, k, w, a).1, (env.clock)(k)) {
            CycleStepView::Next(s2, a2) => cycles(perform(env, k, w, a).0, s2, a2),
            CycleStepView::Done(_) => masks_true(perform(env, k, w, a).0),
        },
{
    assert((env.faults)(k) is None);
    lemma_index_kept(env, k, w, a);
    let (w2, e) = perform(env, k, w, a);
    match s {
        CycleView::Measuring { .. } => {},
        CycleView::Loading { tier, target } => {
            if let crate::action::EventView::Ranked(Ok(files)) = e {
                lemma_next_victim_cycles(w2, tier, target, 0, crate::eviction::ranked(files));
            }
        },
        CycleView::Evicting { tier, target, freed, rest, file, op } => {
            if masks_true(w2) {
                lemma_next_victim_cycles(w2, tier, target, freed, rest);
                lemma_next_victim_cycles(
                    w2,
                    tier,
                    target,
                    crate::s3_uploader::sum_capped(freed, file.size_bytes),
                    rest,
                );
            }
            if let ActionView::Remove { tier: t, path } = a {
                if w.store(t).contains_key(path) {
                    lemma_unmark(w, path, t);
                }
            }
        },
    }
}

proof fn lemma_cycle_run(env: Env, k: nat, w: World, s: CycleView, a: ActionView, fuel: nat)
    requires
        healthy(env),
        w.indexed(),
        cycles(w, s, a),
    ensures
        run_cycle(env, k, w, s, a, fuel) matches Some(w2) ==> masks_true(w2),
    decreases fuel,
{
    if fuel > 0 {
        lemma_cycle_step(env, k, w, s, a);
        let (w2, e) = perform(env, k, w, a);
        if let CycleStepView::Next(s2, a2) = cycle_step(s, e, (env.clock)(k)) {
            lemma_cycle_run(env, k + 1, w2, s2, a2, (fuel - 1) as nat);
        }
    }
}

/// An eviction cycle in which no request fails keeps the masks true.
pub proof fn law_cycle_keeps_masks_true(env: Env, k: nat, w: World, tier: Tier, wm: TierWatermarks, fuel: nat)
    requires
        healthy(env),
        masks_true(w),
        w.indexed(),
    ensures
        run_cycle(env, k, w, CycleView::Measuring { tier, wm }, ActionView::BytesOnTier { tier }, fuel) matches Some(
            w2,
        ) ==> masks_true(w2),
{
    lemma_cycle_run(
        env,
        k,
        w,
        CycleView::Measuring { tier, wm },
        ActionView::BytesOnTier { tier },
        fuel,
    );
}

} // verus!
