//! What the background tasks guarantee, as laws about how they run.

use crate::action::ActionView;
use crate::action::EventView;
use crate::error::ErrorView;
use crate::eviction_task::cycle_step;
use crate::eviction_task::next_victim;
use crate::eviction_task::CycleStepView;
use crate::eviction_task::CycleView;
use crate::guarantees::replicas;
use crate::guarantees::run_read;
use crate::guarantees::run_write;
use crate::guarantees::s3_kept;
use crate::migrate::migration_step;
use crate::migrate::next_source;
use crate::migrate::with_upload;
use crate::migrate::HashedView;
use crate::migrate::MigrateReport;
use crate::migrate::MigrateStepView;
use crate::migrate::MigrationView;
use crate::migrate::Stage;
use crate::promotion::promotion_step;
use crate::promotion::PromotionStepView;
use crate::promotion::PromotionView;
use crate::router::ReplyView;
use crate::router::RouterView;
use crate::s3_uploader::flush_step;
use crate::s3_uploader::next_upload;
use crate::s3_uploader::uploads;
use crate::s3_uploader::FlushStepView;
use crate::s3_uploader::FlushView;
use crate::s3_uploader::UploadPhase;
use crate::tier::Tier;
use crate::tier::TierBitmask;
use crate::types::EntryKind;
use crate::types::MetaView;
use crate::types::WalOp;
use crate::types::WalView;
use crate::wal_replay::advance;
use crate::wal_replay::replay_step;
use crate::transfer::SubjectView;
use crate::transfer::TransferStepView;
use crate::transfer::TransferView;
use crate::wal_replay::try_entry;
use crate::wal_replay::PhaseView;
use crate::wal_replay::ReplayStepView;
use crate::wal_replay::ReplayView;
use crate::world::healthy;
use crate::world::perform;
use crate::world::Env;
use crate::world::World;
use vstd::prelude::*;

verus! {

// ---------------------------------------------------------------------------
// Replay of the log

/// The world when a replay that has come to `s`, and makes the request `a` as the
/// `k`-th, is over, if it is within `fuel` requests.
pub open spec fn run_replay(env: Env, k: nat, w: World, s: ReplayView, a: ActionView, fuel: nat) -> Option<World>
    decreases fuel,
{
    if fuel == 0 {
        None
    } else {
        let (w2, e) = perform(env, k, w, a);
        match replay_step(s, e, (env.clock)(k)) {
            ReplayStepView::Done => Some(w2),
            ReplayStepView::Next(s2, a2) => run_replay(env, k + 1, w2, s2, a2, (fuel - 1) as nat),
        }
    }
}

/// The same from one of the steps of a replay on.
pub open spec fn run_replay_step(env: Env, k: nat, w: World, step: ReplayStepView, fuel: nat) -> Option<World> {
    match step {
        ReplayStepView::Done => Some(w),
        ReplayStepView::Next(s, a) => run_replay(env, k, w, s, a, fuel),
    }
}

/// The tier that an operation of the log brings a file to.
pub open spec fn target(op: WalOp) -> Tier {
    match op {
        WalOp::ReplicateNas => Tier::Nas,
        WalOp::UploadS3 => Tier::S3,
    }
}

/// The log entry is about the file at the path, which the local disk holds.
pub open spec fn about(w: World, e: WalView, p: Seq<char>) -> bool {
    &&& w.files.contains_key(p)
    &&& w.files[p].id == e.file_id
    &&& w.files[p].kind == EntryKind::File
    &&& w.files[p].tiers.holds(Tier::Local)
    &&& w.local.contains_key(p)
}

/// The log entry is about a file that the local disk holds.
pub open spec fn has_subject(w: World, e: WalView) -> bool {
    exists|p: Seq<char>| about(w, e, p)
}

/// The log entry is about a file that the local disk holds, or about none.
pub open spec fn replayable(w: World, e: WalView) -> bool {
    !w.has_id(e.file_id) || exists|p: Seq<char>| about(w, e, p)
}

/// A tier other than the local disk has what the local disk has.
pub open spec fn copied(w: World, t: Tier, p: Seq<char>) -> bool {
    w.store(t).contains_key(p) && w.store(t)[p] == w.local[p]
}

/// What the log entry asks for is done: the tier has what the local disk has, and is
/// in the mask of the file.
pub open spec fn settled(w: World, e: WalView) -> bool {
    forall|p: Seq<char>|
        #[trigger] about(w, e, p) ==> copied(w, target(e.op), p) && w.files[p].tiers.holds(
            target(e.op),
        )
}

/// From `w` to `w2` copies were only added: the local disk holds what it held, the
/// entries are those there were, with no tier less in their masks, and no copy of what
/// the local disk holds is gone.
pub open spec fn copies_added(w: World, w2: World) -> bool {
    &&& w2.local == w.local
    &&& forall|p: Seq<char>| #[trigger] w2.files.contains_key(p) == w.files.contains_key(p)
    &&& forall|p: Seq<char>|
        #[trigger] w.files.contains_key(p) ==> w2.files[p].id == w.files[p].id && w2.files[p].path
            == w.files[p].path && w2.files[p].kind == w.files[p].kind && w2.files[p].sha256
            == w.files[p].sha256 && w2.files[p].size_bytes == w.files[p].size_bytes
            && w2.files[p].created_at == w.files[p].created_at && w2.files[p].modified_at
            == w.files[p].modified_at
    &&& forall|p: Seq<char>, t: Tier|
        w.files.contains_key(p) && #[trigger] w.files[p].tiers.holds(t)
            ==> #[trigger] w2.files[p].tiers.holds(t)
    &&& forall|t: Tier, p: Seq<char>| #[trigger] copied(w, t, p) ==> copied(w2, t, p)
}

/// With copies added, an entry is about the same file as before.
proof fn lemma_about_stays(w: World, w2: World, e: WalView)
    requires
        copies_added(w, w2),
    ensures
        forall|p: Seq<char>| about(w, e, p) ==> #[trigger] about(w2, e, p),
        w2.has_id(e.file_id) == w.has_id(e.file_id),
        replayable(w, e) ==> replayable(w2, e),
{
    assert forall|p: Seq<char>| about(w, e, p) implies #[trigger] about(w2, e, p) by {
        assert(w.files[p].tiers.holds(Tier::Local));
    }
    if w2.has_id(e.file_id) {
        let p = choose|p: Seq<char>|
            #[trigger] w2.files.contains_key(p) && w2.files[p].id == e.file_id;
        assert(w.files.contains_key(p));
    }
    if w.has_id(e.file_id) {
        let p = choose|p: Seq<char>|
            #[trigger] w.files.contains_key(p) && w.files[p].id == e.file_id;
        assert(w2.files.contains_key(p));
        if replayable(w, e) {
            let q = choose|q: Seq<char>| about(w, e, q);
            assert(about(w2, e, q));
        }
    }
}

/// With copies added, what was settled is.
proof fn lemma_settled_stays(w: World, w2: World, e: WalView)
    requires
        copies_added(w, w2),
        w.indexed(),
        settled(w, e),
        replayable(w, e),
    ensures
        settled(w2, e),
{
    assert forall|p: Seq<char>| #[trigger] about(w2, e, p) implies copied(w2, target(e.op), p)
        && w2.files[p].tiers.holds(target(e.op)) by {
        assert(w.files.contains_key(p));
        assert(w.has_id(e.file_id));
        let q = choose|q: Seq<char>| about(w, e, q);
        assert(q == p);
        assert(copied(w, target(e.op), p));
        assert(w.files[p].tiers.holds(target(e.op)));
    }
}

proof fn lemma_copies_added_chain(a: World, b: World, c: World)
    requires
        copies_added(a, b),
        copies_added(b, c),
    ensures
        copies_added(a, c),
{
    assert forall|p: Seq<char>| #[trigger] a.files.contains_key(p) implies c.files[p].id == a.files[p].id
        && c.files[p].path == a.files[p].path && c.files[p].kind == a.files[p].kind && c.files[p].sha256
        == a.files[p].sha256 && c.files[p].size_bytes == a.files[p].size_bytes && c.files[p].created_at
        == a.files[p].created_at && c.files[p].modified_at == a.files[p].modified_at by {
        assert(b.files.contains_key(p));
    }
    assert forall|p: Seq<char>, t: Tier|
        a.files.contains_key(p) && #[trigger] a.files[p].tiers.holds(t) implies #[trigger] c.files[p].tiers.holds(
        t,
    ) by {
        assert(b.files.contains_key(p));
        assert(b.files[p].tiers.holds(t));
    }
    assert forall|t: Tier, p: Seq<char>| #[trigger] copied(a, t, p) implies copied(c, t, p) by {
        assert(copied(b, t, p));
    }
}

/// The world once the entry's file has been copied and the entry taken off the log.
spec fn after_entry(env: Env, k: nat, w: World, e: WalView, p: Seq<char>) -> World {
    let m = w.files[p];
    let w1 = match e.op {
        WalOp::ReplicateNas => w,
        WalOp::UploadS3 => perform(env, k + 3, w, ActionView::RecordAccess { id: m.id }).0,
    };
    let t = target(e.op);
    let w2 = w1.with_store(t, w1.store(t).insert(p, w.local[p]));
    let tiers = m.tiers.with(t);
    let w3 = crate::world::with_entry(w2, m.id, |x: MetaView| MetaView { tiers, ..x });
    World { wal: crate::world::without_wal(w.wal, e.id), ..w3 }
}

/// How many requests it takes to carry out an operation and take its entry off the log.
pub open spec fn requests_for(op: WalOp) -> nat {
    match op {
        WalOp::ReplicateNas => 5,
        WalOp::UploadS3 => 7,
    }
}

proof fn lemma_by_id(w: World, p: Seq<char>)
    requires
        w.indexed(),
        w.files.contains_key(p),
    ensures
        w.has_id(w.files[p].id),
        w.by_id(w.files[p].id) == Some(w.files[p]),
{
    let id = w.files[p].id;
    assert(w.has_id(id));
    let q = w.path_of(id);
    assert(w.files.contains_key(q) && w.files[q].id == id);
    assert(q == p);
}

proof fn lemma_replay_nas(env: Env, k: nat, w: World, rest: Seq<WalView>, e: WalView, p: Seq<char>, fuel: nat)
    requires
        healthy(env),
        w.indexed(),
        about(w, e, p),
        e.op == WalOp::ReplicateNas,
        fuel >= 5,
    ensures
        run_replay_step(env, k, w, try_entry(rest, e, e.attempts, 500), fuel) == run_replay_step(
            env,
            k + 5,
            after_entry(env, k, w, e, p),
            advance(rest),
            (fuel - 5) as nat,
        ),
{
    lemma_by_id(w, p);
    reveal_with_fuel(run_replay, 6);
    assert((env.faults)(k) is None);
    assert((env.faults)(k + 1) is None);
    assert((env.faults)(k + 2) is None);
    assert((env.faults)(k + 3) is None);
    assert((env.faults)(k + 4) is None);
}

proof fn lemma_replay_s3(env: Env, k: nat, w: World, rest: Seq<WalView>, e: WalView, p: Seq<char>, fuel: nat)
    requires
        healthy(env),
        w.indexed(),
        about(w, e, p),
        e.op == WalOp::UploadS3,
        fuel >= 7,
    ensures
        run_replay_step(env, k, w, try_entry(rest, e, e.attempts, 500), fuel) == run_replay_step(
            env,
            k + 7,
            after_entry(env, k, w, e, p),
            advance(rest),
            (fuel - 7) as nat,
        ),
{
    lemma_by_id(w, p);
    let m = w.files[p];
    let f = crate::transfer::subject(m);
    let data = w.local[p];
    let reading = |op: RouterView| uploading(rest, e, TransferView::Reading(f, op));
    let w1 = perform(env, k + 3, w, ActionView::RecordAccess { id: m.id }).0;
    let w2 = World { s3: w1.s3.insert(p, data), ..w1 };
    let w3 = crate::world::with_entry(
        w2,
        m.id,
        |x: MetaView| MetaView { tiers: m.tiers.with(Tier::S3), ..x },
    );
    let a1 = ActionView::Lookup { path: p };
    let a2 = ActionView::Get { tier: Tier::Local, path: p };
    let a3 = ActionView::RecordAccess { id: m.id };
    let a4 = ActionView::Put { tier: Tier::S3, path: p, data };
    let a5 = ActionView::SetTiers { id: m.id, tiers: m.tiers.with(Tier::S3) };
    let a6 = ActionView::WalComplete { id: e.id };
    let s1 = reading(RouterView::ReadMeta { path: p });
    let s2 = reading(RouterView::ReadLocal { path: p, id: m.id, tiers: m.tiers });
    let s3 = reading(RouterView::ReadRecord { data });
    let s4 = uploading(rest, e, TransferView::ToS3(f));
    let s5 = uploading(rest, e, TransferView::Marking);
    let s6 = ReplayView::Working {
        rest,
        entry: e,
        attempt: e.attempts,
        delay: 500,
        phase: PhaseView::Completing,
    };
    assert(run_replay_step(env, k, w, try_entry(rest, e, e.attempts, 500), fuel) == run_replay(
        env,
        k + 1,
        w,
        s1,
        a1,
        (fuel - 1) as nat,
    )) by {
        assert((env.faults)(k) is None);
    }
    assert(run_replay(env, k + 1, w, s1, a1, (fuel - 1) as nat) == run_replay(
        env,
        k + 2,
        w,
        s2,
        a2,
        (fuel - 2) as nat,
    )) by {
        assert((env.faults)(k + 1) is None);
    }
    assert(run_replay(env, k + 2, w, s2, a2, (fuel - 2) as nat) == run_replay(
        env,
        k + 3,
        w,
        s3,
        a3,
        (fuel - 3) as nat,
    )) by {
        assert((env.faults)(k + 2) is None);
    }
    assert(run_replay(env, k + 3, w, s3, a3, (fuel - 3) as nat) == run_replay(
        env,
        k + 4,
        w1,
        s4,
        a4,
        (fuel - 4) as nat,
    )) by {
        assert((env.faults)(k + 3) is None);
    }
    assert(run_replay(env, k + 4, w1, s4, a4, (fuel - 4) as nat) == run_replay(
        env,
        k + 5,
        w2,
        s5,
        a5,
        (fuel - 5) as nat,
    )) by {
        assert((env.faults)(k + 4) is None);
    }
    assert(run_replay(env, k + 5, w2, s5, a5, (fuel - 5) as nat) == run_replay(
        env,
        k + 6,
        w3,
        s6,
        a6,
        (fuel - 6) as nat,
    )) by {
        assert((env.faults)(k + 5) is None);
    }
    assert((env.faults)(k + 6) is None);
    assert((env.faults)(k + 3) is None);
    assert(w3.wal == w.wal);
}

/// The state of a replay that uploads a file at the first attempt.
spec fn uploading(rest: Seq<WalView>, e: WalView, t: TransferView) -> ReplayView {
    ReplayView::Working {
        rest,
        entry: e,
        attempt: e.attempts,
        delay: 500,
        phase: PhaseView::Moving(t),
    }
}

proof fn lemma_after_entry(env: Env, k: nat, w: World, e: WalView, p: Seq<char>)
    requires
        healthy(env),
        w.indexed(),
        about(w, e, p),
    ensures
        ({
            let w2 = after_entry(env, k, w, e, p);
            &&& w2.indexed()
            &&& copies_added(w, w2)
            &&& settled(w2, e)
            &&& w2.wal == crate::world::without_wal(w.wal, e.id)
        }),
{
    let w2 = after_entry(env, k, w, e, p);
    let t = target(e.op);
    let m = w.files[p];
    assert((env.faults)(k + 3) is None);
    crate::tier::law_set(m.tiers, t);
    assert forall|q: Seq<char>| #[trigger] w.files.contains_key(q) implies w2.files[q].id == w.files[q].id
        && w2.files[q].path == w.files[q].path && w2.files[q].kind == w.files[q].kind && w2.files[q].sha256
        == w.files[q].sha256 && w2.files[q].size_bytes == w.files[q].size_bytes && (q != p
        ==> w2.files[q].tiers == w.files[q].tiers) by {
        if w.files[q].id == m.id {
            assert(q == p);
        }
    }
    assert(w2.files[p].tiers == m.tiers.with(t));
    assert forall|q: Seq<char>, u: Tier|
        w.files.contains_key(q) && #[trigger] w.files[q].tiers.holds(u) implies #[trigger] w2.files[q].tiers.holds(
        u,
    ) by {
        if q == p {
            assert(m.tiers.with(t).holds(u));
        }
    }
    assert forall|u: Tier, q: Seq<char>| #[trigger] copied(w, u, q) implies copied(w2, u, q) by {
        if u == t && q == p {
            assert(w2.store(u)[q] == w.local[p]);
        }
    }
    assert(m.tiers.with(t).holds(t));
    assert forall|q: Seq<char>| #[trigger] about(w2, e, q) implies copied(w2, t, q)
        && w2.files[q].tiers.holds(t) by {
        assert(w.files.contains_key(q));
        assert(q == p);
    }
    assert(w2.indexed());
}

/// What a replay of the entries does, if no request fails.
pub open spec fn replayed(w: World, w2: World, rest: Seq<WalView>) -> bool {
    &&& w2.indexed()
    &&& copies_added(w, w2)
    &&& forall|i: int| 0 <= i < rest.len() && (#[trigger] rest[i]).attempts < 10 ==> settled(w2, rest[i])
    &&& forall|x: WalView|
        #[trigger] w2.wal.contains(x) <==> w.wal.contains(x) && !(exists|i: int|
            0 <= i < rest.len() && (#[trigger] rest[i]).attempts < 10 && rest[i].id == x.id)
}

proof fn lemma_without_wal(wal: Seq<WalView>, id: i64, x: WalView)
    ensures
        crate::world::without_wal(wal, id).contains(x) <==> wal.contains(x) && x.id != id,
{
    let keep = |e: WalView| e.id != id;
    let kept = wal.filter(keep);
    if kept.contains(x) {
        wal.lemma_filter_contains_rev(keep, x);
        let i = choose|i: int| 0 <= i < kept.len() && kept[i] == x;
        wal.lemma_filter_pred(keep, i);
    }
    if wal.contains(x) && x.id != id {
        let i = choose|i: int| 0 <= i < wal.len() && wal[i] == x;
        wal.lemma_filter_contains(keep, i);
    }
}

/// Carrying out the first entry that is not given up: how many requests it takes, and
/// the world then.
proof fn lemma_replay_first(env: Env, k: nat, w: World, tail: Seq<WalView>, e: WalView, fuel: nat) -> (r: (
    nat,
    World,
))
    requires
        healthy(env),
        w.indexed(),
        replayable(w, e),
        fuel >= 7,
    ensures
        r.0 <= 7,
        run_replay_step(env, k, w, try_entry(tail, e, e.attempts, 500), fuel) == run_replay_step(
            env,
            k + r.0,
            r.1,
            advance(tail),
            (fuel - r.0) as nat,
        ),
        r.1.indexed(),
        copies_added(w, r.1),
        settled(r.1, e),
        r.1.wal == crate::world::without_wal(w.wal, e.id),
{
    if w.has_id(e.file_id) {
        let p = choose|p: Seq<char>| about(w, e, p);
        match e.op {
            WalOp::ReplicateNas => {
                lemma_replay_nas(env, k, w, tail, e, p, fuel);
            },
            WalOp::UploadS3 => {
                lemma_replay_s3(env, k, w, tail, e, p, fuel);
            },
        }
        lemma_after_entry(env, k, w, e, p);
        (requests_for(e.op), after_entry(env, k, w, e, p))
    } else {
        let w1 = World { wal: crate::world::without_wal(w.wal, e.id), ..w };
        reveal_with_fuel(run_replay, 3);
        assert((env.faults)(k) is None);
        assert((env.faults)(k + 1) is None);
        assert forall|q: Seq<char>| #[trigger] about(w1, e, q) implies false by {
            assert(w.files.contains_key(q));
        }
        assert(w1.files == w.files);
        assert forall|t: Tier, p: Seq<char>| #[trigger] copied(w, t, p) implies copied(w1, t, p) by {
            assert(w1.store(t) == w.store(t));
        }
        (2nat, w1)
    }
}

proof fn lemma_replay_all(env: Env, k: nat, w: World, rest: Seq<WalView>, fuel: nat)
    requires
        healthy(env),
        w.indexed(),
        forall|i: int| 0 <= i < rest.len() ==> replayable(w, #[trigger] rest[i]),
        fuel >= 7 * rest.len(),
    ensures
        run_replay_step(env, k, w, advance(rest), fuel) matches Some(w2) && replayed(w, w2, rest),
    decreases rest.len(),
{
    if rest.len() > 0 {
        let e = rest[0];
        let tail = rest.skip(1);
        assert forall|i: int| 0 <= i < tail.len() implies replayable(w, #[trigger] tail[i]) by {
            assert(tail[i] == rest[i + 1]);
        }
        if e.attempts >= 10 {
            lemma_replay_all(env, k, w, tail, fuel);
            let w2 = run_replay_step(env, k, w, advance(tail), fuel)->0;
            lemma_replayed_grows(w, w, w2, rest);
        } else {
            let (n, w1) = lemma_replay_first(env, k, w, tail, e, fuel);
            let less = (fuel - n) as nat;
            assert forall|i: int| 0 <= i < tail.len() implies replayable(w1, #[trigger] tail[i]) by {
                lemma_about_stays(w, w1, tail[i]);
            }
            lemma_replay_all(env, k + n, w1, tail, less);
            let w2 = run_replay_step(env, k + n, w1, advance(tail), less)->0;
            lemma_about_stays(w, w1, e);
            lemma_settled_stays(w1, w2, e);
            lemma_copies_added_chain(w, w1, w2);
            lemma_replayed_grows(w, w1, w2, rest);
        }
    }
}

/// A replay of the first entry and then of the others is one of all.
proof fn lemma_replayed_grows(w: World, w1: World, w2: World, rest: Seq<WalView>)
    requires
        rest.len() > 0,
        replayed(w1, w2, rest.skip(1)),
        copies_added(w, w2),
        rest[0].attempts >= 10 ==> w1.wal == w.wal,
        rest[0].attempts < 10 ==> settled(w2, rest[0]) && w1.wal == crate::world::without_wal(
            w.wal,
            rest[0].id,
        ),
    ensures
        replayed(w, w2, rest),
{
    let tail = rest.skip(1);
    assert forall|i: int| 0 <= i < rest.len() && (#[trigger] rest[i]).attempts < 10 implies settled(w2, rest[i]) by {
        if i > 0 {
            assert(tail[i - 1] == rest[i]);
        }
    }
    assert forall|x: WalView|
        #[trigger] w2.wal.contains(x) <==> w.wal.contains(x) && !(exists|i: int|
            0 <= i < rest.len() && (#[trigger] rest[i]).attempts < 10 && rest[i].id == x.id) by {
        lemma_without_wal(w.wal, rest[0].id, x);
        if exists|i: int| 0 <= i < tail.len() && (#[trigger] tail[i]).attempts < 10 && tail[i].id == x.id {
            let i = choose|i: int|
                0 <= i < tail.len() && (#[trigger] tail[i]).attempts < 10 && tail[i].id == x.id;
            assert(rest[i + 1] == tail[i]);
        }
        if exists|i: int| 0 <= i < rest.len() && (#[trigger] rest[i]).attempts < 10 && rest[i].id == x.id {
            let i = choose|i: int|
                0 <= i < rest.len() && (#[trigger] rest[i]).attempts < 10 && rest[i].id == x.id;
            if i > 0 {
                assert(tail[i - 1] == rest[i]);
            }
        }
    }
}

/// The world when a replay of the whole log is over.
pub open spec fn run_whole_replay(env: Env, k: nat, w: World, fuel: nat) -> Option<World> {
    run_replay(env, k, w, ReplayView::Loading, ActionView::WalPending, fuel)
}

/// The log survives a crash: a replay in which no request fails carries out all of it.
/// Every entry that was not given up is settled, which puts what the local disk holds
/// on the tier that it names, and what is left on the log are the entries given up.
pub proof fn law_replay_settles_the_log(env: Env, k: nat, w: World, fuel: nat)
    requires
        healthy(env),
        w.indexed(),
        forall|i: int| 0 <= i < w.wal.len() ==> replayable(w, #[trigger] w.wal[i]),
        forall|i: int, j: int|
            0 <= i < j < w.wal.len() ==> (#[trigger] w.wal[i]).id != (#[trigger] w.wal[j]).id,
        fuel >= 7 * w.wal.len() + 1,
    ensures
        run_whole_replay(env, k, w, fuel) matches Some(w2) && {
            &&& copies_added(w, w2)
            &&& forall|i: int|
                0 <= i < w.wal.len() && (#[trigger] w.wal[i]).attempts < 10 ==> settled(w2, w.wal[i])
            &&& forall|x: WalView|
                #[trigger] w2.wal.contains(x) <==> w.wal.contains(x) && x.attempts >= 10
        },
{
    assert((env.faults)(k) is None);
    let less = (fuel - 1) as nat;
    lemma_replay_all(env, k + 1, w, w.wal, less);
    let end = run_replay_step(env, k + 1, w, advance(w.wal), less);
    assert(run_whole_replay(env, k, w, fuel) == end);
    let w2 = end->0;
    assert forall|x: WalView| #[trigger] w2.wal.contains(x) <==> w.wal.contains(x) && x.attempts >= 10 by {
        if w.wal.contains(x) {
            let j = choose|j: int| 0 <= j < w.wal.len() && w.wal[j] == x;
            if x.attempts < 10 {
                assert(w.wal[j].attempts < 10 && w.wal[j].id == x.id);
            } else if exists|i: int|
                0 <= i < w.wal.len() && (#[trigger] w.wal[i]).attempts < 10 && w.wal[i].id == x.id {
                let i = choose|i: int|
                    0 <= i < w.wal.len() && (#[trigger] w.wal[i]).attempts < 10 && w.wal[i].id == x.id;
                assert(i == j);
            }
        }
    }
}

/// A write is durable: once it has succeeded, a replay of the log in which no request
/// fails leaves the data on every tier, with every tier in the file's mask.
pub proof fn law_write_then_replay(
    env: Env,
    w: World,
    path: Seq<char>,
    data: Seq<u8>,
    later: Env,
    k: nat,
    fuel: nat,
)
    requires
        crate::path::valid_path(path),
        data.len() <= u64::MAX,
        crate::world::numbered(w),
        crate::world::ids_left(w, crate::path::components(path).len() + 1, 2),
        forall|i: int| 0 <= i < w.wal.len() ==> has_subject(w, #[trigger] w.wal[i]),
        fuel >= 2 * crate::path::components(path).len() + 4,
        fuel >= 7 * w.wal.len() + 15,
        run_write(env, w, path, data, fuel)->0.result is Ok,
        healthy(later),
    ensures
        run_whole_replay(later, k, run_write(env, w, path, data, fuel)->0.world, fuel) matches Some(
            w3,
        ) && {
            &&& replicas(w3, path, data)
            &&& forall|t: Tier| #[trigger] w3.files[path].tiers.holds(t)
            &&& w3.indexed()
            &&& w3.files[path].size_bytes == data.len()
            &&& w3.files[path].modified_at == (env.clock)(0)
        },
{
    crate::guarantees::law_write(env, w, path, data, fuel);
    crate::guarantees::law_write_makes_replicas(env, w, path, data, fuel);
    let w2 = run_write(env, w, path, data, fuel)->0.world;
    let n = w.wal.len() as int;
    crate::tier::law_set(TierBitmask(0), Tier::Local);
    assert(w2.files[path].tiers.holds(Tier::Local));
    assert forall|i: int| 0 <= i < w2.wal.len() implies replayable(w2, #[trigger] w2.wal[i]) by {
        if i < n {
            assert(w2.wal.take(n)[i] == w.wal[i]);
            let p = choose|p: Seq<char>| about(w, w.wal[i], p);
            if p != path {
                assert(w.files.contains_key(p));
            }
            assert(about(w2, w2.wal[i], p));
        } else {
            assert(i == n || i == n + 1);
            assert(about(w2, w2.wal[i], path));
        }
    }
    law_replay_settles_the_log(later, k, w2, fuel);
    let w3 = run_whole_replay(later, k, w2, fuel)->0;
    assert(w2.wal[n].attempts < 10 && w2.wal[n + 1].attempts < 10);
    assert(settled(w3, w2.wal[n]) && settled(w3, w2.wal[n + 1]));
    lemma_about_stays(w2, w3, w2.wal[n]);
    lemma_about_stays(w2, w3, w2.wal[n + 1]);
    assert(about(w3, w2.wal[n], path) && about(w3, w2.wal[n + 1], path));
    assert(w3.files[path].tiers.holds(Tier::Local));
    assert forall|t: Tier| #[trigger] w3.files[path].tiers.holds(t) && w3.store(t).contains_key(path)
        && w3.store(t)[path] == data by {
        match t {
            Tier::Local => {},
            Tier::Nas => {},
            Tier::S3 => {},
        }
    }
}

/// A write, a replay of the log and a listing: if no request of the latter two fails, the
/// directory above shows the file with as many bytes as were written, on every tier.
pub proof fn law_replayed_is_shown(
    env: Env,
    w: World,
    path: Seq<char>,
    data: Seq<u8>,
    later: Env,
    k: nat,
    j: nat,
    listing: Seq<MetaView>,
    fuel: nat,
)
    requires
        crate::path::valid_path(path),
        path != seq!['/'],
        data.len() <= u64::MAX,
        crate::world::numbered(w),
        crate::world::ids_left(w, crate::path::components(path).len() + 1, 2),
        forall|i: int| 0 <= i < w.wal.len() ==> has_subject(w, #[trigger] w.wal[i]),
        fuel >= 2 * crate::path::components(path).len() + 4,
        fuel >= 7 * w.wal.len() + 15,
        run_write(env, w, path, data, fuel)->0.result is Ok,
        healthy(later),
        run_whole_replay(later, k, run_write(env, w, path, data, fuel)->0.world, fuel) matches Some(w3)
            && crate::world::is_listing(w3, crate::path::parent_of(path)->0, listing),
    ensures
        run_whole_replay(later, k, run_write(env, w, path, data, fuel)->0.world, fuel) matches Some(
            w3,
        ) && crate::guarantees::run_list(
            later,
            j,
            w3,
            crate::path::parent_of(path)->0,
            fuel,
        ) matches Some(end) && end.result matches Ok(ReplyView::Entries(es)) && exists|i: int|
            {
                &&& 0 <= i < es.len()
                &&& (#[trigger] es[i]).path == path
                &&& es[i].kind == EntryKind::File
                &&& es[i].size_bytes == data.len()
                &&& es[i].modified_at == (env.clock)(0)
                &&& forall|t: Tier| #[trigger] es[i].tiers.holds(t)
            },
{
    law_write_then_replay(env, w, path, data, later, k, fuel);
    crate::guarantees::law_write(env, w, path, data, fuel);
    let w2 = run_write(env, w, path, data, fuel)->0.world;
    let w3 = run_whole_replay(later, k, w2, fuel)->0;
    let dir = crate::path::parent_of(path)->0;
    crate::path::law_parent_then_join(path);
    crate::guarantees::law_listing_shows_the_store(later, j, w3, dir, listing, fuel);
    let es = crate::guarantees::run_list(later, j, w3, dir, fuel)->0.result->Ok_0->Entries_0;
    assert(w3.files.contains_key(path) && crate::path::parent_of(path) == Some(dir));
    let i = choose|i: int| 0 <= i < es.len() && (#[trigger] es[i]).path == path;
    assert(crate::guarantees::shows(w3, dir, es[i]));
    assert forall|t: Tier| #[trigger] es[i].tiers.holds(t) by {
        assert(w3.files[path].tiers.holds(t));
    }
}

// ---------------------------------------------------------------------------
// Flushing

/// The world when a flush that has come to `s`, and makes the request `a` as the `k`-th,
/// is over, if it is within `fuel` requests.
pub open spec fn run_flush(env: Env, k: nat, w: World, s: FlushView, a: ActionView, fuel: nat) -> Option<World>
    decreases fuel,
{
    if fuel == 0 {
        None
    } else {
        let (w2, e) = perform(env, k, w, a);
        match flush_step(s, e, (env.clock)(k)) {
            FlushStepView::Done => Some(w2),
            FlushStepView::Next(s2, a2) => run_flush(env, k + 1, w2, s2, a2, (fuel - 1) as nat),
        }
    }
}

/// The same from one of the steps of a flush on.
pub open spec fn run_flush_step(env: Env, k: nat, w: World, step: FlushStepView, fuel: nat) -> Option<World> {
    match step {
        FlushStepView::Done => Some(w),
        FlushStepView::Next(s, a) => run_flush(env, k, w, s, a, fuel),
    }
}

#[verifier::spinoff_prover]
#[verifier::rlimit(40)]
proof fn lemma_flush_one(env: Env, k: nat, w: World, rest: Seq<WalView>, e: WalView, p: Seq<char>, fuel: nat)
    requires
        healthy(env),
        w.indexed(),
        about(w, e, p),
        e.op == WalOp::UploadS3,
        fuel >= 7,
    ensures
        run_flush(
            env,
            k,
            w,
            FlushView::Working { rest, entry: e, phase: UploadPhase::Finding },
            ActionView::LookupId { id: e.file_id },
            fuel,
        ) == run_flush_step(
            env,
            k + 7,
            after_entry(env, k, w, e, p),
            next_upload(rest),
            (fuel - 7) as nat,
        ),
{
    lemma_by_id(w, p);
    let m = w.files[p];
    let f = crate::transfer::subject(m);
    let data = w.local[p];
    let at = |phase: UploadPhase| FlushView::Working { rest, entry: e, phase };
    let reading = |op: RouterView| at(UploadPhase::Moving(TransferView::Reading(f, op)));
    let w1 = perform(env, k + 3, w, ActionView::RecordAccess { id: m.id }).0;
    let w2 = World { s3: w1.s3.insert(p, data), ..w1 };
    let w3 = crate::world::with_entry(
        w2,
        m.id,
        |x: MetaView| MetaView { tiers: m.tiers.with(Tier::S3), ..x },
    );
    let a0 = ActionView::LookupId { id: e.file_id };
    let a1 = ActionView::Lookup { path: p };
    let a2 = ActionView::Get { tier: Tier::Local, path: p };
    let a3 = ActionView::RecordAccess { id: m.id };
    let a4 = ActionView::Put { tier: Tier::S3, path: p, data };
    let a5 = ActionView::SetTiers { id: m.id, tiers: m.tiers.with(Tier::S3) };
    let a6 = ActionView::WalComplete { id: e.id };
    let s0 = at(UploadPhase::Finding);
    let s1 = reading(RouterView::ReadMeta { path: p });
    let s2 = reading(RouterView::ReadLocal { path: p, id: m.id, tiers: m.tiers });
    let s3 = reading(RouterView::ReadRecord { data });
    let s4 = at(UploadPhase::Moving(TransferView::ToS3(f)));
    let s5 = at(UploadPhase::Moving(TransferView::Marking));
    let s6 = at(UploadPhase::Settling);
    assert(run_flush(env, k, w, s0, a0, fuel) == run_flush(
        env,
        k + 1,
        w,
        s1,
        a1,
        (fuel - 1) as nat,
    )) by {
        assert((env.faults)(k) is None);
    }
    assert(run_flush(env, k + 1, w, s1, a1, (fuel - 1) as nat) == run_flush(
        env,
        k + 2,
        w,
        s2,
        a2,
        (fuel - 2) as nat,
    )) by {
        assert((env.faults)(k + 1) is None);
    }
    assert(run_flush(env, k + 2, w, s2, a2, (fuel - 2) as nat) == run_flush(
        env,
        k + 3,
        w,
        s3,
        a3,
        (fuel - 3) as nat,
    )) by {
        assert((env.faults)(k + 2) is None);
    }
    assert(run_flush(env, k + 3, w, s3, a3, (fuel - 3) as nat) == run_flush(
        env,
        k + 4,
        w1,
        s4,
        a4,
        (fuel - 4) as nat,
    )) by {
        assert((env.faults)(k + 3) is None);
    }
    assert(run_flush(env, k + 4, w1, s4, a4, (fuel - 4) as nat) == run_flush(
        env,
        k + 5,
        w2,
        s5,
        a5,
        (fuel - 5) as nat,
    )) by {
        assert((env.faults)(k + 4) is None);
    }
    assert(run_flush(env, k + 5, w2, s5, a5, (fuel - 5) as nat) == run_flush(
        env,
        k + 6,
        w3,
        s6,
        a6,
        (fuel - 6) as nat,
    )) by {
        assert((env.faults)(k + 5) is None);
    }
    assert((env.faults)(k + 6) is None);
    assert((env.faults)(k + 3) is None);
    assert(w3.wal == w.wal);
}

/// Uploading the first entry: how many requests it takes, and the world then.
proof fn lemma_flush_first(env: Env, k: nat, w: World, rest: Seq<WalView>, fuel: nat) -> (r: (nat, World))
    requires
        healthy(env),
        w.indexed(),
        rest.len() > 0,
        rest[0].op == WalOp::UploadS3,
        replayable(w, rest[0]),
        fuel >= 7,
    ensures
        r.0 <= 7,
        run_flush_step(env, k, w, next_upload(rest), fuel) == run_flush_step(
            env,
            k + r.0,
            r.1,
            next_upload(rest.skip(1)),
            (fuel - r.0) as nat,
        ),
        r.1.indexed(),
        copies_added(w, r.1),
        settled(r.1, rest[0]),
        r.1.wal == crate::world::without_wal(w.wal, rest[0].id),
{
    let e = rest[0];
    if w.has_id(e.file_id) {
        let p = choose|p: Seq<char>| about(w, e, p);
        lemma_flush_one(env, k, w, rest.skip(1), e, p, fuel);
        lemma_after_entry(env, k, w, e, p);
        (7nat, after_entry(env, k, w, e, p))
    } else {
        let w1 = World { wal: crate::world::without_wal(w.wal, e.id), ..w };
        reveal_with_fuel(run_flush, 3);
        assert((env.faults)(k) is None);
        assert((env.faults)(k + 1) is None);
        assert forall|q: Seq<char>| #[trigger] about(w1, e, q) implies false by {
            assert(w.files.contains_key(q));
        }
        assert(w1.files == w.files);
        assert forall|t: Tier, p: Seq<char>| #[trigger] copied(w, t, p) implies copied(w1, t, p) by {
            assert(w1.store(t) == w.store(t));
        }
        (2nat, w1)
    }
}

proof fn lemma_flush_all(env: Env, k: nat, w: World, rest: Seq<WalView>, fuel: nat)
    requires
        healthy(env),
        w.indexed(),
        forall|i: int|
            0 <= i < rest.len() ==> replayable(w, #[trigger] rest[i])
                && crate::s3_uploader::uploadable(rest[i]),
        fuel >= 7 * rest.len(),
    ensures
        run_flush_step(env, k, w, next_upload(rest), fuel) matches Some(w2) && replayed(w, w2, rest),
    decreases rest.len(),
{
    if rest.len() > 0 {
        let tail = rest.skip(1);
        assert(replayable(w, rest[0]));
        let (n, w1) = lemma_flush_first(env, k, w, rest, fuel);
        let less = (fuel - n) as nat;
        assert forall|i: int| 0 <= i < tail.len() implies replayable(w1, #[trigger] tail[i])
            && crate::s3_uploader::uploadable(tail[i]) by {
            assert(tail[i] == rest[i + 1]);
            lemma_about_stays(w, w1, tail[i]);
        }
        lemma_flush_all(env, k + n, w1, tail, less);
        let w2 = run_flush_step(env, k + n, w1, next_upload(tail), less)->0;
        lemma_about_stays(w, w1, rest[0]);
        lemma_settled_stays(w1, w2, rest[0]);
        lemma_copies_added_chain(w, w1, w2);
        lemma_replayed_grows(w, w1, w2, rest);
    }
}

/// A flush drains the log of its uploads: if no request fails, every upload that was not
/// given up is settled, and what is left on the log is everything else.
pub proof fn law_flush_settles_uploads(env: Env, k: nat, w: World, fuel: nat)
    requires
        healthy(env),
        w.indexed(),
        forall|i: int| 0 <= i < w.wal.len() ==> replayable(w, #[trigger] w.wal[i]),
        forall|i: int, j: int|
            0 <= i < j < w.wal.len() ==> (#[trigger] w.wal[i]).id != (#[trigger] w.wal[j]).id,
        fuel >= 7 * w.wal.len() + 1,
    ensures
        run_flush(env, k, w, FlushView::Loading, ActionView::WalPending, fuel) matches Some(w2) && {
            &&& copies_added(w, w2)
            &&& forall|i: int|
                0 <= i < w.wal.len() && crate::s3_uploader::uploadable(#[trigger] w.wal[i])
                    ==> settled(w2, w.wal[i])
            &&& forall|x: WalView|
                #[trigger] w2.wal.contains(x) <==> w.wal.contains(x)
                    && !crate::s3_uploader::uploadable(x)
        },
{
    assert((env.faults)(k) is None);
    let keep = |e: WalView| crate::s3_uploader::uploadable(e);
    let rest = uploads(w.wal);
    w.wal.lemma_filter_len(keep);
    assert forall|i: int| 0 <= i < rest.len() implies replayable(w, #[trigger] rest[i])
        && crate::s3_uploader::uploadable(rest[i]) by {
        w.wal.lemma_filter_pred(keep, i);
        assert(rest.contains(rest[i]));
        w.wal.lemma_filter_contains_rev(keep, rest[i]);
        let j = choose|j: int| 0 <= j < w.wal.len() && w.wal[j] == rest[i];
        assert(replayable(w, w.wal[j]));
    }
    let less = (fuel - 1) as nat;
    lemma_flush_all(env, k + 1, w, rest, less);
    let end = run_flush_step(env, k + 1, w, next_upload(rest), less);
    assert(run_flush(env, k, w, FlushView::Loading, ActionView::WalPending, fuel) == end);
    let w2 = end->0;
    assert forall|i: int| 0 <= i < w.wal.len() && crate::s3_uploader::uploadable(#[trigger] w.wal[i]) implies settled(
        w2,
        w.wal[i],
    ) by {
        w.wal.lemma_filter_contains(keep, i);
        let j = choose|j: int| 0 <= j < rest.len() && rest[j] == w.wal[i];
        assert(settled(w2, rest[j]));
    }
    assert forall|x: WalView| #[trigger] w2.wal.contains(x) <==> w.wal.contains(x)
        && !crate::s3_uploader::uploadable(x) by {
        if w.wal.contains(x) {
            let i = choose|i: int| 0 <= i < w.wal.len() && w.wal[i] == x;
            if crate::s3_uploader::uploadable(x) {
                w.wal.lemma_filter_contains(keep, i);
                let j = choose|j: int| 0 <= j < rest.len() && rest[j] == x;
                assert(rest[j].attempts < 10 && rest[j].id == x.id);
            } else if exists|j: int|
                0 <= j < rest.len() && (#[trigger] rest[j]).attempts < 10 && rest[j].id == x.id {
                let j = choose|j: int|
                    0 <= j < rest.len() && (#[trigger] rest[j]).attempts < 10 && rest[j].id == x.id;
                assert(rest.contains(rest[j]));
                w.wal.lemma_filter_contains_rev(keep, rest[j]);
                let n = choose|n: int| 0 <= n < w.wal.len() && w.wal[n] == rest[j];
                assert(n == i);
            }
        }
    }
}

// ---------------------------------------------------------------------------
// One transfer

/// How a transfer ends: the world then, and the result.
pub struct TransferOutcome {
    pub world: World,
    pub result: Result<(), ErrorView>,
}

/// How a transfer that has come to `t`, and makes the request `a` as the `k`-th, ends
/// within `fuel` requests.
pub open spec fn run_transfer(env: Env, k: nat, w: World, t: TransferView, a: ActionView, fuel: nat) -> Option<
    TransferOutcome,
>
    decreases fuel,
{
    if fuel == 0 {
        None
    } else {
        let (w2, e) = perform(env, k, w, a);
        match crate::transfer::transfer_step(t, e, (env.clock)(k)) {
            TransferStepView::Done(r) => Some(TransferOutcome { world: w2, result: r }),
            TransferStepView::Next(t2, a2) => run_transfer(
                env,
                k + 1,
                w2,
                t2,
                a2,
                (fuel - 1) as nat,
            ),
        }
    }
}

/// A transfer ends, at the last request that it makes, and never loses anything: if it
/// reports success, the tier that it is for has what one of the tiers held, and is in
/// the file's mask; whatever fails, the local disk is as it was.
pub proof fn law_transfer(env: Env, k: nat, w: World, op: WalOp, p: Seq<char>, fuel: nat)
    requires
        w.indexed(),
        w.files.contains_key(p),
        fuel >= 9,
    ensures
        run_transfer(
            env,
            k,
            w,
            crate::transfer::transfer_start(op, w.files[p]),
            crate::transfer::transfer_request(op, w.files[p]),
            fuel,
        ) matches Some(end) && {
            &&& end.world.local == w.local
            &&& end.world.wal == w.wal
            &&& end.result is Ok ==> {
                &&& end.world.store(target(op)).contains_key(p)
                &&& exists|t: Tier|
                    #[trigger] w.store(t).contains_key(p) && w.store(t)[p] == end.world.store(
                        target(op),
                    )[p]
                &&& end.world.files[p].tiers == w.files[p].tiers.with(target(op))
            }
        },
{
    match op {
        WalOp::ReplicateNas => {
            reveal_with_fuel(run_transfer, 4);
            assert((env.faults)(k) is None || (env.faults)(k) is Some);
            assert((env.faults)(k + 1) is None || (env.faults)(k + 1) is Some);
            assert((env.faults)(k + 2) is None || (env.faults)(k + 2) is Some);
            assert(w.store(Tier::Local).contains_key(p) || !w.local.contains_key(p));
        },
        WalOp::UploadS3 => {
            lemma_upload(env, k, w, p, fuel);
        },
    }
}

/// A transfer ends with the error of the request that fails, and changes nothing by it;
/// unless it is reading, and the read goes on.
pub proof fn law_transfer_fails_with_the_error(
    env: Env,
    k: nat,
    w: World,
    t: TransferView,
    a: ActionView,
    x: ErrorView,
    fuel: nat,
)
    requires
        crate::action::answer_shape(a) == crate::transfer::transfer_awaits(t),
        (env.faults)(k) == Some(x),
        t matches TransferView::Reading(_, s) ==> !crate::reads::survives(s),
        fuel >= 1,
    ensures
        run_transfer(env, k, w, t, a, fuel) matches Some(end) && end.world == w && end.result == Err::<
            (),
            ErrorView,
        >(x),
{
}

/// A transfer that reads what it uploads ends as the read does where that is refused.
pub proof fn law_transfer_fails_as_its_read(env: Env, k: nat, w: World, op: RouterView, a: ActionView, f: SubjectView, fuel: nat)
    requires
        crate::world::run(env, k, w, op, a, fuel) is Some,
        crate::world::run(env, k, w, op, a, fuel)->0.result is Err,
    ensures
        run_transfer(env, k, w, TransferView::Reading(f, op), a, fuel) matches Some(end) && {
            &&& end.world == crate::world::run(env, k, w, op, a, fuel)->0.world
            &&& end.result == Err::<(), ErrorView>(
                crate::world::run(env, k, w, op, a, fuel)->0.result->Err_0,
            )
        },
    decreases fuel,
{
    let (w2, e) = perform(env, k, w, a);
    if let crate::router::StepView::Next(op2, a2) = crate::router::router_step(op, e, (env.clock)(k)) {
        law_transfer_fails_as_its_read(env, k + 1, w2, op2, a2, f, (fuel - 1) as nat);
    }
}

/// From the moment that the content is at hand, an upload that succeeds has stored it.
proof fn lemma_upload_end(env: Env, k: nat, w: World, f: SubjectView, p: Seq<char>, data: Seq<u8>, fuel: nat)
    requires
        w.files.contains_key(p),
        f.path == p,
        f.id == w.files[p].id,
        fuel >= 3,
    ensures
        run_transfer(
            env,
            k,
            w,
            TransferView::Reading(f, RouterView::ReadRecord { data }),
            ActionView::RecordAccess { id: f.id },
            fuel,
        ) matches Some(end) && {
            &&& end.world.local == w.local
            &&& end.world.wal == w.wal
            &&& end.result is Ok ==> {
                &&& end.world.s3 == w.s3.insert(p, data)
                &&& end.world.files[p].tiers == f.tiers.with(Tier::S3)
            }
        },
{
    reveal_with_fuel(run_transfer, 4);
    assert((env.faults)(k) is None || (env.faults)(k) is Some);
    assert((env.faults)(k + 1) is None || (env.faults)(k + 1) is Some);
    assert((env.faults)(k + 2) is None || (env.faults)(k + 2) is Some);
}

/// An upload that reads from a colder tier.
proof fn lemma_upload_cold(env: Env, k: nat, w: World, f: SubjectView, p: Seq<char>, from: Tier, fuel: nat)
    requires
        w.files.contains_key(p),
        f.path == p,
        f.id == w.files[p].id,
        from != Tier::Local,
        fuel >= if from == Tier::Nas { 6nat } else { 5nat },
    ensures
        run_transfer(
            env,
            k,
            w,
            TransferView::Reading(f, RouterView::ReadCold { path: p, id: f.id, from, tiers: f.tiers }),
            ActionView::Get { tier: from, path: p },
            fuel,
        ) matches Some(end) && {
            &&& end.world.local == w.local
            &&& end.world.wal == w.wal
            &&& end.result is Ok ==> {
                &&& exists|t: Tier|
                    #[trigger] w.store(t).contains_key(p) && end.world.s3 == w.s3.insert(
                        p,
                        w.store(t)[p],
                    )
                &&& end.world.files[p].tiers == f.tiers.with(Tier::S3)
            }
        },
    decreases if from == Tier::Nas { 1nat } else { 0nat },
{
    reveal_with_fuel(run_transfer, 3);
    assert((env.faults)(k) is None || (env.faults)(k) is Some);
    assert((env.faults)(k + 1) is None || (env.faults)(k + 1) is Some);
    if (env.faults)(k) is None && w.store(from).contains_key(p) {
        let w1 = perform(env, k + 1, w, ActionView::Promote { path: p, from }).0;
        lemma_upload_end(env, k + 2, w1, f, p, w.store(from)[p], (fuel - 2) as nat);
    } else if from == Tier::Nas && f.tiers.holds(Tier::S3) {
        lemma_upload_cold(env, k + 1, w, f, p, Tier::S3, (fuel - 1) as nat);
    }
}

proof fn lemma_upload(env: Env, k: nat, w: World, p: Seq<char>, fuel: nat)
    requires
        w.indexed(),
        w.files.contains_key(p),
        fuel >= 9,
    ensures
        run_transfer(
            env,
            k,
            w,
            crate::transfer::transfer_start(WalOp::UploadS3, w.files[p]),
            crate::transfer::transfer_request(WalOp::UploadS3, w.files[p]),
            fuel,
        ) matches Some(end) && {
            &&& end.world.local == w.local
            &&& end.world.wal == w.wal
            &&& end.result is Ok ==> {
                &&& end.world.s3.contains_key(p)
                &&& exists|t: Tier|
                    #[trigger] w.store(t).contains_key(p) && w.store(t)[p] == end.world.s3[p]
                &&& end.world.files[p].tiers == w.files[p].tiers.with(Tier::S3)
            }
        },
{
    let m = w.files[p];
    let f = crate::transfer::subject(m);
    assert(f.path == p);
    reveal_with_fuel(run_transfer, 3);
    assert((env.faults)(k) is None || (env.faults)(k) is Some);
    assert((env.faults)(k + 1) is None || (env.faults)(k + 1) is Some);
    if (env.faults)(k) is None && m.kind == EntryKind::File {
        if m.tiers.holds(Tier::Local) {
            if (env.faults)(k + 1) is None && w.local.contains_key(p) {
                lemma_upload_end(env, k + 2, w, f, p, w.local[p], (fuel - 2) as nat);
                assert(w.store(Tier::Local).contains_key(p));
            } else if m.tiers.holds(Tier::Nas) {
                lemma_upload_cold(env, k + 2, w, f, p, Tier::Nas, (fuel - 2) as nat);
            } else if m.tiers.holds(Tier::S3) {
                lemma_upload_cold(env, k + 2, w, f, p, Tier::S3, (fuel - 2) as nat);
            }
        } else if m.tiers.holds(Tier::Nas) {
            lemma_upload_cold(env, k + 1, w, f, p, Tier::Nas, (fuel - 1) as nat);
        } else if m.tiers.holds(Tier::S3) {
            lemma_upload_cold(env, k + 1, w, f, p, Tier::S3, (fuel - 1) as nat);
        }
    }
}

// ---------------------------------------------------------------------------
// Promotion

/// The world when a promotion that has come to `s`, and makes the request `a` as the
/// `k`-th, is over, if it is within `fuel` requests.
pub open spec fn run_promotion(env: Env, k: nat, w: World, s: PromotionView, a: ActionView, fuel: nat) -> Option<
    World,
>
    decreases fuel,
{
    if fuel == 0 {
        None
    } else {
        let (w2, e) = perform(env, k, w, a);
        match promotion_step(s, e, (env.clock)(k)) {
            PromotionStepView::Done => Some(w2),
            PromotionStepView::Next(s2, a2) => run_promotion(
                env,
                k + 1,
                w2,
                s2,
                a2,
                (fuel - 1) as nat,
            ),
        }
    }
}

/// The world when the promotion of a path is over.
pub open spec fn run_promote(env: Env, k: nat, w: World, path: Seq<char>, fuel: nat) -> Option<World> {
    run_promotion(
        env,
        k,
        w,
        PromotionView::Reading { path, op: RouterView::ReadMeta { path } },
        ActionView::Lookup { path },
        fuel,
    )
}

/// From the moment that the content is at hand, a promotion stores it on the local disk.
proof fn lemma_promotion_end(env: Env, k: nat, w: World, path: Seq<char>, data: Seq<u8>, fuel: nat)
    requires
        healthy(env),
        w.indexed(),
        w.files.contains_key(path),
        fuel >= 4,
    ensures
        run_promotion(
            env,
            k,
            w,
            PromotionView::Reading { path, op: RouterView::ReadRecord { data } },
            ActionView::RecordAccess { id: w.files[path].id },
            fuel,
        ) matches Some(w2) && {
            &&& w2.local == w.local.insert(path, data)
            &&& w2.nas == w.nas
            &&& w2.s3 == w.s3
            &&& w2.files.contains_key(path)
            &&& w2.files[path].kind == w.files[path].kind
            &&& w2.files[path].tiers == w.files[path].tiers.with(Tier::Local)
        },
{
    reveal_with_fuel(run_promotion, 5);
    assert((env.faults)(k) is None);
    assert((env.faults)(k + 1) is None);
    assert((env.faults)(k + 2) is None);
    assert((env.faults)(k + 3) is None);
}

/// What a promotion in which no request fails leaves.
spec fn promoted(w: World, w2: World, path: Seq<char>, data: Seq<u8>) -> bool {
    &&& w2.local == w.local.insert(path, data)
    &&& w2.nas == w.nas
    &&& w2.s3 == w.s3
    &&& w2.files.contains_key(path)
    &&& w2.files[path].kind == w.files[path].kind
    &&& w2.files[path].tiers == w.files[path].tiers.with(Tier::Local)
}

proof fn lemma_promotion_hot(env: Env, k: nat, w: World, path: Seq<char>, fuel: nat)
    requires
        healthy(env),
        w.indexed(),
        w.files.contains_key(path),
        w.files[path].kind == EntryKind::File,
        w.files[path].tiers.holds(Tier::Local),
        w.local.contains_key(path),
        fuel >= 7,
    ensures
        run_promote(env, k, w, path, fuel) matches Some(w2) && promoted(w, w2, path, w.local[path]),
{
    let m = w.files[path];
    let op = RouterView::ReadLocal { path, id: m.id, tiers: m.tiers };
    let get = ActionView::Get { tier: Tier::Local, path };
    assert(run_promote(env, k, w, path, fuel) == run_promotion(
        env,
        k + 1,
        w,
        PromotionView::Reading { path, op },
        get,
        (fuel - 1) as nat,
    )) by {
        assert((env.faults)(k) is None);
    }
    assert((env.faults)(k + 1) is None);
    lemma_promotion_end(env, k + 2, w, path, w.local[path], (fuel - 2) as nat);
}

proof fn lemma_promotion_cold(env: Env, k: nat, w: World, path: Seq<char>, from: Tier, fuel: nat)
    requires
        healthy(env),
        w.indexed(),
        w.files.contains_key(path),
        w.files[path].kind == EntryKind::File,
        !w.files[path].tiers.holds(Tier::Local),
        from == Tier::Nas && w.files[path].tiers.holds(Tier::Nas) || from == Tier::S3
            && !w.files[path].tiers.holds(Tier::Nas) && w.files[path].tiers.holds(Tier::S3),
        w.store(from).contains_key(path),
        fuel >= 7,
    ensures
        run_promote(env, k, w, path, fuel) matches Some(w2) && promoted(
            w,
            w2,
            path,
            w.store(from)[path],
        ),
{
    let m = w.files[path];
    let data = w.store(from)[path];
    let w1 = World { promotions: w.promotions.push((path, from)), ..w };
    let cold = PromotionView::Reading { path, op: RouterView::ReadCold { path, id: m.id, from, tiers: m.tiers } };
    let signal = PromotionView::Reading { path, op: RouterView::ReadPromote { id: m.id, data } };
    let get = ActionView::Get { tier: from, path };
    let promote = ActionView::Promote { path, from };
    assert(run_promote(env, k, w, path, fuel) == run_promotion(
        env,
        k + 1,
        w,
        cold,
        get,
        (fuel - 1) as nat,
    )) by {
        assert((env.faults)(k) is None);
    }
    assert(run_promotion(env, k + 1, w, cold, get, (fuel - 1) as nat) == run_promotion(
        env,
        k + 2,
        w,
        signal,
        promote,
        (fuel - 2) as nat,
    )) by {
        assert((env.faults)(k + 1) is None);
    }
    assert((env.faults)(k + 2) is None);
    lemma_promotion_end(env, k + 3, w1, path, data, (fuel - 3) as nat);
}

/// A promotion in which no request fails brings a file, all of whose copies are the
/// same, to the local disk: its copies are still the same, and the local disk has one.
pub proof fn law_promotion(env: Env, k: nat, w: World, path: Seq<char>, data: Seq<u8>, t: Tier, fuel: nat)
    requires
        healthy(env),
        w.indexed(),
        replicas(w, path, data),
        w.files[path].tiers.holds(t),
        fuel >= 7,
    ensures
        run_promote(env, k, w, path, fuel) matches Some(w2) && {
            &&& replicas(w2, path, data)
            &&& w2.files[path].tiers.holds(Tier::Local)
            &&& w2.local[path] == data
        },
{
    let m = w.files[path];
    assert(m.tiers.holds(Tier::Local) || m.tiers.holds(Tier::Nas) || m.tiers.holds(Tier::S3));
    if m.tiers.holds(Tier::Local) {
        lemma_promotion_hot(env, k, w, path, fuel);
    } else if m.tiers.holds(Tier::Nas) {
        lemma_promotion_cold(env, k, w, path, Tier::Nas, fuel);
    } else {
        lemma_promotion_cold(env, k, w, path, Tier::S3, fuel);
    }
    let w2 = run_promote(env, k, w, path, fuel)->0;
    crate::tier::law_set(m.tiers, Tier::Local);
    assert(m.tiers.with(Tier::Local).holds(Tier::Local));
    assert forall|u: Tier| #[trigger] w2.files[path].tiers.holds(u) implies w2.store(u).contains_key(path)
        && w2.store(u)[path] == data by {
        if u != Tier::Local {
            assert(m.tiers.holds(u));
        }
    }
}

// ---------------------------------------------------------------------------
// Eviction

/// The world when an eviction cycle that has come to `s`, and makes the request `a` as
/// the `k`-th, is over, if it is within `fuel` requests.
pub open spec fn run_cycle(env: Env, k: nat, w: World, s: CycleView, a: ActionView, fuel: nat) -> Option<World>
    decreases fuel,
{
    if fuel == 0 {
        None
    } else {
        let (w2, e) = perform(env, k, w, a);
        match cycle_step(s, e, (env.clock)(k)) {
            CycleStepView::Done(_) => Some(w2),
            CycleStepView::Next(s2, a2) => run_cycle(env, k + 1, w2, s2, a2, (fuel - 1) as nat),
        }
    }
}

/// The same from one of the steps of a cycle on.
pub open spec fn run_cycle_step(env: Env, k: nat, w: World, step: CycleStepView, fuel: nat) -> Option<World> {
    match step {
        CycleStepView::Done(_) => Some(w),
        CycleStepView::Next(s, a) => run_cycle(env, k, w, s, a, fuel),
    }
}

/// The request that is open fits the world: a copy is given up only of a file that the
/// object store has, and the mask that is set is the file's without the tier.
spec fn evicts_safely(w: World, s: CycleView, a: ActionView) -> bool {
    s matches CycleView::Evicting { op, .. } && match op {
        RouterView::EvictMeta { path, .. } => a == (ActionView::Lookup { path }),
        RouterView::EvictCopy { tier, id, tiers } => a matches ActionView::Remove { tier: t, path } && {
            &&& t == tier
            &&& w.files.contains_key(path)
            &&& w.files[path].id == id
            &&& w.files[path].tiers == tiers
            &&& tiers.can_lose(tier)
        },
        RouterView::EvictMark => a matches ActionView::SetTiers { id, tiers } && exists|path: Seq<char>|
            {
                &&& #[trigger] w.files.contains_key(path)
                &&& w.files[path].id == id
                &&& w.files[path].tiers.holds(Tier::S3)
                &&& tiers.holds(Tier::S3)
            },
        _ => false,
    }
}

proof fn lemma_s3_kept_chain(a: World, b: World, c: World)
    requires
        s3_kept(a, b),
        s3_kept(b, c),
    ensures
        s3_kept(a, c),
{
    assert forall|p: Seq<char>| #[trigger] a.files.contains_key(p) implies c.files[p] == (MetaView {
        tiers: c.files[p].tiers,
        ..a.files[p]
    }) && c.files[p].tiers.holds(Tier::S3) == a.files[p].tiers.holds(Tier::S3) by {
        assert(b.files.contains_key(p));
    }
    assert forall|t: Tier, p: Seq<char>| #[trigger] a.store(t).contains_key(p) implies (c.store(t).contains_key(
        p,
    ) && c.store(t)[p] == a.store(t)[p]) || (t != Tier::S3 && a.files.contains_key(p)
        && a.files[p].tiers.holds(Tier::S3)) by {
        if b.store(t).contains_key(p) && b.store(t)[p] == a.store(t)[p] {
            if t != Tier::S3 && b.files.contains_key(p) && b.files[p].tiers.holds(Tier::S3) {
                assert(a.files.contains_key(p));
            }
        }
    }
}

proof fn lemma_next_victim_is_safe(w: World, tier: Tier, target: u64, freed: u64, rest: Seq<MetaView>)
    ensures
        next_victim(tier, target, freed, rest) matches CycleStepView::Next(s, a) ==> evicts_safely(
            w,
            s,
            a,
        ),
    decreases rest.len(),
{
    if freed < target && rest.len() > 0 && !rest[0].tiers.can_lose(tier) {
        lemma_next_victim_is_safe(w, tier, target, freed, rest.skip(1));
    }
}

/// One request of a cycle keeps what the object store has, and leaves the next request
/// safe.
proof fn lemma_cycle_request(env: Env, k: nat, w: World, s: CycleView, a: ActionView)
    requires
        w.indexed(),
        evicts_safely(w, s, a),
    ensures
        ({
            let (w2, e) = perform(env, k, w, a);
            &&& w2.indexed()
            &&& s3_kept(w, w2)
            &&& cycle_step(s, e, (env.clock)(k)) matches CycleStepView::Next(s2, a2) ==> evicts_safely(
                w2,
                s2,
                a2,
            )
        }),
{
    let (w2, e) = perform(env, k, w, a);
    assert((env.faults)(k) is None || (env.faults)(k) is Some);
    if let CycleView::Evicting { tier, target, freed, rest, file, op } = s {
        lemma_next_victim_is_safe(w2, tier, target, freed, rest);
        lemma_next_victim_is_safe(
            w2,
            tier,
            target,
            crate::s3_uploader::sum_capped(freed, file.size_bytes),
            rest,
        );
        match op {
            RouterView::EvictCopy { tier: from, id, tiers } => {
                if let ActionView::Remove { path, .. } = a {
                    crate::tier::law_clear(tiers, from);
                    assert(w2.files == w.files);
                    assert(w2.files.contains_key(path));
                    assert(tiers.without(from).holds(Tier::S3));
                }
            },
            RouterView::EvictMark => {
                if let ActionView::SetTiers { id, tiers } = a {
                    let path = choose|path: Seq<char>|
                        {
                            &&& #[trigger] w.files.contains_key(path)
                            &&& w.files[path].id == id
                            &&& w.files[path].tiers.holds(Tier::S3)
                            &&& tiers.holds(Tier::S3)
                        };
                    assert forall|p: Seq<char>| #[trigger] w.files.contains_key(p) implies w2.files[p] == (MetaView {
                        tiers: w2.files[p].tiers,
                        ..w.files[p]
                    }) && w2.files[p].tiers.holds(Tier::S3) == w.files[p].tiers.holds(Tier::S3) by {
                        if w.files[p].id == id {
                            assert(p == path);
                        }
                    }
                }
            },
            _ => {},
        }
    }
}

proof fn lemma_cycle_keeps_s3(env: Env, k: nat, w: World, s: CycleView, a: ActionView, fuel: nat)
    requires
        w.indexed(),
        evicts_safely(w, s, a),
    ensures
        run_cycle(env, k, w, s, a, fuel) matches Some(w2) ==> s3_kept(w, w2),
    decreases fuel,
{
    if fuel > 0 {
        lemma_cycle_request(env, k, w, s, a);
        let (w1, e) = perform(env, k, w, a);
        match cycle_step(s, e, (env.clock)(k)) {
            CycleStepView::Done(_) => {},
            CycleStepView::Next(s2, a2) => {
                let less = (fuel - 1) as nat;
                lemma_cycle_keeps_s3(env, k + 1, w1, s2, a2, less);
                if let Some(w2) = run_cycle(env, k + 1, w1, s2, a2, less) {
                    lemma_s3_kept_chain(w, w1, w2);
                }
            },
        }
    }
}

/// The object store is never evicted: whatever files an eviction cycle has loaded, on
/// whatever tier, and whatever fails on the way, the object store holds what it held
/// when the cycle is over, and only files that it has have lost a copy.
pub proof fn law_eviction_keeps_s3(
    env: Env,
    k: nat,
    w: World,
    tier: Tier,
    target: u64,
    files: Seq<(MetaView, u64)>,
    fuel: nat,
)
    requires
        w.indexed(),
    ensures
        run_cycle_step(
            env,
            k,
            w,
            cycle_step(
                CycleView::Loading { tier, target },
                EventView::Ranked(Ok(files)),
                (env.clock)(k),
            ),
            fuel,
        ) matches Some(w2) ==> s3_kept(w, w2),
{
    let rest = crate::eviction::ranked(files);
    lemma_next_victim_is_safe(w, tier, target, 0, rest);
    match next_victim(tier, target, 0, rest) {
        CycleStepView::Done(_) => {},
        CycleStepView::Next(s, a) => {
            lemma_cycle_keeps_s3(env, k, w, s, a, fuel);
        },
    }
}

// ---------------------------------------------------------------------------
// Migration

/// A file that could be read is migrated, if no request fails: the object store has its
/// content under its path, its entry has the hash and the size that were found and the
/// tiers that have it, the report counts it, and the next file follows.
pub proof fn law_migrated_file(env: Env, k: nat, w: World, s: MigrationView, data: Seq<u8>, now: i64)
    requires
        healthy(env),
        s.stage == Stage::Reading,
    ensures
        migration_step(s, EventView::Data(Ok(data)), now) matches MigrateStepView::Next(s1, a1) && {
            let (w1, e1) = perform(env, k, w, a1);
            migration_step(s1, e1, (env.clock)(k)) matches MigrateStepView::Next(s2, a2) && {
                let (w2, e2) = perform(env, k + 1, w1, a2);
                let f = s.files[s.index]->0;
                &&& w2.s3 == w.s3.insert(s.path, data)
                &&& w2.local == w.local
                &&& w2.nas == w.nas
                &&& w2.files.contains_key(s.path)
                &&& w2.files[s.path].path == s.path
                &&& w2.files[s.path].kind == EntryKind::File
                &&& w2.files[s.path].modified_at == (env.clock)(k)
                &&& w2.files[s.path].accessed_at == (env.clock)(k)
                &&& w2.files[s.path].access_count_30d == 0
                &&& if w.files.contains_key(s.path) {
                    w2.files[s.path].id == w.files[s.path].id && w2.files[s.path].created_at
                        == w.files[s.path].created_at
                } else {
                    w2.files[s.path].created_at == (env.clock)(k)
                }
                &&& forall|q: Seq<char>|
                    q != s.path ==> #[trigger] w2.files.contains_key(q) == w.files.contains_key(q)
                        && w2.files[q] == w.files[q]
                &&& w2.wal == w.wal
                &&& w2.files[s.path].sha256 == f.sha256
                &&& w2.files[s.path].size_bytes == f.size_bytes
                &&& forall|t: Tier|
                    #[trigger] w2.files[s.path].tiers.holds(t) <==> t == f.tier || t == Tier::S3
                &&& migration_step(s2, e2, (env.clock)(k + 1)) == next_source(
                    s.files,
                    s.rest,
                    with_upload(s.report, f.size_bytes),
                )
            }
        },
{
    assert((env.faults)(k) is None);
    assert((env.faults)(k + 1) is None);
    let f = s.files[s.index]->0;
    let one = TierBitmask(0).with(f.tier);
    crate::tier::law_set(TierBitmask(0), f.tier);
    crate::tier::law_set(one, Tier::S3);
    assert forall|t: Tier| #[trigger] one.with(Tier::S3).holds(t) <==> t == f.tier || t == Tier::S3 by {
        crate::tier::law_none_and_all(t);
        assert(one.holds(t) == (t == f.tier));
    }
}

/// What is migrated is what is read: once a file that could be read has been migrated,
/// without a request that failed, its path reads as the bytes that were uploaded, unless
/// the tier on which it was found has something else there.
pub proof fn law_migrate_then_read(
    env: Env,
    k: nat,
    w: World,
    s: MigrationView,
    data: Seq<u8>,
    now: i64,
    later: Env,
    j: nat,
    fuel: nat,
)
    requires
        healthy(env),
        healthy(later),
        fuel >= 6,
        s.stage == Stage::Reading,
        s.files[s.index]->0.tier != Tier::S3 ==> (w.store(s.files[s.index]->0.tier).contains_key(s.path)
            ==> w.store(s.files[s.index]->0.tier)[s.path] == data),
    ensures
        migration_step(s, EventView::Data(Ok(data)), now) matches MigrateStepView::Next(s1, a1) && {
            let (w1, e1) = perform(env, k, w, a1);
            migration_step(s1, e1, (env.clock)(k)) matches MigrateStepView::Next(s2, a2) && {
                let (w2, e2) = perform(env, k + 1, w1, a2);
                &&& w2.files[s.path].kind == EntryKind::File
                &&& run_read(later, j, w2, s.path, fuel) matches Some(end) && end.result == Ok::<
                    ReplyView,
                    ErrorView,
                >(ReplyView::Data(data))
            }
        },
{
    law_migrated_file(env, k, w, s, data, now);
    let f = s.files[s.index]->0;
    let (s1, a1) = (
        migration_step(s, EventView::Data(Ok(data)), now)->Next_0,
        migration_step(s, EventView::Data(Ok(data)), now)->Next_1,
    );
    let (w1, e1) = perform(env, k, w, a1);
    let a2 = migration_step(s1, e1, (env.clock)(k))->Next_1;
    let w2 = perform(env, k + 1, w1, a2).0;
    crate::guarantees::law_read(later, j, w2, s.path, fuel);
    assert(w2.files[s.path].tiers.holds(Tier::S3));
    assert(w2.files[s.path].tiers.holds(Tier::Local) <==> f.tier == Tier::Local);
    assert(w2.files[s.path].tiers.holds(Tier::Nas) <==> f.tier == Tier::Nas);
    assert(w2.store(Tier::Local) == w.store(Tier::Local));
    assert(w2.store(Tier::Nas) == w.store(Tier::Nas));
}

/// A file that was found where a path lies below the directory of a tier is migrated to that
/// path, if it has no backslash: it is the next to be read.
pub proof fn law_migrated_to_its_path(
    files: Seq<Option<HashedView>>,
    rest: Seq<int>,
    report: MigrateReport,
    p: Seq<char>,
)
    requires
        rest.len() > 0,
        files[rest[0]] is Some,
        crate::path::valid_path(p),
        !p.contains('\\'),
        files[rest[0]]->0.rel == crate::text::trim_start(p, '/'),
    ensures
        next_source(files, rest, report) matches MigrateStepView::Next(s, a) && {
            &&& s.path == p
            &&& s.index == rest[0]
            &&& s.rest == rest.skip(1)
            &&& s.report == report
            &&& a == (ActionView::ReadSource { index: rest[0] as usize })
        },
{
    crate::local::law_found_is_shown(p);
    let text = crate::migrate::vfs_text(files[rest[0]]->0.rel);
    crate::path::law_normal_form_is_fixed(p);
    reveal_strlit("/");
    let rel = crate::text::trim_start(p, '/');
    crate::text::law_trim_start_takes_the_run(p, '/');
    crate::path::lemma_valid_path(p);
    assert forall|i: int| 0 <= i < rel.len() implies rel[i] != '\\' by {
        let n = p.len() - rel.len();
        assert(p[n + i] == rel[i]);
    }
    assert(crate::text::replace_char(rel, '\\', '/') =~= rel);
    assert(!text.contains('\0')) by {
        crate::path::lemma_path_has_no_null(p);
        assert forall|i: int| 0 <= i < text.len() implies text[i] != '\0' by {
            if i > 0 {
                let n = p.len() - rel.len();
                assert(p[n + i - 1] == text[i]);
            }
        }
    }
}

/// How a migration ends from one of its steps on, within `fuel` requests: the world then,
/// and the report. The file at a position reads as `sources` says; `None` is a file that
/// cannot be read.
pub open spec fn run_migrate(
    env: Env,
    sources: spec_fn(usize) -> Option<Seq<u8>>,
    k: nat,
    w: World,
    step: MigrateStepView,
    fuel: nat,
) -> Option<(World, MigrateReport)>
    decreases fuel,
{
    match step {
        MigrateStepView::Done(report) => Some((w, report)),
        MigrateStepView::Next(s, a) => if fuel == 0 {
            None
        } else {
            let (w2, e) = match a {
                ActionView::ReadSource { index } => match sources(index) {
                    Some(data) => (w, EventView::Data(Ok(data))),
                    None => (w, EventView::Data(Err(arbitrary()))),
                },
                _ => perform(env, k, w, a),
            };
            run_migrate(
                env,
                sources,
                k + 1,
                w2,
                migration_step(s, e, (env.clock)(k)),
                (fuel - 1) as nat,
            )
        },
    }
}

/// The file has been migrated: the object store has its content under its path, and its
/// entry is that of a file with the size and the hash that were found, on the tier on which
/// it was found and in the object store.
pub open spec fn migrated_well(w: World, f: HashedView, data: Seq<u8>, path: Seq<char>) -> bool {
    &&& w.s3.contains_key(path) && w.s3[path] == data
    &&& w.files.contains_key(path)
    &&& w.files[path].path == path
    &&& w.files[path].kind == EntryKind::File
    &&& w.files[path].size_bytes == f.size_bytes
    &&& w.files[path].sha256 == f.sha256
    &&& forall|t: Tier| #[trigger] w.files[path].tiers.holds(t) <==> t == f.tier || t == Tier::S3
}

/// Where the file at a position goes.
pub open spec fn destination(files: Seq<Option<HashedView>>, i: int) -> Seq<char> {
    crate::path::normal_form(crate::migrate::vfs_text(files[i]->0.rel))
}

/// The files at the positions have names that can be paths, different ones, and can be read.
pub open spec fn migratable(files: Seq<Option<HashedView>>, rest: Seq<int>, sources: spec_fn(usize) -> Option<Seq<u8>>) -> bool {
    &&& forall|i: int|
        0 <= i < rest.len() ==> crate::path::nameable(
            crate::migrate::vfs_text(files[#[trigger] rest[i]]->0.rel),
        ) && sources(rest[i] as usize) is Some
    &&& forall|i: int, j: int|
        0 <= i < j < rest.len() ==> destination(files, #[trigger] rest[i]) != destination(
            files,
            #[trigger] rest[j],
        )
}

/// No file at the positions goes to the path.
pub open spec fn spared(files: Seq<Option<HashedView>>, rest: Seq<int>, q: Seq<char>) -> bool {
    forall|i: int| 0 <= i < rest.len() ==> destination(files, #[trigger] rest[i]) != q
}

/// The entry of the path, and what the object store has there, are the same.
pub open spec fn same_at(w: World, w2: World, q: Seq<char>) -> bool {
    &&& w2.files.contains_key(q) == w.files.contains_key(q)
    &&& w2.files[q] == w.files[q]
    &&& w2.s3.contains_key(q) == w.s3.contains_key(q)
    &&& w2.s3[q] == w.s3[q]
}

/// A migration migrates every file that it is given: if all can be read, their names can be
/// paths, different ones, and no request fails, then in the end each of them has been
/// migrated, the report has no error more, and no other path was touched.
pub proof fn law_migration_migrates_all(
    env: Env,
    sources: spec_fn(usize) -> Option<Seq<u8>>,
    k: nat,
    w: World,
    files: Seq<Option<HashedView>>,
    rest: Seq<int>,
    report: MigrateReport,
    fuel: nat,
)
    requires
        healthy(env),
        migratable(files, rest, sources),
        fuel >= 3 * rest.len(),
    ensures
        run_migrate(env, sources, k, w, next_source(files, rest, report), fuel) matches Some(end) && {
            &&& end.1.errors == report.errors
            &&& forall|i: int|
                0 <= i < rest.len() ==> migrated_well(
                    end.0,
                    files[#[trigger] rest[i]]->0,
                    sources(rest[i] as usize)->0,
                    destination(files, rest[i]),
                )
            &&& end.0.local == w.local
            &&& end.0.nas == w.nas
            &&& forall|q: Seq<char>|
                spared(files, rest, q) ==> #[trigger] same_at(w, end.0, q)
        },
    decreases rest.len(),
{
    if rest.len() > 0 {
        let c = rest[0];
        let tail = rest.skip(1);
        let f = files[c]->0;
        let path = destination(files, c);
        let data = sources(c as usize)->0;
        let s = MigrationView {
            files,
            rest: tail,
            index: c,
            path,
            report,
            stage: Stage::Reading,
        };
        assert(next_source(files, rest, report) == MigrateStepView::Next(
            s,
            ActionView::ReadSource { index: c as usize },
        ));
        let now = (env.clock)(k);
        law_migrated_file(env, k + 1, w, s, data, now);
        let step1 = migration_step(s, EventView::Data(Ok(data)), now);
        let (s1, a1) = (step1->Next_0, step1->Next_1);
        let (w1, e1) = perform(env, k + 1, w, a1);
        let step2 = migration_step(s1, e1, (env.clock)(k + 1));
        let (s2, a2) = (step2->Next_0, step2->Next_1);
        let (w2, e2) = perform(env, k + 2, w1, a2);
        let more = with_upload(report, f.size_bytes);
        let less = (fuel - 3) as nat;
        let start = next_source(files, rest, report);
        assert(a1 is Put && a2 is Upsert);
        assert(run_migrate(env, sources, k, w, start, fuel) == run_migrate(
            env,
            sources,
            k + 1,
            w,
            step1,
            (fuel - 1) as nat,
        ));
        assert(run_migrate(env, sources, k + 1, w, step1, (fuel - 1) as nat) == run_migrate(
            env,
            sources,
            k + 2,
            w1,
            step2,
            (fuel - 2) as nat,
        ));
        assert(run_migrate(env, sources, k + 2, w1, step2, (fuel - 2) as nat) == run_migrate(
            env,
            sources,
            k + 3,
            w2,
            next_source(files, tail, more),
            less,
        ));
        assert(migrated_well(w2, f, data, path));
        assert forall|i: int| 0 <= i < tail.len() implies crate::path::nameable(
            crate::migrate::vfs_text(files[#[trigger] tail[i]]->0.rel),
        ) && sources(tail[i] as usize) is Some && destination(files, tail[i]) != path by {
            assert(tail[i] == rest[i + 1]);
            assert(destination(files, rest[0]) != destination(files, rest[i + 1]));
        }
        assert forall|i: int, j: int| 0 <= i < j < tail.len() implies destination(files, #[trigger] tail[i])
            != destination(files, #[trigger] tail[j]) by {
            assert(destination(files, rest[i + 1]) != destination(files, rest[j + 1]));
        }
        law_migration_migrates_all(env, sources, k + 3, w2, files, tail, more, less);
        let end = run_migrate(env, sources, k + 3, w2, next_source(files, tail, more), less)->0;
        assert(spared(files, tail, path));
        assert(same_at(w2, end.0, path));
        assert forall|i: int| 0 <= i < rest.len() implies migrated_well(
            end.0,
            files[#[trigger] rest[i]]->0,
            sources(rest[i] as usize)->0,
            destination(files, rest[i]),
        ) by {
            if i > 0 {
                assert(tail[i - 1] == rest[i]);
            }
        }
        assert forall|q: Seq<char>| spared(files, rest, q) implies #[trigger] same_at(w, end.0, q) by {
            assert(destination(files, rest[0]) != q);
            assert forall|i: int| 0 <= i < tail.len() implies destination(files, #[trigger] tail[i]) != q by {
                assert(destination(files, rest[i + 1]) != q);
            }
            assert(same_at(w2, end.0, q));
            assert(w2.files.contains_key(q) == w.files.contains_key(q));
        }
    }
}

} // verus!
