//! What the replay of the log and the flush to the object store do when requests fail.

use crate::action::ActionView;
use crate::action::EventView;
use crate::guarantees::only_accessed;
use crate::recovery::run_flush;
use crate::recovery::run_flush_step;
use crate::recovery::run_replay;
use crate::recovery::run_replay_step;
use crate::recovery::run_transfer;
use crate::recovery::run_whole_replay;
use crate::recovery::settled;
use crate::recovery::target;
use crate::router::RouterView;
use crate::s3_uploader::flush_step;
use crate::s3_uploader::next_upload;
use crate::s3_uploader::uploads;
use crate::s3_uploader::FlushStepView;
use crate::s3_uploader::FlushView;
use crate::s3_uploader::UploadPhase;
use crate::tier::Tier;
use crate::transfer::subject;
use crate::transfer::transfer_step;
use crate::transfer::TransferStepView;
use crate::transfer::TransferView;
use crate::types::MetaView;
use crate::types::WalOp;
use crate::types::WalView;
use crate::wal_replay::advance;
use crate::wal_replay::replay_step;
use crate::wal_replay::PhaseView;
use crate::wal_replay::ReplayStepView;
use crate::wal_replay::ReplayView;
use crate::wal_replay::BASE_DELAY_MS;
use crate::wal_replay::MAX_ATTEMPTS;
use crate::world::perform;
use crate::world::Env;
use crate::world::World;
use vstd::prelude::*;

verus! {

// ---------------------------------------------------------------------------
// Copies

/// The content can be copied from where it is: the local disk, or a tier in the mask of
/// the path, holds it there.
pub open spec fn source(w: World, p: Seq<char>, d: Seq<u8>) -> bool {
    exists|t: Tier|
        (t == Tier::Local || w.files[p].tiers.holds(t)) && #[trigger] w.store(t).contains_key(p)
            && w.store(t)[p] == d
}

/// The entries are those there were, with no tier less in their masks.
pub open spec fn entries_kept(w: World, w2: World) -> bool {
    &&& forall|p: Seq<char>| #[trigger] w2.files.contains_key(p) == w.files.contains_key(p)
    &&& forall|p: Seq<char>|
        #[trigger] w.files.contains_key(p) ==> w2.files[p] == (MetaView {
            accessed_at: w2.files[p].accessed_at,
            access_count_30d: w2.files[p].access_count_30d,
            tiers: w2.files[p].tiers,
            ..w.files[p]
        })
    &&& forall|p: Seq<char>, t: Tier|
        w.files.contains_key(p) && #[trigger] w.files[p].tiers.holds(t)
            ==> #[trigger] w2.files[p].tiers.holds(t)
}

/// From `w` to `w2` files were only copied between the tiers: the local disk is as it was,
/// no entry and no copy is gone, what a tier has got was somewhere to be copied from, and
/// a tier that is new in a mask has got a copy.
pub open spec fn only_copied(w: World, w2: World) -> bool {
    &&& w2.local == w.local
    &&& entries_kept(w, w2)
    &&& forall|t: Tier, p: Seq<char>|
        #[trigger] w.store(t).contains_key(p) ==> w2.store(t).contains_key(p)
    &&& forall|t: Tier, p: Seq<char>|
        #[trigger] w2.store(t).contains_key(p) ==> (w.store(t).contains_key(p) && w2.store(t)[p]
            == w.store(t)[p]) || (w.files.contains_key(p) && source(w, p, w2.store(t)[p]))
    &&& forall|p: Seq<char>, t: Tier|
        w.files.contains_key(p) && #[trigger] w2.files[p].tiers.holds(t) && !w.files[p].tiers.holds(t)
            ==> w2.store(t).contains_key(p) && source(w, p, w2.store(t)[p])
}

proof fn lemma_source_stays(w: World, w2: World, p: Seq<char>, d: Seq<u8>)
    requires
        only_copied(w, w2),
        w.files.contains_key(p),
        source(w2, p, d),
    ensures
        source(w, p, d),
{
    let t = choose|t: Tier|
        (t == Tier::Local || w2.files[p].tiers.holds(t)) && #[trigger] w2.store(t).contains_key(p)
            && w2.store(t)[p] == d;
    if t == Tier::Local {
        assert(w.store(t).contains_key(p) && w.store(t)[p] == d);
    } else if w.files[p].tiers.holds(t) {
        assert(w2.store(t).contains_key(p));
    }
}

proof fn lemma_only_copied_chain(a: World, b: World, c: World)
    requires
        only_copied(a, b),
        only_copied(b, c),
    ensures
        only_copied(a, c),
{
    assert forall|p: Seq<char>| #[trigger] c.files.contains_key(p) == a.files.contains_key(p) by {
        assert(b.files.contains_key(p) == a.files.contains_key(p));
    }
    assert forall|p: Seq<char>| #[trigger] a.files.contains_key(p) implies c.files[p] == (MetaView {
        accessed_at: c.files[p].accessed_at,
        access_count_30d: c.files[p].access_count_30d,
        tiers: c.files[p].tiers,
        ..a.files[p]
    }) by {
        assert(b.files.contains_key(p));
    }
    assert forall|p: Seq<char>, t: Tier|
        a.files.contains_key(p) && #[trigger] a.files[p].tiers.holds(t) implies #[trigger] c.files[p].tiers.holds(
        t,
    ) by {
        assert(b.files.contains_key(p));
        assert(b.files[p].tiers.holds(t));
    }
    assert forall|t: Tier, p: Seq<char>| #[trigger] a.store(t).contains_key(p) implies c.store(t).contains_key(
        p,
    ) by {
        assert(b.store(t).contains_key(p));
    }
    assert forall|t: Tier, p: Seq<char>| #[trigger] c.store(t).contains_key(p) implies (a.store(t).contains_key(p)
        && c.store(t)[p] == a.store(t)[p]) || (a.files.contains_key(p) && source(a, p, c.store(t)[p])) by {
        if b.store(t).contains_key(p) && c.store(t)[p] == b.store(t)[p] {
        } else {
            assert(b.files.contains_key(p));
            lemma_source_stays(a, b, p, c.store(t)[p]);
        }
    }
    assert forall|p: Seq<char>, t: Tier|
        a.files.contains_key(p) && #[trigger] c.files[p].tiers.holds(t) && !a.files[p].tiers.holds(t) implies c.store(
        t,
    ).contains_key(p) && source(a, p, c.store(t)[p]) by {
        assert(b.files.contains_key(p));
        if b.files[p].tiers.holds(t) {
            assert(b.store(t).contains_key(p) && source(a, p, b.store(t)[p]));
            assert(c.store(t).contains_key(p));
            if c.store(t)[p] != b.store(t)[p] {
                lemma_source_stays(a, b, p, c.store(t)[p]);
            }
        } else {
            lemma_source_stays(a, b, p, c.store(t)[p]);
        }
    }
}

/// Every tier in a mask has what the local disk has, as far as both have the file.
pub open spec fn copies_agree(w: World) -> bool {
    forall|p: Seq<char>, t: Tier|
        w.files.contains_key(p) && #[trigger] w.files[p].tiers.holds(t) && w.store(t).contains_key(p)
            && w.local.contains_key(p) ==> w.store(t)[p] == w.local[p]
}

/// What the log entry asks for is done in `w2`: the tier that it names is in the mask of
/// the file, and has got what could be copied in `w`. An entry about no file asks for
/// nothing.
pub open spec fn served(w: World, w2: World, e: WalView) -> bool {
    forall|p: Seq<char>|
        #[trigger] w.files.contains_key(p) && w.files[p].id == e.file_id ==> {
            &&& w2.files[p].tiers.holds(target(e.op))
            &&& w2.store(target(e.op)).contains_key(p)
            &&& source(w, p, w2.store(target(e.op))[p])
        }
}

/// What is done stays done, and counts from any world before.
proof fn lemma_served_stays(a: World, b: World, c: World, d: World, e: WalView)
    requires
        only_copied(a, b),
        only_copied(b, c),
        only_copied(c, d),
        served(b, c, e),
    ensures
        served(a, d, e),
{
    let t = target(e.op);
    assert forall|p: Seq<char>| #[trigger] a.files.contains_key(p) && a.files[p].id == e.file_id implies {
        &&& d.files[p].tiers.holds(t)
        &&& d.store(t).contains_key(p)
        &&& source(a, p, d.store(t)[p])
    } by {
        assert(b.files.contains_key(p));
        assert(c.files.contains_key(p));
        assert(c.files[p].tiers.holds(t));
        assert(c.store(t).contains_key(p));
        assert(d.store(t).contains_key(p));
        if d.store(t)[p] != c.store(t)[p] {
            lemma_source_stays(b, c, p, d.store(t)[p]);
        }
        lemma_source_stays(a, b, p, d.store(t)[p]);
    }
}

/// If the copies agreed, what is done is settled: the tier has what the local disk has.
proof fn lemma_served_is_settled(w: World, w2: World, e: WalView)
    requires
        only_copied(w, w2),
        served(w, w2, e),
        copies_agree(w),
    ensures
        settled(w2, e),
{
    let t = target(e.op);
    assert forall|p: Seq<char>| #[trigger] crate::recovery::about(w2, e, p) implies crate::recovery::copied(w2, t, p)
        && w2.files[p].tiers.holds(t) by {
        assert(w.files.contains_key(p));
        let d = w2.store(t)[p];
        let u = choose|u: Tier|
            (u == Tier::Local || w.files[p].tiers.holds(u)) && #[trigger] w.store(u).contains_key(p)
                && w.store(u)[p] == d;
        assert(d == w.local[p]);
    }
}

/// Copies do not change what an entry is about.
proof fn lemma_still_replayable(w: World, w2: World, e: WalView)
    requires
        only_copied(w, w2),
        crate::recovery::replayable(w, e),
    ensures
        crate::recovery::replayable(w2, e),
{
    if w2.has_id(e.file_id) {
        let q = choose|q: Seq<char>|
            #[trigger] w2.files.contains_key(q) && w2.files[q].id == e.file_id;
        assert(w.files.contains_key(q));
        let p = choose|p: Seq<char>| crate::recovery::about(w, e, p);
        assert(w.files.contains_key(p));
        assert(w.files[p].tiers.holds(Tier::Local));
        assert(w2.files[p].tiers.holds(Tier::Local));
        assert(crate::recovery::about(w2, e, p));
    }
}

// ---------------------------------------------------------------------------
// One transfer

/// The content has been put on the tier that the transfer is for, and nothing else has
/// changed but what is known of accesses.
spec fn landed(w0: World, w: World, op: WalOp, p: Seq<char>) -> bool {
    let t = target(op);
    &&& w.local == w0.local
    &&& w.wal == w0.wal
    &&& w.store(t).contains_key(p)
    &&& source(w0, p, w.store(t)[p])
    &&& w.store(t) == w0.store(t).insert(p, w.store(t)[p])
    &&& forall|u: Tier| u != t ==> #[trigger] w.store(u) == w0.store(u)
    &&& forall|q: Seq<char>| #[trigger] w.files.contains_key(q) == w0.files.contains_key(q)
    &&& forall|q: Seq<char>|
        #[trigger] w0.files.contains_key(q) ==> w.files[q] == (MetaView {
            accessed_at: w.files[q].accessed_at,
            access_count_30d: w.files[q].access_count_30d,
            ..w0.files[q]
        })
}

/// The request that is open fits the read.
spec fn reading(w0: World, p: Seq<char>, s: RouterView, a: ActionView) -> bool {
    let m = w0.files[p];
    match s {
        RouterView::ReadMeta { path } => path == p && a == (ActionView::Lookup { path: p }),
        RouterView::ReadLocal { path, id, tiers } => path == p && id == m.id && tiers == m.tiers && a == (
        ActionView::Get { tier: Tier::Local, path: p }),
        RouterView::ReadCold { path, id, from, tiers } => path == p && id == m.id && tiers == m.tiers
            && tiers.holds(from) && a == (ActionView::Get { tier: from, path: p }),
        RouterView::ReadPromote { id, data } => id == m.id && source(w0, p, data) && a is Promote,
        RouterView::ReadRecord { data } => source(w0, p, data) && a == (ActionView::RecordAccess {
            id: m.id,
        }),
        _ => false,
    }
}

/// The request that is open fits the transfer.
spec fn moving(w0: World, w: World, op: WalOp, p: Seq<char>, t: TransferView, a: ActionView) -> bool {
    let f = subject(w0.files[p]);
    match t {
        TransferView::FromLocal(g) => op == WalOp::ReplicateNas && g == f && only_accessed(w0, w) && a == (
        ActionView::Get { tier: Tier::Local, path: p }),
        TransferView::ToNas(g) => op == WalOp::ReplicateNas && g == f && only_accessed(w0, w) && (
        a matches ActionView::Put { tier, path, data } && tier == Tier::Nas && path == p && source(w0, p, data)),
        TransferView::Reading(g, s) => op == WalOp::UploadS3 && g == f && only_accessed(w0, w) && reading(
            w0,
            p,
            s,
            a,
        ),
        TransferView::ToS3(g) => op == WalOp::UploadS3 && g == f && only_accessed(w0, w) && (
        a matches ActionView::Put { tier, path, data } && tier == Tier::S3 && path == p && source(w0, p, data)),
        TransferView::Marking => landed(w0, w, op, p) && a == (ActionView::SetTiers {
            id: f.id,
            tiers: f.tiers.with(target(op)),
        }),
    }
}

/// What a transfer has done when it is over.
spec fn moved(w0: World, w: World, op: WalOp, p: Seq<char>, ok: bool) -> bool {
    &&& only_copied(w0, w)
    &&& w.indexed()
    &&& w.wal == w0.wal
    &&& ok ==> w.files[p].tiers.holds(target(op)) && w.store(target(op)).contains_key(p) && source(
        w0,
        p,
        w.store(target(op))[p],
    )
}

proof fn lemma_accessed_is_copied(w0: World, w: World)
    requires
        w0.indexed(),
        only_accessed(w0, w),
    ensures
        only_copied(w0, w),
        w.indexed(),
{
    assert forall|t: Tier| #[trigger] w.store(t) == w0.store(t) by {}
    assert forall|p: Seq<char>| #[trigger] w.files.contains_key(p) implies w.files[p].path == p by {
        assert(w0.files.contains_key(p));
    }
    assert forall|p: Seq<char>, q: Seq<char>|
        #[trigger] w.files.contains_key(p) && #[trigger] w.files.contains_key(q) && w.files[p].id
            == w.files[q].id implies p == q by {
        assert(w0.files.contains_key(p) && w0.files.contains_key(q));
    }
}

proof fn lemma_landed_is_copied(w0: World, w: World, op: WalOp, p: Seq<char>)
    requires
        w0.indexed(),
        w0.files.contains_key(p),
        landed(w0, w, op, p),
    ensures
        only_copied(w0, w),
        w.indexed(),
{
    assert forall|p: Seq<char>| #[trigger] w.files.contains_key(p) implies w.files[p].path == p by {
        assert(w0.files.contains_key(p));
    }
    assert forall|p: Seq<char>, q: Seq<char>|
        #[trigger] w.files.contains_key(p) && #[trigger] w.files.contains_key(q) && w.files[p].id
            == w.files[q].id implies p == q by {
        assert(w0.files.contains_key(p) && w0.files.contains_key(q));
    }
    assert forall|t: Tier, q: Seq<char>| #[trigger] w0.store(t).contains_key(q) implies w.store(t).contains_key(q) by {
        if t != target(op) {
            assert(w.store(t) == w0.store(t));
        }
    }
    assert forall|t: Tier, q: Seq<char>| #[trigger] w.store(t).contains_key(q) implies (w0.store(t).contains_key(q)
        && w.store(t)[q] == w0.store(t)[q]) || (w0.files.contains_key(q) && source(w0, q, w.store(t)[q])) by {
        if t != target(op) {
            assert(w.store(t) == w0.store(t));
        }
    }
}

/// The mark that ends a transfer.
proof fn lemma_marked(env: Env, k: nat, w0: World, w: World, op: WalOp, p: Seq<char>)
    requires
        w0.indexed(),
        w0.files.contains_key(p),
        landed(w0, w, op, p),
    ensures
        ({
            let a = ActionView::SetTiers {
                id: w0.files[p].id,
                tiers: w0.files[p].tiers.with(target(op)),
            };
            moved(w0, perform(env, k, w, a).0, op, p, (env.faults)(k) is None)
        }),
{
    let t = target(op);
    let tiers = w0.files[p].tiers.with(t);
    let a = ActionView::SetTiers { id: w0.files[p].id, tiers };
    let w2 = perform(env, k, w, a).0;
    lemma_landed_is_copied(w0, w, op, p);
    crate::tier::law_set(w0.files[p].tiers, t);
    assert((env.faults)(k) is None || (env.faults)(k) is Some);
    if (env.faults)(k) is None {
        assert forall|u: Tier| #[trigger] w2.store(u) == w.store(u) by {}
        assert forall|q: Seq<char>| #[trigger] w2.files.contains_key(q) == w0.files.contains_key(q) by {
            assert(w.files.contains_key(q) == w0.files.contains_key(q));
        }
        assert forall|q: Seq<char>| #[trigger] w0.files.contains_key(q) implies w2.files[q] == (MetaView {
            accessed_at: w2.files[q].accessed_at,
            access_count_30d: w2.files[q].access_count_30d,
            tiers: w2.files[q].tiers,
            ..w0.files[q]
        }) && w2.files[q].tiers == (if q == p {
            tiers
        } else {
            w0.files[q].tiers
        }) by {
            assert(w.files.contains_key(q));
            if w.files[q].id == w0.files[p].id {
                assert(q == p);
            }
        }
        assert forall|q: Seq<char>, u: Tier|
            w0.files.contains_key(q) && #[trigger] w0.files[q].tiers.holds(u) implies #[trigger] w2.files[q].tiers.holds(
            u,
        ) by {
            assert(tiers.holds(u) == (u == t || w0.files[p].tiers.holds(u)));
        }
        assert forall|q: Seq<char>, u: Tier|
            w0.files.contains_key(q) && #[trigger] w2.files[q].tiers.holds(u) && !w0.files[q].tiers.holds(u) implies w2.store(
            u,
        ).contains_key(q) && source(w0, q, w2.store(u)[q]) by {
            assert(tiers.holds(u) == (u == t || w0.files[p].tiers.holds(u)));
        }
        assert(tiers.holds(t));
        assert forall|q: Seq<char>| #[trigger] w2.files.contains_key(q) implies w2.files[q].path == q by {
            assert(w0.files.contains_key(q));
        }
        assert forall|q: Seq<char>, r: Seq<char>|
            #[trigger] w2.files.contains_key(q) && #[trigger] w2.files.contains_key(r) && w2.files[q].id
                == w2.files[r].id implies q == r by {
            assert(w0.files.contains_key(q) && w0.files.contains_key(r));
        }
        assert forall|u: Tier, q: Seq<char>| #[trigger] w2.store(u).contains_key(q) implies (w0.store(u).contains_key(
            q,
        ) && w2.store(u)[q] == w0.store(u)[q]) || (w0.files.contains_key(q) && source(w0, q, w2.store(u)[q])) by {
            assert(w.store(u).contains_key(q));
        }
    }
}

proof fn lemma_read_moves(env: Env, k: nat, w0: World, w: World, p: Seq<char>, s: RouterView, a: ActionView)
    requires
        w0.indexed(),
        w0.files.contains_key(p),
        only_accessed(w0, w),
        reading(w0, p, s, a),
    ensures
        ({
            let (w2, e) = perform(env, k, w, a);
            &&& only_accessed(w0, w2)
            &&& match crate::router::router_step(s, e, (env.clock)(k)) {
                crate::router::StepView::Next(s2, a2) => reading(w0, p, s2, a2),
                crate::router::StepView::Done(Ok(crate::router::ReplyView::Data(data))) => source(
                    w0,
                    p,
                    data,
                ),
                crate::router::StepView::Done(Ok(_)) => false,
                crate::router::StepView::Done(Err(_)) => true,
            }
        }),
{
    assert((env.faults)(k) is None || (env.faults)(k) is Some);
    let (w2, e) = perform(env, k, w, a);
    assert(w.files.contains_key(p));
    assert(w.files[p].tiers == w0.files[p].tiers);
    assert forall|q: Seq<char>| #[trigger] w2.files.contains_key(q) == w0.files.contains_key(q) by {
        assert(w.files.contains_key(q) == w0.files.contains_key(q));
    }
    assert forall|q: Seq<char>| #[trigger] w0.files.contains_key(q) implies w2.files[q] == (MetaView {
        accessed_at: w2.files[q].accessed_at,
        access_count_30d: w2.files[q].access_count_30d,
        ..w0.files[q]
    }) by {
        assert(w.files.contains_key(q));
    }
    if let ActionView::Get { tier, path } = a {
        if (env.faults)(k) is None && w.store(tier).contains_key(p) {
            assert(w0.store(tier).contains_key(p) && w0.store(tier)[p] == w.store(tier)[p]);
            assert(source(w0, p, w.store(tier)[p]));
        }
    }
}

proof fn lemma_moving_step(
    env: Env,
    k: nat,
    w0: World,
    w: World,
    op: WalOp,
    p: Seq<char>,
    t: TransferView,
    a: ActionView,
)
    requires
        w0.indexed(),
        w0.files.contains_key(p),
        moving(w0, w, op, p, t, a),
    ensures
        ({
            let (w2, e) = perform(env, k, w, a);
            match transfer_step(t, e, (env.clock)(k)) {
                TransferStepView::Next(t2, a2) => moving(w0, w2, op, p, t2, a2),
                TransferStepView::Done(r) => moved(w0, w2, op, p, r is Ok),
            }
        }),
{
    assert((env.faults)(k) is None || (env.faults)(k) is Some);
    let (w2, e) = perform(env, k, w, a);
    assert(w0.files[p].path == p);
    match t {
        TransferView::FromLocal(_) => {
            lemma_accessed_is_copied(w0, w2);
            if (env.faults)(k) is None && w.local.contains_key(p) {
                assert(w0.store(Tier::Local).contains_key(p));
                assert(source(w0, p, w.local[p]));
            }
        },
        TransferView::ToNas(_) => {
            if (env.faults)(k) is None {
                assert(w2.store(Tier::Nas) =~= w0.store(Tier::Nas).insert(p, w2.store(Tier::Nas)[p]));
                assert(landed(w0, w2, op, p));
            } else {
                lemma_accessed_is_copied(w0, w2);
            }
        },
        TransferView::Reading(_, s) => {
            lemma_read_moves(env, k, w0, w, p, s, a);
            lemma_accessed_is_copied(w0, w2);
        },
        TransferView::ToS3(_) => {
            if (env.faults)(k) is None {
                assert(w2.store(Tier::S3) =~= w0.store(Tier::S3).insert(p, w2.store(Tier::S3)[p]));
                assert(landed(w0, w2, op, p));
            } else {
                lemma_accessed_is_copied(w0, w2);
            }
        },
        TransferView::Marking => {
            lemma_marked(env, k, w0, w, op, p);
        },
    }
}

proof fn lemma_moving_run(
    env: Env,
    k: nat,
    w0: World,
    w: World,
    op: WalOp,
    p: Seq<char>,
    t: TransferView,
    a: ActionView,
    fuel: nat,
)
    requires
        w0.indexed(),
        w0.files.contains_key(p),
        moving(w0, w, op, p, t, a),
    ensures
        run_transfer(env, k, w, t, a, fuel) matches Some(end) ==> moved(
            w0,
            end.world,
            op,
            p,
            end.result is Ok,
        ),
    decreases fuel,
{
    if fuel > 0 {
        lemma_moving_step(env, k, w0, w, op, p, t, a);
        let (w2, e) = perform(env, k, w, a);
        if let TransferStepView::Next(t2, a2) = transfer_step(t, e, (env.clock)(k)) {
            lemma_moving_run(env, k + 1, w0, w2, op, p, t2, a2, (fuel - 1) as nat);
        }
    }
}

/// A transfer is over within nine requests, and has only copied, whatever fails.
proof fn lemma_transfer(env: Env, k: nat, w: World, op: WalOp, p: Seq<char>)
    requires
        w.indexed(),
        w.files.contains_key(p),
    ensures
        run_transfer(
            env,
            k,
            w,
            crate::transfer::transfer_start(op, w.files[p]),
            crate::transfer::transfer_request(op, w.files[p]),
            9,
        ) matches Some(end) && moved(w, end.world, op, p, end.result is Ok),
{
    let t = crate::transfer::transfer_start(op, w.files[p]);
    let a = crate::transfer::transfer_request(op, w.files[p]);
    crate::recovery::law_transfer(env, k, w, op, p, 9);
    assert(w.files[p].path == p);
    assert(moving(w, w, op, p, t, a));
    lemma_moving_run(env, k, w, w, op, p, t, a, 9);
}

// ---------------------------------------------------------------------------
// The log

/// No two entries of the log have the same id.
pub open spec fn distinct(wal: Seq<WalView>) -> bool {
    forall|i: int, j: int| 0 <= i < j < wal.len() ==> (#[trigger] wal[i]).id != (#[trigger] wal[j]).id
}

/// The log has an entry with the id.
pub open spec fn on_log(wal: Seq<WalView>, id: i64) -> bool {
    exists|i: int| 0 <= i < wal.len() && (#[trigger] wal[i]).id == id
}

/// The entry of the log with the id, if there is one.
pub open spec fn logged(wal: Seq<WalView>, id: i64) -> Option<WalView> {
    if on_log(wal, id) {
        Some(wal[choose|i: int| 0 <= i < wal.len() && (#[trigger] wal[i]).id == id])
    } else {
        None
    }
}

proof fn lemma_logged(wal: Seq<WalView>, i: int)
    requires
        distinct(wal),
        0 <= i < wal.len(),
    ensures
        logged(wal, wal[i].id) == Some(wal[i]),
{
    let id = wal[i].id;
    assert(on_log(wal, id));
    let j = choose|j: int| 0 <= j < wal.len() && (#[trigger] wal[j]).id == id;
    if i < j {
        assert(wal[i].id != wal[j].id);
    } else if j < i {
        assert(wal[j].id != wal[i].id);
    }
}

/// The logs have the same entries but for the one with the id.
pub open spec fn others_kept(a: Seq<WalView>, b: Seq<WalView>, id: i64) -> bool {
    &&& distinct(b)
    &&& forall|x: i64| x != id ==> #[trigger] logged(b, x) == logged(a, x)
}

/// Filtering by the id leaves a log whose entries are those of the other ids.
proof fn lemma_filtered(wal: Seq<WalView>, id: i64)
    requires
        distinct(wal),
    ensures
        distinct(crate::world::without_wal(wal, id)),
        !on_log(crate::world::without_wal(wal, id), id),
        forall|i: int|
            0 <= i < wal.len() && (#[trigger] wal[i]).id != id ==> crate::world::without_wal(wal, id).contains(
                wal[i],
            ),
        forall|i: int|
            0 <= i < crate::world::without_wal(wal, id).len() ==> wal.contains(
                #[trigger] crate::world::without_wal(wal, id)[i],
            ),
    decreases wal.len(),
{
    let keep = |e: WalView| e.id != id;
    let b = crate::world::without_wal(wal, id);
    reveal(Seq::filter);
    if wal.len() > 0 {
        let front = wal.drop_last();
        let c = crate::world::without_wal(front, id);
        assert forall|i: int, j: int| 0 <= i < j < front.len() implies (#[trigger] front[i]).id != (
        #[trigger] front[j]).id by {
            assert(wal[i].id != wal[j].id);
        }
        lemma_filtered(front, id);
        assert forall|i: int| 0 <= i < c.len() implies wal.contains(#[trigger] c[i]) && c[i].id != wal.last().id by {
            assert(front.contains(c[i]));
            let n = choose|n: int| 0 <= n < front.len() && front[n] == c[i];
            assert(wal[n] == c[i]);
            assert(wal[n].id != wal[wal.len() - 1].id);
        }
        if wal.last().id != id {
            assert(b == c.push(wal.last()));
            assert(b[c.len() as int] == wal.last());
        } else {
            assert(b == c);
        }
        assert forall|i: int| 0 <= i < wal.len() && (#[trigger] wal[i]).id != id implies b.contains(wal[i]) by {
            if i < front.len() {
                assert(front[i] == wal[i]);
                assert(c.contains(front[i]));
                let n = choose|n: int| 0 <= n < c.len() && c[n] == front[i];
                assert(b[n] == wal[i]);
            } else {
                assert(b[b.len() - 1] == wal[i]);
            }
        }
        assert forall|i: int| 0 <= i < b.len() implies wal.contains(#[trigger] b[i]) by {
            if i < c.len() {
                assert(b[i] == c[i]);
            } else {
                assert(wal[wal.len() - 1] == b[i]);
            }
        }
        if on_log(b, id) {
            let i = choose|i: int| 0 <= i < b.len() && (#[trigger] b[i]).id == id;
            assert(i < c.len());
            assert(c[i].id == id);
            assert(on_log(c, id));
        }
    }
}

proof fn lemma_completed(wal: Seq<WalView>, id: i64)
    requires
        distinct(wal),
    ensures
        others_kept(wal, crate::world::without_wal(wal, id), id),
        logged(crate::world::without_wal(wal, id), id) is None,
{
    let b = crate::world::without_wal(wal, id);
    lemma_filtered(wal, id);
    assert forall|x: i64| x != id implies #[trigger] logged(b, x) == logged(wal, x) by {
        if on_log(wal, x) {
            let i = choose|i: int| 0 <= i < wal.len() && (#[trigger] wal[i]).id == x;
            lemma_logged(wal, i);
            assert(b.contains(wal[i]));
            let n = choose|n: int| 0 <= n < b.len() && b[n] == wal[i];
            lemma_logged(b, n);
        } else if on_log(b, x) {
            let n = choose|n: int| 0 <= n < b.len() && (#[trigger] b[n]).id == x;
            assert(wal.contains(b[n]));
            let i = choose|i: int| 0 <= i < wal.len() && wal[i] == b[n];
            assert(wal[i].id == x);
        }
    }
}

/// The log entry after one failed attempt more.
pub open spec fn failed_once(e: WalView, error: Seq<char>) -> WalView {
    WalView { attempts: (e.attempts + 1) as u32, last_error: Some(error), ..e }
}

proof fn lemma_recorded(env: Env, k: nat, w: World, id: i64, error: Seq<char>)
    requires
        distinct(w.wal),
        (env.faults)(k) is None,
    ensures
        ({
            let b = perform(env, k, w, ActionView::WalRecordFailure { id, error }).0.wal;
            &&& others_kept(w.wal, b, id)
            &&& logged(w.wal, id) matches Some(x) ==> logged(b, id) == Some(failed_once(x, error))
        }),
{
    let b = perform(env, k, w, ActionView::WalRecordFailure { id, error }).0.wal;
    assert(b.len() == w.wal.len());
    assert forall|i: int| 0 <= i < b.len() implies #[trigger] b[i] == (if w.wal[i].id == id {
        failed_once(w.wal[i], error)
    } else {
        w.wal[i]
    }) by {}
    assert forall|i: int, j: int| 0 <= i < j < b.len() implies (#[trigger] b[i]).id != (#[trigger] b[j]).id by {
        assert(w.wal[i].id != w.wal[j].id);
    }
    assert forall|x: i64| x != id implies #[trigger] logged(b, x) == logged(w.wal, x) by {
        if on_log(w.wal, x) {
            let i = choose|i: int| 0 <= i < w.wal.len() && (#[trigger] w.wal[i]).id == x;
            lemma_logged(w.wal, i);
            assert(b[i] == w.wal[i]);
            lemma_logged(b, i);
        } else if on_log(b, x) {
            let i = choose|i: int| 0 <= i < b.len() && (#[trigger] b[i]).id == x;
            assert(w.wal[i].id == x);
        }
    }
    if on_log(w.wal, id) {
        let i = choose|i: int| 0 <= i < w.wal.len() && (#[trigger] w.wal[i]).id == id;
        lemma_logged(w.wal, i);
        assert(b[i].id == id);
        lemma_logged(b, i);
    }
}

// ---------------------------------------------------------------------------
// Flushing

/// None of the requests from the `from`-th on, up to the `to`-th, fails.
pub open spec fn quiet(env: Env, from: nat, to: nat) -> bool {
    forall|k: nat| from <= k < to ==> #[trigger] (env.faults)(k) is None
}

proof fn lemma_only_copied_same(w: World)
    requires
        w.indexed(),
    ensures
        only_copied(w, w),
{
    lemma_accessed_is_copied(w, w);
}

/// A transfer of a file that the local disk has succeeds if none of its requests fails.
proof fn lemma_quiet_transfer(env: Env, k: nat, w: World, e: WalView, p: Seq<char>)
    requires
        w.indexed(),
        crate::recovery::about(w, e, p),
        quiet(env, k, k + 5),
    ensures
        run_transfer(
            env,
            k,
            w,
            crate::transfer::transfer_start(e.op, w.files[p]),
            crate::transfer::transfer_request(e.op, w.files[p]),
            5,
        ) matches Some(end) && end.result is Ok,
{
    let m = w.files[p];
    let f = subject(m);
    let data = w.local[p];
    assert(m.path == p);
    assert((env.faults)(k) is None && (env.faults)(k + 1) is None && (env.faults)(k + 2) is None);
    assert((env.faults)(k + 3) is None && (env.faults)(k + 4) is None);
    match e.op {
        WalOp::ReplicateNas => {
            reveal_with_fuel(run_transfer, 4);
        },
        WalOp::UploadS3 => {
            let s0 = TransferView::Reading(f, RouterView::ReadMeta { path: p });
            let s1 = TransferView::Reading(
                f,
                RouterView::ReadLocal { path: p, id: m.id, tiers: m.tiers },
            );
            let s2 = TransferView::Reading(f, RouterView::ReadRecord { data });
            let a0 = ActionView::Lookup { path: p };
            let a1 = ActionView::Get { tier: Tier::Local, path: p };
            let a2 = ActionView::RecordAccess { id: m.id };
            let a3 = ActionView::Put { tier: Tier::S3, path: p, data };
            let w1 = perform(env, k + 2, w, a2).0;
            assert(run_transfer(env, k, w, s0, a0, 5) == run_transfer(env, k + 1, w, s1, a1, 4));
            assert(run_transfer(env, k + 1, w, s1, a1, 4) == run_transfer(env, k + 2, w, s2, a2, 3));
            assert(run_transfer(env, k + 2, w, s2, a2, 3) == run_transfer(
                env,
                k + 3,
                w1,
                TransferView::ToS3(f),
                a3,
                2,
            ));
            let w2 = perform(env, k + 3, w1, a3).0;
            let a4 = ActionView::SetTiers { id: f.id, tiers: f.tiers.with(Tier::S3) };
            assert(run_transfer(env, k + 3, w1, TransferView::ToS3(f), a3, 2) == run_transfer(
                env,
                k + 4,
                w2,
                TransferView::Marking,
                a4,
                1,
            ));
        },
    }
}

/// How a transfer ends does not depend on how many requests it might have made.
proof fn lemma_transfer_within(env: Env, k: nat, w: World, t: TransferView, a: ActionView, fuel: nat, more: nat)
    requires
        fuel <= more,
        run_transfer(env, k, w, t, a, fuel) is Some,
    ensures
        run_transfer(env, k, w, t, a, more) == run_transfer(env, k, w, t, a, fuel),
    decreases fuel,
{
    let (w2, e) = perform(env, k, w, a);
    if let TransferStepView::Next(t2, a2) = transfer_step(t, e, (env.clock)(k)) {
        lemma_transfer_within(env, k + 1, w2, t2, a2, (fuel - 1) as nat, (more - 1) as nat);
    }
}

/// The turn of one upload in a flush: the requests from the `first`-th on up to the `next`-th
/// are made for it.
pub struct UploadTurn {
    pub first: nat,
    pub next: nat,
    pub world: World,
}

/// A flush leaves the upload at hand with this answer.
pub open spec fn passes_on(s: FlushView, e: EventView) -> bool {
    match s {
        FlushView::Loading => false,
        FlushView::Working { phase, .. } => match phase {
            UploadPhase::Finding => !(e matches EventView::Meta(Ok(_))),
            UploadPhase::Moving(_) => false,
            UploadPhase::Settling => true,
        },
    }
}

/// The turn of the upload at hand in a flush that has come to `s`, and makes the request `a`
/// as the `k`-th, if it is over within `fuel` requests.
pub open spec fn run_upload(env: Env, first: nat, k: nat, w: World, s: FlushView, a: ActionView, fuel: nat) -> Option<
    UploadTurn,
>
    decreases fuel,
{
    if fuel == 0 {
        None
    } else {
        let (w2, e) = perform(env, k, w, a);
        if passes_on(s, e) {
            Some(UploadTurn { first, next: k + 1, world: w2 })
        } else {
            match flush_step(s, e, (env.clock)(k)) {
                FlushStepView::Done => None,
                FlushStepView::Next(s2, a2) => run_upload(
                    env,
                    first,
                    k + 1,
                    w2,
                    s2,
                    a2,
                    (fuel - 1) as nat,
                ),
            }
        }
    }
}

/// The turn of the first of the uploads.
pub open spec fn upload_turn(env: Env, k: nat, w: World, rest: Seq<WalView>) -> UploadTurn {
    run_upload(
        env,
        k,
        k,
        w,
        FlushView::Working { rest: rest.skip(1), entry: rest[0], phase: UploadPhase::Finding },
        ActionView::LookupId { id: rest[0].file_id },
        11,
    )->0
}

/// The turns of the uploads, one after the other.
pub open spec fn upload_turns(env: Env, k: nat, w: World, rest: Seq<WalView>) -> Seq<UploadTurn>
    decreases rest.len(),
{
    if rest.len() == 0 {
        Seq::empty()
    } else {
        let t = upload_turn(env, k, w, rest);
        seq![t] + upload_turns(env, t.next, t.world, rest.skip(1))
    }
}

/// After a turn the flush goes on with the next upload.
proof fn lemma_upload_then_next(
    env: Env,
    first: nat,
    k: nat,
    w: World,
    s: FlushView,
    a: ActionView,
    steps: nat,
    fuel: nat,
)
    requires
        s is Working,
        run_upload(env, first, k, w, s, a, steps) is Some,
        fuel >= steps,
    ensures
        ({
            let t = run_upload(env, first, k, w, s, a, steps)->0;
            &&& k < t.next <= k + steps
            &&& t.first == first
            &&& run_flush(env, k, w, s, a, fuel) == run_flush_step(
                env,
                t.next,
                t.world,
                next_upload(s->rest),
                (fuel - (t.next - k)) as nat,
            )
        }),
    decreases steps,
{
    let (w2, e) = perform(env, k, w, a);
    if !passes_on(s, e) {
        match flush_step(s, e, (env.clock)(k)) {
            FlushStepView::Done => {},
            FlushStepView::Next(s2, a2) => {
                assert(s2 is Working && s2->rest == s->rest);
                lemma_upload_then_next(
                    env,
                    first,
                    k + 1,
                    w2,
                    s2,
                    a2,
                    (steps - 1) as nat,
                    (fuel - 1) as nat,
                );
            },
        }
    }
}

/// In its turn an upload goes as the transfer does by itself, and then settles.
proof fn lemma_upload_moves(
    env: Env,
    first: nat,
    k: nat,
    w: World,
    rest: Seq<WalView>,
    e: WalView,
    t: TransferView,
    a: ActionView,
    steps: nat,
    fuel: nat,
) -> (n: nat)
    requires
        run_transfer(env, k, w, t, a, steps) is Some,
        fuel >= steps,
    ensures
        n <= steps,
        run_upload(
            env,
            first,
            k,
            w,
            FlushView::Working { rest, entry: e, phase: UploadPhase::Moving(t) },
            a,
            fuel,
        ) == run_upload(
            env,
            first,
            k + n,
            run_transfer(env, k, w, t, a, steps)->0.world,
            FlushView::Working { rest, entry: e, phase: UploadPhase::Settling },
            verdict(e, run_transfer(env, k, w, t, a, steps)->0.result),
            (fuel - n) as nat,
        ),
    decreases steps,
{
    let (w2, ev) = perform(env, k, w, a);
    match transfer_step(t, ev, (env.clock)(k)) {
        TransferStepView::Next(t2, a2) => {
            let n = lemma_upload_moves(
                env,
                first,
                k + 1,
                w2,
                rest,
                e,
                t2,
                a2,
                (steps - 1) as nat,
                (fuel - 1) as nat,
            );
            n + 1
        },
        TransferStepView::Done(_) => 1,
    }
}

/// The request with which the end of a transfer is noted in the log.
spec fn verdict(e: WalView, r: Result<(), crate::error::ErrorView>) -> ActionView {
    match r {
        Ok(_) => ActionView::WalComplete { id: e.id },
        Err(x) => ActionView::WalRecordFailure { id: e.id, error: crate::error::error_text(x) },
    }
}

/// How an upload of the log stands in `w2` after a flush from `w` on in which it had the
/// turn: it is off the log and done; or on it with one failed attempt more; or on it as it
/// was, and then the last request of its turn failed.
pub open spec fn flushed(env: Env, t: UploadTurn, w: World, w2: World, e: WalView) -> bool {
    match logged(w2.wal, e.id) {
        None => served(w, w2, e),
        Some(x) => {
            ||| x.last_error matches Some(error) && x == failed_once(e, error)
            ||| x == e && (env.faults)((t.next - 1) as nat) is Some
        },
    }
}

/// A file by its id.
proof fn lemma_found(w: World, id: i64) -> (p: Seq<char>)
    requires
        w.indexed(),
        w.has_id(id),
    ensures
        w.files.contains_key(p),
        w.files[p].id == id,
        w.by_id(id) == Some(w.files[p]),
        forall|q: Seq<char>| #[trigger] w.files.contains_key(q) && w.files[q].id == id ==> q == p,
{
    let p = w.path_of(id);
    assert(w.files.contains_key(p) && w.files[p].id == id);
    p
}

/// Noting in the log how a transfer went.
proof fn lemma_noted(env: Env, k: nat, w: World, e: WalView, x: WalView, r: Result<(), crate::error::ErrorView>)
    requires
        w.indexed(),
        distinct(w.wal),
        logged(w.wal, e.id) == Some(x),
    ensures
        ({
            let w2 = perform(env, k, w, verdict(e, r)).0;
            &&& w2 == (World { wal: w2.wal, ..w })
            &&& only_copied(w, w2)
            &&& w2.indexed()
            &&& others_kept(w.wal, w2.wal, e.id)
            &&& (env.faults)(k) is Some ==> w2 == w
            &&& (env.faults)(k) is None ==> match r {
                Ok(_) => logged(w2.wal, e.id) is None,
                Err(y) => logged(w2.wal, e.id) == Some(
                    failed_once(x, crate::error::error_text(y)),
                ),
            }
        }),
{
    let w2 = perform(env, k, w, verdict(e, r)).0;
    assert((env.faults)(k) is None || (env.faults)(k) is Some);
    if (env.faults)(k) is None {
        match r {
            Ok(_) => {
                lemma_completed(w.wal, e.id);
            },
            Err(y) => {
                lemma_recorded(env, k, w, e.id, crate::error::error_text(y));
            },
        }
    }
    lemma_same_files_copied(w, w2);
}

/// The log does not count among the copies.
proof fn lemma_same_files_copied(w: World, w2: World)
    requires
        w.indexed(),
        w2 == (World { wal: w2.wal, ..w }),
    ensures
        only_copied(w, w2),
        w2.indexed(),
{
    assert forall|t: Tier| #[trigger] w2.store(t) == w.store(t) by {}
    assert(w2.files == w.files);
}

/// What the turn of an upload has done when it is over.
spec fn upload_over(env: Env, t: UploadTurn, w: World, e: WalView) -> bool {
    &&& only_copied(w, t.world)
    &&& t.world.indexed()
    &&& others_kept(w.wal, t.world.wal, e.id)
    &&& flushed(env, t, w, t.world, e)
    &&& quiet(env, t.first, t.first + 7) && crate::recovery::replayable(w, e) ==> logged(
        t.world.wal,
        e.id,
    ) is None
}

/// The turn of an upload is over within eleven requests.
proof fn lemma_upload_turn(env: Env, k: nat, w: World, rest: Seq<WalView>)
    requires
        w.indexed(),
        distinct(w.wal),
        rest.len() > 0,
        crate::s3_uploader::uploadable(rest[0]),
        logged(w.wal, rest[0].id) == Some(rest[0]),
    ensures
        run_upload(
            env,
            k,
            k,
            w,
            FlushView::Working { rest: rest.skip(1), entry: rest[0], phase: UploadPhase::Finding },
            ActionView::LookupId { id: rest[0].file_id },
            11,
        ) matches Some(t) && t.first == k && upload_over(env, t, w, rest[0]),
{
    let e = rest[0];
    let tail = rest.skip(1);
    let look = ActionView::LookupId { id: e.file_id };
    let finding = FlushView::Working { rest: tail, entry: e, phase: UploadPhase::Finding };
    let settling = FlushView::Working { rest: tail, entry: e, phase: UploadPhase::Settling };
    lemma_only_copied_same(w);
    assert((env.faults)(k) is None || (env.faults)(k) is Some);
    assert(quiet(env, k, k + 7) ==> (env.faults)(k) is None && (env.faults)(k + 1) is None);
    if (env.faults)(k) is Some {
        let t = UploadTurn { first: k, next: k + 1, world: w };
        assert(run_upload(env, k, k, w, finding, look, 11) == Some(t));
    } else if !w.has_id(e.file_id) {
        let done = Ok::<(), crate::error::ErrorView>(());
        lemma_noted(env, k + 1, w, e, e, done);
        let w1 = perform(env, k + 1, w, verdict(e, done)).0;
        assert((env.faults)(k + 1) is None || (env.faults)(k + 1) is Some);
        assert(run_upload(env, k, k, w, finding, look, 11) == run_upload(
            env,
            k,
            k + 1,
            w,
            settling,
            verdict(e, done),
            10,
        ));
        let t = UploadTurn { first: k, next: k + 2, world: w1 };
        assert(run_upload(env, k, k + 1, w, settling, verdict(e, done), 10) == Some(t));
        assert(served(w, w1, e)) by {
            assert forall|p: Seq<char>| #[trigger] w.files.contains_key(p) && w.files[p].id == e.file_id implies false by {
                assert(w.has_id(e.file_id));
            }
        }
    } else {
        let p = lemma_found(w, e.file_id);
        let m = w.files[p];
        let t = crate::transfer::transfer_start(WalOp::UploadS3, m);
        let a = crate::transfer::transfer_request(WalOp::UploadS3, m);
        lemma_transfer(env, k + 1, w, WalOp::UploadS3, p);
        let end = run_transfer(env, k + 1, w, t, a, 9)->0;
        let straight = quiet(env, k, k + 7) && crate::recovery::replayable(w, e);
        if straight {
            let q = choose|q: Seq<char>| crate::recovery::about(w, e, q);
            assert(q == p);
            lemma_quiet_transfer(env, k + 1, w, e, p);
            lemma_transfer_within(env, k + 1, w, t, a, 5, 9);
        }
        let steps: nat = if straight {
            5
        } else {
            9
        };
        let n = lemma_upload_moves(env, k, k + 1, w, tail, e, t, a, steps, 10);
        let j = k + 1 + n;
        let moving_on = FlushView::Working { rest: tail, entry: e, phase: UploadPhase::Moving(t) };
        assert(run_upload(env, k, k, w, finding, look, 11) == run_upload(env, k, k + 1, w, moving_on, a, 10));
        lemma_noted(env, j, end.world, e, e, end.result);
        let w1 = perform(env, j, end.world, verdict(e, end.result)).0;
        let turn = UploadTurn { first: k, next: j + 1, world: w1 };
        assert(run_upload(env, k, j, end.world, settling, verdict(e, end.result), (10 - n) as nat) == Some(
            turn,
        ));
        lemma_only_copied_chain(w, end.world, w1);
        assert((env.faults)(j) is None || (env.faults)(j) is Some);
        if end.result is Ok {
            assert(served(w, w1, e));
        }
    }
}

/// What is said of an upload at the end of its turn is true at the end of the flush.
proof fn lemma_flushed_stays(env: Env, t: UploadTurn, a: World, b: World, c: World, d: World, e: WalView)
    requires
        only_copied(a, b),
        only_copied(b, c),
        only_copied(c, d),
        logged(d.wal, e.id) == logged(c.wal, e.id),
        flushed(env, t, b, c, e),
    ensures
        flushed(env, t, a, d, e),
{
    if logged(d.wal, e.id) is None {
        lemma_served_stays(a, b, c, d, e);
    }
}

/// How every upload stands after a flush in which the uploads had these turns.
pub open spec fn flushed_by_turns(env: Env, ts: Seq<UploadTurn>, w: World, w2: World, rest: Seq<WalView>) -> bool {
    &&& ts.len() == rest.len()
    &&& forall|i: int|
        0 <= i < rest.len() ==> {
            let e = #[trigger] rest[i];
            &&& flushed(env, ts[i], w, w2, e)
            &&& quiet(env, ts[i].first, ts[i].first + 7) && crate::recovery::replayable(w, e) ==> logged(
                w2.wal,
                e.id,
            ) is None
        }
}

/// The turn of the first upload and then those of the others are the turns of all.
proof fn lemma_uploads_join(
    env: Env,
    t: UploadTurn,
    ts: Seq<UploadTurn>,
    w: World,
    w2: World,
    rest: Seq<WalView>,
)
    requires
        rest.len() > 0,
        w.indexed(),
        w2.indexed(),
        only_copied(t.world, w2),
        logged(w2.wal, rest[0].id) == logged(t.world.wal, rest[0].id),
        upload_over(env, t, w, rest[0]),
        flushed_by_turns(env, ts, t.world, w2, rest.skip(1)),
    ensures
        flushed_by_turns(env, seq![t] + ts, w, w2, rest),
{
    let tail = rest.skip(1);
    let all = seq![t] + ts;
    lemma_only_copied_same(w);
    lemma_only_copied_same(w2);
    assert forall|i: int| 0 <= i < rest.len() implies {
        let e = #[trigger] rest[i];
        &&& flushed(env, all[i], w, w2, e)
        &&& quiet(env, all[i].first, all[i].first + 7) && crate::recovery::replayable(w, e) ==> logged(
            w2.wal,
            e.id,
        ) is None
    } by {
        let e = rest[i];
        if i == 0 {
            lemma_flushed_stays(env, t, w, w, t.world, w2, e);
        } else {
            assert(tail[i - 1] == e && all[i] == ts[i - 1]);
            lemma_flushed_stays(env, ts[i - 1], w, t.world, w2, w2, e);
            if crate::recovery::replayable(w, e) {
                lemma_still_replayable(w, t.world, e);
            }
        }
    }
}

proof fn lemma_flush_rest(env: Env, k: nat, w: World, rest: Seq<WalView>, fuel: nat)
    requires
        w.indexed(),
        distinct(w.wal),
        distinct(rest),
        forall|i: int|
            0 <= i < rest.len() ==> crate::s3_uploader::uploadable(#[trigger] rest[i]) && logged(
                w.wal,
                rest[i].id,
            ) == Some(rest[i]),
        fuel >= 11 * rest.len(),
    ensures
        run_flush_step(env, k, w, next_upload(rest), fuel) matches Some(w2) && {
            &&& only_copied(w, w2)
            &&& w2.indexed()
            &&& distinct(w2.wal)
            &&& flushed_by_turns(env, upload_turns(env, k, w, rest), w, w2, rest)
            &&& forall|id: i64|
                !on_log(rest, id) ==> #[trigger] logged(w2.wal, id) == logged(w.wal, id)
        },
    decreases rest.len(),
{
    lemma_only_copied_same(w);
    if rest.len() > 0 {
        let e = rest[0];
        let tail = rest.skip(1);
        let t = upload_turn(env, k, w, rest);
        let finding = FlushView::Working { rest: tail, entry: e, phase: UploadPhase::Finding };
        let look = ActionView::LookupId { id: e.file_id };
        assert(crate::s3_uploader::uploadable(e) && logged(w.wal, e.id) == Some(e));
        lemma_upload_turn(env, k, w, rest);
        lemma_upload_then_next(env, k, k, w, finding, look, 11, fuel);
        let w1 = t.world;
        let less = (fuel - (t.next - k)) as nat;
        assert forall|i: int| 0 <= i < tail.len() implies crate::s3_uploader::uploadable(#[trigger] tail[i])
            && logged(w1.wal, tail[i].id) == Some(tail[i]) && tail[i].id != e.id by {
            assert(tail[i] == rest[i + 1]);
            assert(rest[0].id != rest[i + 1].id);
        }
        assert forall|i: int, j: int| 0 <= i < j < tail.len() implies (#[trigger] tail[i]).id != (
        #[trigger] tail[j]).id by {
            assert(rest[i + 1].id != rest[j + 1].id);
        }
        lemma_flush_rest(env, t.next, w1, tail, less);
        let w2 = run_flush_step(env, t.next, w1, next_upload(tail), less)->0;
        assert(!on_log(tail, e.id));
        lemma_uploads_join(env, t, upload_turns(env, t.next, w1, tail), w, w2, rest);
        lemma_only_copied_chain(w, w1, w2);
        assert forall|id: i64| !on_log(rest, id) implies #[trigger] logged(w2.wal, id) == logged(w.wal, id) by {
            assert(rest[0].id != id);
            if on_log(tail, id) {
                let i = choose|i: int| 0 <= i < tail.len() && (#[trigger] tail[i]).id == id;
                assert(rest[i + 1].id == id);
            }
            assert(logged(w1.wal, id) == logged(w.wal, id));
        }
    }
}

/// The uploads of a log are entries of it, each once.
proof fn lemma_uploads(wal: Seq<WalView>)
    requires
        distinct(wal),
    ensures
        distinct(uploads(wal)),
        forall|i: int|
            0 <= i < uploads(wal).len() ==> crate::s3_uploader::uploadable(#[trigger] uploads(wal)[i])
                && wal.contains(uploads(wal)[i]),
    decreases wal.len(),
{
    let kept = uploads(wal);
    reveal(Seq::filter);
    if wal.len() > 0 {
        let front = wal.drop_last();
        let c = uploads(front);
        assert forall|i: int, j: int| 0 <= i < j < front.len() implies (#[trigger] front[i]).id != (
        #[trigger] front[j]).id by {
            assert(wal[i].id != wal[j].id);
        }
        lemma_uploads(front);
        assert forall|i: int| 0 <= i < c.len() implies wal.contains(#[trigger] c[i]) && c[i].id != wal.last().id by {
            assert(front.contains(c[i]));
            let n = choose|n: int| 0 <= n < front.len() && front[n] == c[i];
            assert(wal[n] == c[i]);
            assert(wal[n].id != wal[wal.len() - 1].id);
        }
        assert(wal.contains(wal[wal.len() - 1]));
        if crate::s3_uploader::uploadable(wal.last()) {
            assert(kept == c.push(wal.last()));
        } else {
            assert(kept == c);
        }
    }
}

/// A flush is over within a bound on the length of the log, whatever fails, and one upload
/// that fails does not stop the others: every upload has its turn, and is then off the log
/// and done, or still on it with one failed attempt more, or on it as it was because the
/// last request of its turn failed. An upload is off the log if none of the seven requests
/// from its turn on fails and the local disk has the file, whatever becomes of the others.
/// What is off the log is settled if the copies agreed. All other entries of the log are
/// as they were, no new one is there, and files were only copied. If the log cannot be
/// loaded, nothing is done.
pub proof fn law_flush_whatever_fails(env: Env, k: nat, w: World, fuel: nat)
    requires
        w.indexed(),
        distinct(w.wal),
        fuel >= 11 * w.wal.len() + 1,
    ensures
        run_flush(env, k, w, FlushView::Loading, ActionView::WalPending, fuel) matches Some(w2) && {
            let rest = uploads(w.wal);
            &&& only_copied(w, w2)
            &&& distinct(w2.wal)
            &&& (env.faults)(k) is Some ==> w2 == w
            &&& (env.faults)(k) is None ==> flushed_by_turns(
                env,
                upload_turns(env, k + 1, w, rest),
                w,
                w2,
                rest,
            )
            &&& copies_agree(w) ==> forall|i: int|
                0 <= i < rest.len() && logged(w2.wal, (#[trigger] rest[i]).id) is None ==> settled(
                    w2,
                    rest[i],
                )
            &&& forall|i: int|
                0 <= i < w.wal.len() && !crate::s3_uploader::uploadable(#[trigger] w.wal[i]) ==> logged(
                    w2.wal,
                    w.wal[i].id,
                ) == Some(w.wal[i])
            &&& forall|id: i64| #[trigger] on_log(w2.wal, id) ==> on_log(w.wal, id)
        },
{
    let keep = |e: WalView| crate::s3_uploader::uploadable(e);
    let rest = uploads(w.wal);
    lemma_only_copied_same(w);
    lemma_uploads(w.wal);
    assert forall|i: int| 0 <= i < w.wal.len() implies logged(w.wal, (#[trigger] w.wal[i]).id) == Some(w.wal[i]) by {
        lemma_logged(w.wal, i);
    }
    assert forall|i: int| 0 <= i < rest.len() implies crate::s3_uploader::uploadable(#[trigger] rest[i])
        && logged(w.wal, rest[i].id) == Some(rest[i]) by {
        assert(w.wal.contains(rest[i]));
        let j = choose|j: int| 0 <= j < w.wal.len() && w.wal[j] == rest[i];
        assert(logged(w.wal, w.wal[j].id) == Some(w.wal[j]));
    }
    assert((env.faults)(k) is None || (env.faults)(k) is Some);
    if (env.faults)(k) is None {
        let less = (fuel - 1) as nat;
        w.wal.lemma_filter_len(keep);
        lemma_flush_rest(env, k + 1, w, rest, less);
        let end = run_flush_step(env, k + 1, w, next_upload(rest), less);
        assert(run_flush(env, k, w, FlushView::Loading, ActionView::WalPending, fuel) == end);
        let w2 = end->0;
        let ts = upload_turns(env, k + 1, w, rest);
        if copies_agree(w) {
            assert forall|i: int| 0 <= i < rest.len() && logged(w2.wal, (#[trigger] rest[i]).id) is None implies settled(
                w2,
                rest[i],
            ) by {
                assert(flushed(env, ts[i], w, w2, rest[i]));
                lemma_served_is_settled(w, w2, rest[i]);
            }
        }
        assert forall|i: int| 0 <= i < w.wal.len() && !crate::s3_uploader::uploadable(#[trigger] w.wal[i]) implies logged(
            w2.wal,
            w.wal[i].id,
        ) == Some(w.wal[i]) by {
            if on_log(rest, w.wal[i].id) {
                let j = choose|j: int| 0 <= j < rest.len() && (#[trigger] rest[j]).id == w.wal[i].id;
                assert(logged(w.wal, rest[j].id) == Some(rest[j]));
            }
        }
        assert forall|id: i64| #[trigger] on_log(w2.wal, id) implies on_log(w.wal, id) by {
            if on_log(rest, id) {
                let j = choose|j: int| 0 <= j < rest.len() && (#[trigger] rest[j]).id == id;
                assert(logged(w.wal, rest[j].id) == Some(rest[j]));
            } else {
                assert(logged(w2.wal, id) == logged(w.wal, id));
            }
        }
    }
}

// ---------------------------------------------------------------------------
// Replaying

/// How a replay leaves an entry of the log.
pub enum Fate {
    /// What it asks for is done, and it was to be taken off the log.
    Settled,
    /// Ten attempts on it have failed.
    GivenUp,
    /// Its file could not be looked up.
    Left,
}

/// The turn of one entry in a replay: the requests from the `first`-th on up to the
/// `next`-th are made for it.
pub struct Turn {
    pub first: nat,
    pub next: nat,
    pub world: World,
    pub fate: Fate,
}

/// Whether a replay leaves the entry at hand with this answer, and how.
pub open spec fn leaves(s: ReplayView, e: EventView) -> Option<Fate> {
    match s {
        ReplayView::Loading => None,
        ReplayView::Working { attempt, phase, .. } => match (phase, e) {
            (PhaseView::Finding, EventView::Meta(Ok(_))) => None,
            (PhaseView::Finding, _) => Some(Fate::Left),
            (PhaseView::Completing, _) => Some(Fate::Settled),
            (PhaseView::Pausing, _) => if attempt >= MAX_ATTEMPTS {
                Some(Fate::GivenUp)
            } else {
                None
            },
            _ => None,
        },
    }
}

/// The turn of the entry at hand in a replay that has come to `s`, and makes the request `a`
/// as the `k`-th, if it is over within `fuel` requests.
pub open spec fn run_turn(env: Env, first: nat, k: nat, w: World, s: ReplayView, a: ActionView, fuel: nat) -> Option<
    Turn,
>
    decreases fuel,
{
    if fuel == 0 {
        None
    } else {
        let (w2, e) = perform(env, k, w, a);
        match leaves(s, e) {
            Some(fate) => Some(Turn { first, next: k + 1, world: w2, fate }),
            None => match replay_step(s, e, (env.clock)(k)) {
                ReplayStepView::Done => None,
                ReplayStepView::Next(s2, a2) => run_turn(
                    env,
                    first,
                    k + 1,
                    w2,
                    s2,
                    a2,
                    (fuel - 1) as nat,
                ),
            },
        }
    }
}

/// The turn of the first of the entries. One that was given up before has none.
pub open spec fn turn_of(env: Env, k: nat, w: World, rest: Seq<WalView>) -> Turn {
    let e = rest[0];
    if e.attempts >= MAX_ATTEMPTS {
        Turn { first: k, next: k, world: w, fate: Fate::GivenUp }
    } else {
        run_turn(
            env,
            k,
            k,
            w,
            attempt_on(rest.skip(1), e, e.attempts, BASE_DELAY_MS, PhaseView::Finding),
            ActionView::LookupId { id: e.file_id },
            120,
        )->0
    }
}

/// The turns of the entries, one after the other.
pub open spec fn turns(env: Env, k: nat, w: World, rest: Seq<WalView>) -> Seq<Turn>
    decreases rest.len(),
{
    if rest.len() == 0 {
        Seq::empty()
    } else {
        let t = turn_of(env, k, w, rest);
        seq![t] + turns(env, t.next, t.world, rest.skip(1))
    }
}

/// A replay at work on an entry.
pub open spec fn attempt_on(rest: Seq<WalView>, entry: WalView, attempt: u32, delay: u64, phase: PhaseView) -> ReplayView {
    ReplayView::Working { rest, entry, attempt, delay, phase }
}

/// After a turn the replay goes on with the next entry.
proof fn lemma_turn_then_next(
    env: Env,
    first: nat,
    k: nat,
    w: World,
    s: ReplayView,
    a: ActionView,
    steps: nat,
    fuel: nat,
)
    requires
        s is Working,
        run_turn(env, first, k, w, s, a, steps) is Some,
        fuel >= steps,
    ensures
        ({
            let t = run_turn(env, first, k, w, s, a, steps)->0;
            &&& k < t.next <= k + steps
            &&& t.first == first
            &&& run_replay(env, k, w, s, a, fuel) == run_replay_step(
                env,
                t.next,
                t.world,
                advance(s->rest),
                (fuel - (t.next - k)) as nat,
            )
        }),
    decreases steps,
{
    let (w2, e) = perform(env, k, w, a);
    if leaves(s, e) is None {
        match replay_step(s, e, (env.clock)(k)) {
            ReplayStepView::Done => {},
            ReplayStepView::Next(s2, a2) => {
                assert(s2 is Working && s2->rest == s->rest);
                lemma_turn_then_next(
                    env,
                    first,
                    k + 1,
                    w2,
                    s2,
                    a2,
                    (steps - 1) as nat,
                    (fuel - 1) as nat,
                );
            },
        }
    }
}

/// In a turn a transfer goes as it does by itself.
proof fn lemma_turn_moves(
    env: Env,
    first: nat,
    k: nat,
    w: World,
    rest: Seq<WalView>,
    e: WalView,
    attempt: u32,
    delay: u64,
    t: TransferView,
    a: ActionView,
    steps: nat,
    fuel: nat,
) -> (n: nat)
    requires
        run_transfer(env, k, w, t, a, steps) is Some,
        fuel >= steps,
    ensures
        n <= steps,
        ({
            let end = run_transfer(env, k, w, t, a, steps)->0;
            let phase = if end.result is Ok {
                PhaseView::Completing
            } else {
                PhaseView::Recording
            };
            run_turn(
                env,
                first,
                k,
                w,
                attempt_on(rest, e, attempt, delay, PhaseView::Moving(t)),
                a,
                fuel,
            ) == run_turn(
                env,
                first,
                k + n,
                end.world,
                attempt_on(rest, e, attempt, delay, phase),
                verdict(e, end.result),
                (fuel - n) as nat,
            )
        }),
    decreases steps,
{
    let (w2, ev) = perform(env, k, w, a);
    match transfer_step(t, ev, (env.clock)(k)) {
        TransferStepView::Next(t2, a2) => {
            let n = lemma_turn_moves(
                env,
                first,
                k + 1,
                w2,
                rest,
                e,
                attempt,
                delay,
                t2,
                a2,
                (steps - 1) as nat,
                (fuel - 1) as nat,
            );
            n + 1
        },
        TransferStepView::Done(_) => 1,
    }
}

/// The log entry with some failed attempts more, or none.
pub open spec fn retried(e: WalView, x: WalView) -> bool {
    &&& x == (WalView { attempts: x.attempts, last_error: x.last_error, ..e })
    &&& e.attempts <= x.attempts
}

/// How an entry of the log stands in `w2` after a replay from `w` on in which it had the
/// turn: if it is settled, what it asks for is done, and it is off the log unless that very
/// request failed; if it was given up, it is on the log, with ten attempts unless requests
/// failed; if it was left, it is on the log and the request for its file failed.
pub open spec fn fared(env: Env, t: Turn, w: World, w2: World, e: WalView) -> bool {
    let last = (t.next - 1) as nat;
    match t.fate {
        Fate::Settled => served(w, w2, e) && match logged(w2.wal, e.id) {
            None => true,
            Some(x) => (env.faults)(last) is Some && retried(e, x) && x.attempts < 10,
        },
        Fate::GivenUp => logged(w2.wal, e.id) matches Some(x) && retried(e, x) && x.attempts <= 10 && (
        quiet(env, t.first, t.next) ==> x.attempts == 10),
        Fate::Left => (env.faults)(last) is Some && (logged(w2.wal, e.id) matches Some(x) && retried(e, x)
            && x.attempts < 10),
    }
}

/// What a turn has done when it is over.
spec fn turn_over(env: Env, t: Turn, w: World, e: WalView) -> bool {
    &&& only_copied(w, t.world)
    &&& t.world.indexed()
    &&& others_kept(w.wal, t.world.wal, e.id)
    &&& fared(env, t, w, t.world, e)
}

proof fn lemma_others_kept_chain(a: Seq<WalView>, b: Seq<WalView>, c: Seq<WalView>, id: i64)
    requires
        others_kept(a, b, id),
        others_kept(b, c, id),
    ensures
        others_kept(a, c, id),
{
    assert forall|x: i64| x != id implies #[trigger] logged(c, x) == logged(a, x) by {
        assert(logged(b, x) == logged(a, x));
    }
}

/// The attempts on an entry, from one of them on: the turn is over within twelve requests for
/// each attempt that is left.
#[verifier::spinoff_prover]
#[verifier::rlimit(40)]
proof fn lemma_turn(
    env: Env,
    first: nat,
    k: nat,
    w0: World,
    w: World,
    rest: Seq<WalView>,
    e: WalView,
    x: WalView,
    attempt: u32,
    delay: u64,
    fuel: nat,
)
    requires
        first <= k,
        only_copied(w0, w),
        w.indexed(),
        distinct(w.wal),
        others_kept(w0.wal, w.wal, e.id),
        logged(w.wal, e.id) == Some(x),
        retried(e, x),
        x.attempts <= attempt < 10,
        quiet(env, first, k) ==> x.attempts == attempt,
        fuel >= 12 * (10 - attempt),
    ensures
        run_turn(
            env,
            first,
            k,
            w,
            attempt_on(rest, e, attempt, delay, PhaseView::Finding),
            ActionView::LookupId { id: e.file_id },
            fuel,
        ) matches Some(t) && turn_over(env, t, w0, e),
    decreases 10 - attempt,
{
    let look = ActionView::LookupId { id: e.file_id };
    let finding = attempt_on(rest, e, attempt, delay, PhaseView::Finding);
    let completing = attempt_on(rest, e, attempt, delay, PhaseView::Completing);
    let less = (fuel - 1) as nat;
    lemma_only_copied_same(w);
    assert((env.faults)(k) is None || (env.faults)(k) is Some);
    if (env.faults)(k) is Some {
        let t = Turn { first, next: k + 1, world: w, fate: Fate::Left };
        assert(run_turn(env, first, k, w, finding, look, fuel) == Some(t));
    } else if !w.has_id(e.file_id) {
        let done = Ok::<(), crate::error::ErrorView>(());
        assert(run_turn(env, first, k, w, finding, look, fuel) == run_turn(
            env,
            first,
            k + 1,
            w,
            completing,
            verdict(e, done),
            less,
        ));
        lemma_settles(env, first, k + 1, w0, w, w, rest, e, x, attempt, delay, less);
    } else {
        let p = lemma_found(w, e.file_id);
        let m = w.files[p];
        let t = crate::transfer::transfer_start(e.op, m);
        let a = crate::transfer::transfer_request(e.op, m);
        lemma_transfer(env, k + 1, w, e.op, p);
        let end = run_transfer(env, k + 1, w, t, a, 9)->0;
        let n = lemma_turn_moves(env, first, k + 1, w, rest, e, attempt, delay, t, a, 9, less);
        let j = k + 1 + n;
        let left = (less - n) as nat;
        assert(run_turn(env, first, k, w, finding, look, fuel) == run_turn(
            env,
            first,
            k + 1,
            w,
            attempt_on(rest, e, attempt, delay, PhaseView::Moving(t)),
            a,
            less,
        ));
        lemma_only_copied_chain(w0, w, end.world);
        if end.result is Ok {
            assert(served(w, end.world, e));
            lemma_settles(
                env,
                first,
                j,
                w0,
                w,
                end.world,
                rest,
                e,
                x,
                attempt,
                delay,
                left,
            );
        } else {
            let w1 = lemma_fails(
                env,
                first,
                j,
                w0,
                end.world,
                rest,
                e,
                x,
                attempt,
                delay,
                end.result,
                left,
            );
            if attempt + 1 < 10 {
                let y = logged(w1.wal, e.id)->0;
                lemma_turn(
                    env,
                    first,
                    j + 2,
                    w0,
                    w1,
                    rest,
                    e,
                    y,
                    (attempt + 1) as u32,
                    crate::wal_replay::longer(delay),
                    (left - 2) as nat,
                );
            }
        }
    }
}

/// A failed attempt: it is noted, and after a wait the next one is made, or the entry is given
/// up.
proof fn lemma_fails(
    env: Env,
    first: nat,
    j: nat,
    w0: World,
    w: World,
    rest: Seq<WalView>,
    e: WalView,
    x: WalView,
    attempt: u32,
    delay: u64,
    r: Result<(), crate::error::ErrorView>,
    fuel: nat,
) -> (w1: World)
    requires
        first <= j,
        r is Err,
        only_copied(w0, w),
        w.indexed(),
        distinct(w.wal),
        others_kept(w0.wal, w.wal, e.id),
        logged(w.wal, e.id) == Some(x),
        retried(e, x),
        x.attempts <= attempt < 10,
        quiet(env, first, j) ==> x.attempts == attempt,
        fuel >= 2,
    ensures
        only_copied(w0, w1),
        w1.indexed(),
        distinct(w1.wal),
        others_kept(w0.wal, w1.wal, e.id),
        logged(w1.wal, e.id) matches Some(y) && retried(e, y) && y.attempts <= attempt + 1 && (quiet(
            env,
            first,
            j + 2,
        ) ==> y.attempts == attempt + 1),
        run_turn(
            env,
            first,
            j,
            w,
            attempt_on(rest, e, attempt, delay, PhaseView::Recording),
            verdict(e, r),
            fuel,
        ) == (if attempt + 1 < 10 {
            run_turn(
                env,
                first,
                j + 2,
                w1,
                attempt_on(
                    rest,
                    e,
                    (attempt + 1) as u32,
                    crate::wal_replay::longer(delay),
                    PhaseView::Finding,
                ),
                ActionView::LookupId { id: e.file_id },
                (fuel - 2) as nat,
            )
        } else {
            Some(Turn { first, next: j + 2, world: w1, fate: Fate::GivenUp })
        }),
{
    let recording = attempt_on(rest, e, attempt, delay, PhaseView::Recording);
    lemma_noted(env, j, w, e, x, r);
    let w1 = perform(env, j, w, verdict(e, r)).0;
    let pausing = attempt_on(rest, e, (attempt + 1) as u32, delay, PhaseView::Pausing);
    let sleep = ActionView::Sleep { millis: delay };
    assert(run_turn(env, first, j, w, recording, verdict(e, r), fuel) == run_turn(
        env,
        first,
        j + 1,
        w1,
        pausing,
        sleep,
        (fuel - 1) as nat,
    ));
    assert((env.faults)(j) is None || (env.faults)(j) is Some);
    assert((env.faults)(j + 1) is None || (env.faults)(j + 1) is Some);
    assert(perform(env, j + 1, w1, sleep).0 == w1);
    lemma_only_copied_chain(w0, w, w1);
    lemma_others_kept_chain(w0.wal, w.wal, w1.wal, e.id);
    assert(quiet(env, first, j + 2) ==> quiet(env, first, j) && (env.faults)(j) is None);
    w1
}

proof fn lemma_others_kept_same(wal: Seq<WalView>, id: i64)
    requires
        distinct(wal),
    ensures
        others_kept(wal, wal, id),
{
}

/// The end of the turn of an entry whose transfer went well, or whose file is gone.
proof fn lemma_settles(
    env: Env,
    first: nat,
    k: nat,
    w0: World,
    w: World,
    w1: World,
    rest: Seq<WalView>,
    e: WalView,
    x: WalView,
    attempt: u32,
    delay: u64,
    fuel: nat,
)
    requires
        only_copied(w0, w),
        only_copied(w, w1),
        w1.indexed(),
        w1.wal == w.wal,
        distinct(w.wal),
        others_kept(w0.wal, w.wal, e.id),
        logged(w.wal, e.id) == Some(x),
        retried(e, x),
        x.attempts < 10,
        !w.has_id(e.file_id) || served(w, w1, e),
        fuel >= 1,
    ensures
        run_turn(
            env,
            first,
            k,
            w1,
            attempt_on(rest, e, attempt, delay, PhaseView::Completing),
            ActionView::WalComplete { id: e.id },
            fuel,
        ) matches Some(t) && turn_over(env, t, w0, e) && t.fate is Settled && t.next == k + 1 && (
        (env.faults)(k) is None ==> logged(t.world.wal, e.id) is None),
{
    let done = Ok::<(), crate::error::ErrorView>(());
    lemma_noted(env, k, w1, e, x, done);
    let w2 = perform(env, k, w1, verdict(e, done)).0;
    assert((env.faults)(k) is None || (env.faults)(k) is Some);
    assert(served(w, w1, e)) by {
        assert forall|p: Seq<char>|
            #[trigger] w.files.contains_key(p) && w.files[p].id == e.file_id && !w.has_id(e.file_id) implies false by {}
    }
    lemma_served_stays(w0, w, w1, w2, e);
    lemma_only_copied_chain(w0, w, w1);
    lemma_only_copied_chain(w0, w1, w2);
    lemma_others_kept_chain(w0.wal, w.wal, w2.wal, e.id);
    let t = Turn { first, next: k + 1, world: w2, fate: Fate::Settled };
    assert(run_turn(
        env,
        first,
        k,
        w1,
        attempt_on(rest, e, attempt, delay, PhaseView::Completing),
        ActionView::WalComplete { id: e.id },
        fuel,
    ) == Some(t));
}

/// An entry whose requests do not fail, and whose file the local disk has, is settled at the
/// first attempt.
proof fn lemma_quiet_turn(env: Env, k: nat, w: World, rest: Seq<WalView>, e: WalView, attempt: u32, delay: u64, fuel: nat)
    requires
        w.indexed(),
        distinct(w.wal),
        logged(w.wal, e.id) == Some(e),
        e.attempts < 10,
        crate::recovery::replayable(w, e),
        quiet(env, k, k + 7),
        fuel >= 7,
    ensures
        run_turn(
            env,
            k,
            k,
            w,
            attempt_on(rest, e, attempt, delay, PhaseView::Finding),
            ActionView::LookupId { id: e.file_id },
            fuel,
        ) matches Some(t) && t.fate is Settled && logged(t.world.wal, e.id) is None,
{
    let look = ActionView::LookupId { id: e.file_id };
    let finding = attempt_on(rest, e, attempt, delay, PhaseView::Finding);
    let completing = attempt_on(rest, e, attempt, delay, PhaseView::Completing);
    let less = (fuel - 1) as nat;
    lemma_only_copied_same(w);
    lemma_others_kept_same(w.wal, e.id);
    assert((env.faults)(k) is None && (env.faults)(k + 1) is None);
    if !w.has_id(e.file_id) {
        assert(run_turn(env, k, k, w, finding, look, fuel) == run_turn(
            env,
            k,
            k + 1,
            w,
            completing,
            ActionView::WalComplete { id: e.id },
            less,
        ));
        lemma_settles(env, k, k + 1, w, w, w, rest, e, e, attempt, delay, less);
    } else {
        let p = lemma_found(w, e.file_id);
        let m = w.files[p];
        let t = crate::transfer::transfer_start(e.op, m);
        let a = crate::transfer::transfer_request(e.op, m);
        let q = choose|q: Seq<char>| crate::recovery::about(w, e, q);
        assert(q == p);
        lemma_quiet_transfer(env, k + 1, w, e, p);
        lemma_transfer_within(env, k + 1, w, t, a, 5, 9);
        lemma_transfer(env, k + 1, w, e.op, p);
        let end = run_transfer(env, k + 1, w, t, a, 5)->0;
        let n = lemma_turn_moves(env, k, k + 1, w, rest, e, attempt, delay, t, a, 5, less);
        assert(run_turn(env, k, k, w, finding, look, fuel) == run_turn(
            env,
            k,
            k + 1,
            w,
            attempt_on(rest, e, attempt, delay, PhaseView::Moving(t)),
            a,
            less,
        ));
        assert((env.faults)(k + 1 + n) is None);
        assert(served(w, end.world, e));
        lemma_settles(
            env,
            k,
            k + 1 + n,
            w,
            w,
            end.world,
            rest,
            e,
            e,
            attempt,
            delay,
            (less - n) as nat,
        );
    }
}

/// What is said of an entry at the end of its turn is true at the end of the replay.
proof fn lemma_fared_stays(env: Env, t: Turn, a: World, b: World, c: World, d: World, e: WalView)
    requires
        only_copied(a, b),
        only_copied(b, c),
        only_copied(c, d),
        logged(d.wal, e.id) == logged(c.wal, e.id),
        fared(env, t, b, c, e),
    ensures
        fared(env, t, a, d, e),
{
    if t.fate is Settled {
        lemma_served_stays(a, b, c, d, e);
    }
}

/// How every entry stands after a replay in which the entries had these turns.
pub open spec fn replayed_by_turns(env: Env, ts: Seq<Turn>, w: World, w2: World, rest: Seq<WalView>) -> bool {
    &&& ts.len() == rest.len()
    &&& forall|i: int|
        0 <= i < rest.len() ==> {
            let e = #[trigger] rest[i];
            &&& e.attempts >= 10 ==> logged(w2.wal, e.id) == Some(e)
            &&& e.attempts < 10 ==> fared(env, ts[i], w, w2, e)
            &&& e.attempts < 10 && quiet(env, ts[i].first, ts[i].first + 7) && crate::recovery::replayable(
                w,
                e,
            ) ==> ts[i].fate is Settled && logged(w2.wal, e.id) is None
        }
}

proof fn lemma_replay_turns(env: Env, k: nat, w: World, rest: Seq<WalView>, fuel: nat)
    requires
        w.indexed(),
        distinct(w.wal),
        distinct(rest),
        forall|i: int| 0 <= i < rest.len() ==> logged(w.wal, (#[trigger] rest[i]).id) == Some(rest[i]),
        fuel >= 120 * rest.len(),
    ensures
        run_replay_step(env, k, w, advance(rest), fuel) matches Some(w2) && {
            &&& only_copied(w, w2)
            &&& w2.indexed()
            &&& distinct(w2.wal)
            &&& replayed_by_turns(env, turns(env, k, w, rest), w, w2, rest)
            &&& forall|id: i64|
                !on_log(rest, id) ==> #[trigger] logged(w2.wal, id) == logged(w.wal, id)
        },
    decreases rest.len(),
{
    lemma_only_copied_same(w);
    if rest.len() > 0 {
        let e = rest[0];
        let tail = rest.skip(1);
        let t = turn_of(env, k, w, rest);
        lemma_others_kept_same(w.wal, e.id);
        assert(logged(w.wal, e.id) == Some(e));
        if e.attempts < 10 {
            let s = attempt_on(tail, e, e.attempts, BASE_DELAY_MS, PhaseView::Finding);
            let look = ActionView::LookupId { id: e.file_id };
            lemma_turn(env, k, k, w, w, tail, e, e, e.attempts, BASE_DELAY_MS, 120);
            lemma_turn_then_next(env, k, k, w, s, look, 120, fuel);
            if quiet(env, k, k + 7) && crate::recovery::replayable(w, e) {
                lemma_quiet_turn(env, k, w, tail, e, e.attempts, BASE_DELAY_MS, 120);
            }
        }
        let w1 = t.world;
        let less = (fuel - (t.next - k)) as nat;
        assert(only_copied(w, w1) && w1.indexed() && others_kept(w.wal, w1.wal, e.id));
        assert(run_replay_step(env, k, w, advance(rest), fuel) == run_replay_step(
            env,
            t.next,
            w1,
            advance(tail),
            less,
        ));
        assert forall|i: int| 0 <= i < tail.len() implies logged(w1.wal, (#[trigger] tail[i]).id) == Some(tail[i])
            && tail[i].id != e.id by {
            assert(tail[i] == rest[i + 1]);
            assert(rest[0].id != rest[i + 1].id);
        }
        assert forall|i: int, j: int| 0 <= i < j < tail.len() implies (#[trigger] tail[i]).id != (
        #[trigger] tail[j]).id by {
            assert(rest[i + 1].id != rest[j + 1].id);
        }
        lemma_replay_turns(env, t.next, w1, tail, less);
        let w2 = run_replay_step(env, t.next, w1, advance(tail), less)->0;
        assert(!on_log(tail, e.id));
        lemma_turns_join(env, t, turns(env, t.next, w1, tail), w, w1, w2, rest);
        lemma_only_copied_chain(w, w1, w2);
        assert forall|id: i64| !on_log(rest, id) implies #[trigger] logged(w2.wal, id) == logged(w.wal, id) by {
            assert(rest[0].id != id);
            if on_log(tail, id) {
                let i = choose|i: int| 0 <= i < tail.len() && (#[trigger] tail[i]).id == id;
                assert(rest[i + 1].id == id);
            }
            assert(logged(w1.wal, id) == logged(w.wal, id));
        }
    }
}

/// The turn of the first entry and then those of the others are the turns of all.
proof fn lemma_turns_join(env: Env, t: Turn, ts: Seq<Turn>, w: World, w1: World, w2: World, rest: Seq<WalView>)
    requires
        rest.len() > 0,
        w.indexed(),
        w2.indexed(),
        only_copied(w, w1),
        only_copied(w1, w2),
        logged(w2.wal, rest[0].id) == logged(w1.wal, rest[0].id),
        rest[0].attempts >= 10 ==> logged(w1.wal, rest[0].id) == Some(rest[0]),
        rest[0].attempts < 10 ==> fared(env, t, w, w1, rest[0]),
        rest[0].attempts < 10 && quiet(env, t.first, t.first + 7) && crate::recovery::replayable(w, rest[0])
            ==> t.fate is Settled && logged(w1.wal, rest[0].id) is None,
        replayed_by_turns(env, ts, w1, w2, rest.skip(1)),
    ensures
        replayed_by_turns(env, seq![t] + ts, w, w2, rest),
{
    let tail = rest.skip(1);
    let all = seq![t] + ts;
    lemma_only_copied_same(w);
    lemma_only_copied_same(w2);
    assert forall|i: int| 0 <= i < rest.len() implies {
        let e = #[trigger] rest[i];
        &&& e.attempts >= 10 ==> logged(w2.wal, e.id) == Some(e)
        &&& e.attempts < 10 ==> fared(env, all[i], w, w2, e)
        &&& e.attempts < 10 && quiet(env, all[i].first, all[i].first + 7) && crate::recovery::replayable(
            w,
            e,
        ) ==> all[i].fate is Settled && logged(w2.wal, e.id) is None
    } by {
        let e = rest[i];
        if i == 0 {
            if e.attempts < 10 {
                lemma_fared_stays(env, t, w, w, w1, w2, e);
            }
        } else {
            assert(tail[i - 1] == e && all[i] == ts[i - 1]);
            if e.attempts < 10 {
                lemma_fared_stays(env, ts[i - 1], w, w1, w2, w2, e);
                if crate::recovery::replayable(w, e) {
                    lemma_still_replayable(w, w1, e);
                }
            }
        }
    }
}

/// A replay is over within a bound on the length of the log, whatever fails, and every
/// entry has its turn: one that was given up before is as it was; any other is settled, or
/// given up once ten attempts have failed, or left because its file could not be looked up.
/// An entry is settled and off the log if none of the seven requests from its turn on fails
/// and the local disk has the file, whatever becomes of the others. What is settled has
/// what the local disk has if the copies agreed. No entry is new, and files were only
/// copied. If the log cannot be loaded, nothing is done.
pub proof fn law_replay_whatever_fails(env: Env, k: nat, w: World, fuel: nat)
    requires
        w.indexed(),
        distinct(w.wal),
        fuel >= 120 * w.wal.len() + 1,
    ensures
        run_whole_replay(env, k, w, fuel) matches Some(w2) && {
            let ts = turns(env, k + 1, w, w.wal);
            &&& only_copied(w, w2)
            &&& distinct(w2.wal)
            &&& (env.faults)(k) is Some ==> w2 == w
            &&& (env.faults)(k) is None ==> replayed_by_turns(env, ts, w, w2, w.wal)
            &&& (env.faults)(k) is None && copies_agree(w) ==> forall|i: int|
                0 <= i < w.wal.len() && (#[trigger] w.wal[i]).attempts < 10 && ts[i].fate is Settled ==> settled(
                    w2,
                    w.wal[i],
                )
            &&& forall|id: i64| #[trigger] on_log(w2.wal, id) ==> on_log(w.wal, id)
        },
{
    lemma_only_copied_same(w);
    assert((env.faults)(k) is None || (env.faults)(k) is Some);
    if (env.faults)(k) is None {
        let less = (fuel - 1) as nat;
        assert forall|i: int| 0 <= i < w.wal.len() implies logged(w.wal, (#[trigger] w.wal[i]).id) == Some(w.wal[i]) by {
            lemma_logged(w.wal, i);
        }
        lemma_replay_turns(env, k + 1, w, w.wal, less);
        let end = run_replay_step(env, k + 1, w, advance(w.wal), less);
        assert(run_whole_replay(env, k, w, fuel) == end);
        let w2 = end->0;
        let ts = turns(env, k + 1, w, w.wal);
        assert forall|id: i64| #[trigger] on_log(w2.wal, id) implies on_log(w.wal, id) by {
            if !on_log(w.wal, id) {
                assert(logged(w2.wal, id) == logged(w.wal, id));
            }
        }
        if copies_agree(w) {
            assert forall|i: int|
                0 <= i < w.wal.len() && (#[trigger] w.wal[i]).attempts < 10 && ts[i].fate is Settled implies settled(
                w2,
                w.wal[i],
            ) by {
                assert(fared(env, ts[i], w, w2, w.wal[i]));
                lemma_served_is_settled(w, w2, w.wal[i]);
            }
        }
    }
}

} // verus!
