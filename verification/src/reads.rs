//! What operations do when requests fail, and what a read does besides reading, as laws
//! about how they run.

use crate::action::ActionView;
use crate::error::ErrorView;
use crate::guarantees::run_read;
use crate::guarantees::run_step;
use crate::router::ReplyView;
use crate::router::RouterView;
use crate::router::StepView;
use crate::tier::Tier;
use crate::tier::TierBitmask;
use crate::types::EntryKind;
use crate::types::MetaView;
use crate::world::healthy;
use crate::world::perform;
use crate::world::run;
use crate::world::Env;
use crate::world::Outcome;
use crate::world::World;
use vstd::prelude::*;

verus! {

/// The operation goes on when a request of this kind fails: a read that asks a tier for the
/// content, asks for a promotion or counts the access.
pub open spec fn survives(s: RouterView) -> bool {
    s is ReadLocal || s is ReadCold || s is ReadPromote || s is ReadRecord
}

/// A request that fails ends the operation with its error, and changes nothing; unless the
/// operation is a read past the lookup.
pub proof fn law_failure_ends_the_operation(
    env: Env,
    k: nat,
    w: World,
    s: RouterView,
    a: ActionView,
    x: ErrorView,
    fuel: nat,
)
    requires
        crate::action::answer_shape(a) == crate::router::awaited(s),
        !survives(s),
        (env.faults)(k) == Some(x),
        fuel >= 1,
    ensures
        run(env, k, w, s, a, fuel) == Some(Outcome { world: w, result: Err(x) }),
{
}

/// Every operation waits for an answer of the shape that its request has: whatever answer
/// of that shape comes, the next request has the shape that is waited for then.
pub proof fn law_requests_fit_the_wait(s: RouterView, e: crate::action::EventView, now: i64)
    requires
        crate::action::event_shape(e) == crate::router::awaited(s),
    ensures
        crate::router::router_step(s, e, now) matches StepView::Next(s2, a2)
            ==> crate::action::answer_shape(a2) == crate::router::awaited(s2),
{
}

/// The answer to a request has the shape of the request, whether it fails or not.
pub proof fn law_answers_have_their_shape(env: Env, k: nat, w: World, a: ActionView)
    ensures
        crate::action::event_shape(perform(env, k, w, a).1) == crate::action::answer_shape(a),
{
    assert((env.faults)(k) is None || (env.faults)(k) is Some);
}

// ---------------------------------------------------------------------------
// Which tier a read is served by

/// The request for the copy on a tier is the one made at this position, if the tier is in
/// the mask and those in front of it did not give the file.
pub open spec fn asked_at(k: nat, tiers: TierBitmask, tier: Tier) -> nat {
    let local = if tiers.holds(Tier::Local) {
        1nat
    } else {
        0
    };
    let nas = if tiers.holds(Tier::Nas) {
        1nat
    } else {
        0
    };
    match tier {
        Tier::Local => k + 1,
        Tier::Nas => k + 1 + local,
        Tier::S3 => k + 1 + local + nas,
    }
}

/// The tier gives the file: it is in the mask, has a copy, and the request for it does not
/// fail.
pub open spec fn gives(env: Env, k: nat, w: World, path: Seq<char>, tiers: TierBitmask, tier: Tier) -> bool {
    &&& tiers.holds(tier)
    &&& w.store(tier).contains_key(path)
    &&& (env.faults)(asked_at(k, tiers, tier)) is None
}

/// The fastest tier that gives the file.
pub open spec fn server(env: Env, k: nat, w: World, path: Seq<char>, tiers: TierBitmask) -> Option<Tier> {
    if gives(env, k, w, path, tiers, Tier::Local) {
        Some(Tier::Local)
    } else if gives(env, k, w, path, tiers, Tier::Nas) {
        Some(Tier::Nas)
    } else if gives(env, k, w, path, tiers, Tier::S3) {
        Some(Tier::S3)
    } else {
        None
    }
}

/// Why a file that no tier gives is refused: the error of the coldest tier in the mask other
/// than the local disk; without one, or if that has no copy, the file is not found.
pub open spec fn last_refusal(env: Env, k: nat, path: Seq<char>, tiers: TierBitmask) -> ErrorView {
    let coldest = if tiers.holds(Tier::S3) {
        (env.faults)(asked_at(k, tiers, Tier::S3))
    } else if tiers.holds(Tier::Nas) {
        (env.faults)(asked_at(k, tiers, Tier::Nas))
    } else {
        None
    };
    match coldest {
        Some(x) => x,
        None => ErrorView::NotFound(path),
    }
}

/// How a read ends once it has the data of a colder tier: the promotion is asked for, and
/// the access is counted.
proof fn lemma_cold_end(
    env: Env,
    k: nat,
    w: World,
    path: Seq<char>,
    id: i64,
    from: Tier,
    tiers: TierBitmask,
    fuel: nat,
)
    requires
        fuel >= 3,
        (env.faults)(k) is None,
        w.store(from).contains_key(path),
    ensures
        ({
            let data = w.store(from)[path];
            let w1 = perform(env, k + 1, w, ActionView::Promote { path, from }).0;
            let w2 = perform(env, k + 2, w1, ActionView::RecordAccess { id }).0;
            run(
                env,
                k,
                w,
                RouterView::ReadCold { path, id, from, tiers },
                ActionView::Get { tier: from, path },
                fuel,
            ) == Some(Outcome { world: w2, result: Ok(ReplyView::Data(data)) })
        }),
{
    let data = w.store(from)[path];
    let promote = ActionView::Promote { path, from };
    let record = ActionView::RecordAccess { id };
    assert((env.faults)(k + 1) is None || (env.faults)(k + 1) is Some);
    assert((env.faults)(k + 2) is None || (env.faults)(k + 2) is Some);
    let w1 = perform(env, k + 1, w, promote).0;
    assert(run(
        env,
        k,
        w,
        RouterView::ReadCold { path, id, from, tiers },
        ActionView::Get { tier: from, path },
        fuel,
    ) == run(env, k + 1, w, RouterView::ReadPromote { id, data }, promote, (fuel - 1) as nat));
    assert(run(env, k + 1, w, RouterView::ReadPromote { id, data }, promote, (fuel - 1) as nat) == run(
        env,
        k + 2,
        w1,
        RouterView::ReadRecord { data },
        record,
        (fuel - 2) as nat,
    ));
}

/// The world once a file was read from a tier, the request for it being the `j`-th: a read
/// from a colder tier asks for a promotion, and every read is counted.
pub open spec fn after_read(env: Env, j: nat, w: World, path: Seq<char>, id: i64, from: Tier) -> World {
    let counted = ActionView::RecordAccess { id };
    if from == Tier::Local {
        perform(env, j + 1, w, counted).0
    } else {
        perform(
            env,
            j + 2,
            perform(env, j + 1, w, ActionView::Promote { path, from }).0,
            counted,
        ).0
    }
}

/// A read ends with what the fastest tier gives that gives the file, whatever else fails: a
/// tier that fails, or has no copy, is passed over for the next one in the mask. It is
/// refused only if no tier gives the file.
pub proof fn law_read_whatever_fails(env: Env, k: nat, w: World, path: Seq<char>, fuel: nat)
    requires
        fuel >= 6,
    ensures
        run_read(env, k, w, path, fuel) matches Some(end) && {
            let m = w.files[path];
            &&& (env.faults)(k) matches Some(x) ==> end == (Outcome { world: w, result: Err(x) })
            &&& (env.faults)(k) is None && !w.files.contains_key(path) ==> end.result == Err::<
                ReplyView,
                ErrorView,
            >(ErrorView::NotFound(path))
            &&& (env.faults)(k) is None && w.files.contains_key(path) && m.kind == EntryKind::Directory
                ==> end.result == Err::<ReplyView, ErrorView>(ErrorView::IsADirectory(path))
            &&& (env.faults)(k) is None && w.files.contains_key(path) && m.kind == EntryKind::File ==> (
            match server(env, k, w, path, m.tiers) {
                Some(t) => {
                    &&& end.result == Ok::<ReplyView, ErrorView>(ReplyView::Data(w.store(t)[path]))
                    &&& end.world == after_read(env, asked_at(k, m.tiers, t), w, path, m.id, t)
                },
                None => end == (Outcome {
                    world: w,
                    result: Err(last_refusal(env, k, path, m.tiers)),
                }),
            })
        },
{
    assert((env.faults)(k) is None || (env.faults)(k) is Some);
    if (env.faults)(k) is None && w.files.contains_key(path) && w.files[path].kind == EntryKind::File {
        let m = w.files[path];
        let less = (fuel - 1) as nat;
        if m.tiers.holds(Tier::Local) {
            assert((env.faults)(k + 1) is None || (env.faults)(k + 1) is Some);
            let op = RouterView::ReadLocal { path, id: m.id, tiers: m.tiers };
            let get = ActionView::Get { tier: Tier::Local, path };
            assert(run_read(env, k, w, path, fuel) == run(env, k + 1, w, op, get, less));
            if (env.faults)(k + 1) is None && w.local.contains_key(path) {
                let data = w.local[path];
                assert((env.faults)(k + 2) is None || (env.faults)(k + 2) is Some);
                assert(run(env, k + 1, w, op, get, less) == run(
                    env,
                    k + 2,
                    w,
                    RouterView::ReadRecord { data },
                    ActionView::RecordAccess { id: m.id },
                    (fuel - 2) as nat,
                ));
            } else {
                lemma_cold_whatever_fails(env, k + 2, w, path, m.id, m.tiers, (fuel - 2) as nat);
            }
        } else {
            lemma_cold_whatever_fails(env, k + 1, w, path, m.id, m.tiers, less);
        }
    }
}

/// The same for what a read asks of the NAS and of S3, from the `j`-th request on.
proof fn lemma_cold_whatever_fails(
    env: Env,
    j: nat,
    w: World,
    path: Seq<char>,
    id: i64,
    tiers: TierBitmask,
    fuel: nat,
)
    requires
        fuel >= 4,
    ensures
        run_step(env, j, w, crate::router::read_cold(path, id, tiers), fuel) matches Some(end) && {
            let i = if tiers.holds(Tier::Nas) {
                j + 1
            } else {
                j
            };
            if tiers.holds(Tier::Nas) && w.nas.contains_key(path) && (env.faults)(j) is None {
                end == (Outcome {
                    world: after_read(env, j, w, path, id, Tier::Nas),
                    result: Ok(ReplyView::Data(w.nas[path])),
                })
            } else if tiers.holds(Tier::S3) && w.s3.contains_key(path) && (env.faults)(i) is None {
                end == (Outcome {
                    world: after_read(env, i, w, path, id, Tier::S3),
                    result: Ok(ReplyView::Data(w.s3[path])),
                })
            } else {
                let coldest = if tiers.holds(Tier::S3) {
                    (env.faults)(i)
                } else if tiers.holds(Tier::Nas) {
                    (env.faults)(j)
                } else {
                    None
                };
                end == (Outcome {
                    world: w,
                    result: Err(
                        match coldest {
                            Some(x) => x,
                            None => ErrorView::NotFound(path),
                        },
                    ),
                })
            }
        },
{
    assert((env.faults)(j) is None || (env.faults)(j) is Some);
    assert((env.faults)(j + 1) is None || (env.faults)(j + 1) is Some);
    let nas = RouterView::ReadCold { path, id, from: Tier::Nas, tiers };
    let s3 = RouterView::ReadCold { path, id, from: Tier::S3, tiers };
    let get = ActionView::Get { tier: Tier::S3, path };
    if tiers.holds(Tier::Nas) {
        if w.nas.contains_key(path) && (env.faults)(j) is None {
            lemma_cold_end(env, j, w, path, id, Tier::Nas, tiers, fuel);
        } else if tiers.holds(Tier::S3) {
            assert(run(env, j, w, nas, ActionView::Get { tier: Tier::Nas, path }, fuel) == run(
                env,
                j + 1,
                w,
                s3,
                get,
                (fuel - 1) as nat,
            ));
            if w.s3.contains_key(path) && (env.faults)(j + 1) is None {
                lemma_cold_end(env, j + 1, w, path, id, Tier::S3, tiers, (fuel - 1) as nat);
            }
        }
    } else if tiers.holds(Tier::S3) {
        if w.s3.contains_key(path) && (env.faults)(j) is None {
            lemma_cold_end(env, j, w, path, id, Tier::S3, tiers, fuel);
        }
    }
}

/// A read is counted, and a file that was not read from the local disk is asked to be
/// promoted from where it was read: if no request fails, the entry has one access more, at
/// the time of the last request, and the promotion asked for is that of the path from the
/// tier that gave it. A read from the local disk asks for none.
pub proof fn law_read_is_counted(env: Env, k: nat, w: World, path: Seq<char>, fuel: nat)
    requires
        healthy(env),
        w.indexed(),
        fuel >= 6,
        run_read(env, k, w, path, fuel)->0.result is Ok,
    ensures
        run_read(env, k, w, path, fuel) matches Some(end) && {
            let m = w.files[path];
            &&& w.files.contains_key(path)
            &&& server(env, k, w, path, m.tiers) matches Some(t) && {
                &&& m.tiers.holds(t) && w.store(t).contains_key(path)
                &&& t != Tier::Local ==> !(m.tiers.holds(Tier::Local) && w.local.contains_key(path))
                &&& t == Tier::S3 ==> !(m.tiers.holds(Tier::Nas) && w.nas.contains_key(path))
                &&& end.world.promotions == (if t == Tier::Local {
                    w.promotions
                } else {
                    w.promotions.push((path, t))
                })
                &&& end.world.files == w.files.insert(
                    path,
                    MetaView {
                        accessed_at: end.world.files[path].accessed_at,
                        access_count_30d: (m.access_count_30d + 1) as u32,
                        ..m
                    },
                )
                &&& end.world.files[path].accessed_at == (env.clock)(
                    asked_at(k, m.tiers, t) + if t == Tier::Local {
                        1nat
                    } else {
                        2
                    },
                )
            }
        },
{
    law_read_whatever_fails(env, k, w, path, fuel);
    assert((env.faults)(k) is None);
    let m = w.files[path];
    assert((env.faults)(asked_at(k, m.tiers, Tier::Local)) is None);
    assert((env.faults)(asked_at(k, m.tiers, Tier::Nas)) is None);
    assert((env.faults)(asked_at(k, m.tiers, Tier::S3)) is None);
    let t = server(env, k, w, path, m.tiers)->0;
    let j = asked_at(k, m.tiers, t);
    assert((env.faults)(j + 1) is None);
    assert((env.faults)(j + 2) is None);
    let end = run_read(env, k, w, path, fuel)->0;
    assert(end.world == after_read(env, j, w, path, m.id, t));
    assert(end.world.files =~= w.files.insert(path, end.world.files[path]));
}

} // verus!
