//! What the operations guarantee, as laws about how they run.

use crate::action::ActionView;
use crate::error::ErrorView;
use crate::path::components;
use crate::path::parent_of;
use crate::path::path_prefix;
use crate::path::valid_path;
use crate::router::climb;
use crate::router::After;
use crate::router::ReplyView;
use crate::router::RouterView;
use crate::router::StepView;
use crate::tier::Tier;
use crate::tier::TierBitmask;
use crate::types::EntryKind;
use crate::types::EntryView;
use crate::types::MetaView;
use crate::types::WalOp;
use crate::types::WalView;
use crate::world::healthy;
use crate::world::ids_left;
use crate::world::is_listing;
use crate::world::numbered;
use crate::world::perform;
use crate::world::run;
use crate::world::Env;
use crate::world::Outcome;
use crate::world::World;
use vstd::prelude::*;

verus! {

/// How an operation ends from one of its steps on.
pub open spec fn run_step(env: Env, k: nat, w: World, step: StepView, fuel: nat) -> Option<Outcome> {
    match step {
        StepView::Done(r) => Some(Outcome { world: w, result: r }),
        StepView::Next(s, a) => run(env, k, w, s, a, fuel),
    }
}

/// A path above another is the one directly above it, or above that one.
proof fn lemma_proper_prefix(q: Seq<char>, p: Seq<char>)
    requires
        valid_path(q),
        valid_path(p),
        path_prefix(q, p),
        q != p,
    ensures
        parent_of(p) is Some,
        path_prefix(q, parent_of(p)->0),
{
    let a = components(q);
    let b = components(p);
    if a.len() == b.len() {
        assert(a =~= b);
        crate::path::law_components_identify(q, p);
    }
    assert(b.len() > 0);
    crate::path::lemma_valid_path(p);
    let front = b.drop_last();
    assert forall|i: int| 0 <= i < front.len() implies crate::path::valid_component(
        #[trigger] front[i],
    ) by {
        assert(front[i] == b[i]);
    }
    crate::path::lemma_components_render(front);
    assert(a =~= front.subrange(0, a.len() as int)) by {
        assert(a == b.subrange(0, a.len() as int));
    }
}

// ---------------------------------------------------------------------------
// Directories above a path

/// The tiers hold what they held.
pub open spec fn same_contents(w: World, w2: World) -> bool {
    w2.local == w.local && w2.nas == w.nas && w2.s3 == w.s3
}

/// How many directories above the path and below `q` have no entry.
pub open spec fn missing_below(w: World, path: Seq<char>, q: Seq<char>) -> nat
    decreases components(path).len(),
{
    match parent_of(path) {
        Some(d) => if d != q && components(d).len() < components(path).len() {
            missing_below(w, d, q) + if w.files.contains_key(d) {
                0nat
            } else {
                1
            }
        } else {
            0
        },
        None => 0,
    }
}

/// The entry is that of a directory that was just made at `q`, as the store keeps it.
pub open spec fn made_dir(m: MetaView, q: Seq<char>) -> bool {
    &&& m == (MetaView {
        id: m.id,
        ..crate::world::kept_entry(crate::types::fresh_dir(q, m.created_at))
    })
    &&& is_new_dir(m, q)
}

/// The entry is that of a directory at `q` that was not changed since: it is on every
/// tier, and has no content.
pub open spec fn is_new_dir(m: MetaView, q: Seq<char>) -> bool {
    &&& m.path == q
    &&& m.kind == EntryKind::Directory
    &&& m.size_bytes == 0
    &&& m.sha256.len() == 0
    &&& forall|t: Tier| #[trigger] m.tiers.holds(t)
    &&& m.modified_at == m.created_at
    &&& m.accessed_at == m.created_at
    &&& m.access_count_30d == 0
    &&& m.mime_type == Some("inode/directory"@)
}

/// From `w` to `w2` only directories were added, each above the path and so that none
/// above it is missing. They got the next ids, from the path upwards.
pub open spec fn dirs_made(w: World, w2: World, path: Seq<char>) -> bool {
    &&& forall|q: Seq<char>|
        valid_path(q) && #[trigger] path_prefix(q, path) && q != path ==> w2.files.contains_key(q)
    &&& forall|q: Seq<char>|
        #[trigger] w.files.contains_key(q) ==> w2.files.contains_key(q) && w2.files[q] == w.files[q]
    &&& forall|q: Seq<char>|
        #[trigger] w2.files.contains_key(q) && !w.files.contains_key(q) ==> path_prefix(q, path)
            && q != path && made_dir(w2.files[q], q) && (ids_left(w, components(path).len(), 0)
            ==> w2.files[q].id == w.next_id + missing_below(w, path, q))
}

/// The log entry is new, and asks for the operation on the file.
pub open spec fn asks(e: WalView, file_id: i64, op: WalOp) -> bool {
    e.file_id == file_id && e.op == op && e.attempts == 0
}

/// The two replications of a file were added to the log, that to the NAS first.
pub open spec fn replication_enqueued(before: Seq<WalView>, after: Seq<WalView>, file_id: i64) -> bool {
    &&& after.len() == before.len() + 2
    &&& after.take(before.len() as int) == before
    &&& asks(after[before.len() as int], file_id, WalOp::ReplicateNas)
    &&& asks(after[before.len() as int + 1], file_id, WalOp::UploadS3)
}

proof fn lemma_enqueue(env: Env, k: nat, w: World, id: i64, fuel: nat)
    requires
        fuel >= 2,
    ensures
        ({
            let res = run_step(env, k, w, crate::router::finish(After::Replicate(id)), fuel);
            &&& res is Some
            &&& healthy(env) ==> res->0.result is Ok
            &&& numbered(w) && ids_left(w, 0, 2) ==> numbered(res->0.world)
            &&& res->0.result is Ok ==> {
                &&& res->0.result == Ok::<ReplyView, ErrorView>(ReplyView::Done)
                &&& same_contents(w, res->0.world)
                &&& res->0.world.files == w.files
                &&& replication_enqueued(w.wal, res->0.world.wal, id)
            }
        }),
{
    reveal_with_fuel(run, 3);
    let first = perform(env, k, w, ActionView::WalEnqueue { file_id: id, op: WalOp::ReplicateNas });
    assert((env.faults)(k) is None || (env.faults)(k) is Some);
    let second = perform(
        env,
        k + 1,
        first.0,
        ActionView::WalEnqueue { file_id: id, op: WalOp::UploadS3 },
    );
    assert((env.faults)(k + 1) is None || (env.faults)(k + 1) is Some);
    assert(w.wal.push(first.0.wal.last()).push(second.0.wal.last()).take(w.wal.len() as int)
        =~= w.wal);
}

/// A directory that was just made is on every tier.
proof fn lemma_new_dir(q: Seq<char>, now: i64)
    ensures
        forall|t: Tier| #[trigger] crate::types::fresh_dir(q, now).tiers.holds(t),
{
    assert forall|t: Tier| #[trigger] crate::types::fresh_dir(q, now).tiers.holds(t) by {
        crate::tier::law_none_and_all(t);
    }
}

proof fn lemma_upsert_numbers(w: World, m: MetaView)
    requires
        w.next_id < i64::MAX,
    ensures
        numbered(w) ==> numbered(crate::world::after_upsert(w, m)),
{
}

proof fn lemma_climb(env: Env, k: nat, w: World, p: Seq<char>, after: After, fuel: nat)
    requires
        valid_path(p),
        fuel >= 2 * components(p).len() + 2,
    ensures
        ({
            let res = run_step(env, k, w, climb(p, after), fuel);
            &&& res is Some
            &&& healthy(env) ==> res->0.result is Ok
            &&& numbered(w) && ids_left(w, components(p).len(), 2) ==> numbered(res->0.world)
            &&& res->0.result is Ok ==> {
                &&& res->0.result == Ok::<ReplyView, ErrorView>(ReplyView::Done)
                &&& same_contents(w, res->0.world)
                &&& dirs_made(w, res->0.world, p)
                &&& match after {
                    After::Finish => res->0.world.wal == w.wal,
                    After::Replicate(id) => replication_enqueued(w.wal, res->0.world.wal, id),
                }
            }
        }),
    decreases components(p).len(),
{
    crate::path::law_prefix_of_parent(p);
    match parent_of(p) {
        None => {
            assert forall|q: Seq<char>| valid_path(q) && #[trigger] path_prefix(q, p) implies q == p by {
                if q != p {
                    lemma_proper_prefix(q, p);
                }
            }
            match after {
                After::Finish => {},
                After::Replicate(id) => {
                    lemma_enqueue(env, k, w, id, fuel);
                },
            }
        },
        Some(d) => {
            assert(valid_path(d));
            reveal_with_fuel(run, 3);
            if w.next_id < i64::MAX {
                lemma_upsert_numbers(w, crate::types::fresh_dir(d, (env.clock)(k)));
            }
            assert((env.faults)(k) is None || (env.faults)(k) is Some);
            assert((env.faults)(k + 1) is None || (env.faults)(k + 1) is Some);
            if (env.faults)(k) is None {
                let now = (env.clock)(k);
                if w.files.contains_key(d) {
                    let less = (fuel - 1) as nat;
                    lemma_climb(env, k + 1, w, d, after, less);
                    let res = run_step(env, k + 1, w, climb(d, after), less);
                    assert(run_step(env, k, w, climb(p, after), fuel) == res);
                    if res->0.result is Ok {
                        lemma_dirs_up(w, w, res->0.world, p, d);
                    }
                } else if (env.faults)(k + 1) is None {
                    let less = (fuel - 2) as nat;
                    let w1 = crate::world::after_upsert(w, crate::types::fresh_dir(d, now));
                    lemma_new_dir(d, now);
                    lemma_climb(env, k + 2, w1, d, after, less);
                    let res = run_step(env, k + 2, w1, climb(d, after), less);
                    assert(run_step(env, k, w, climb(p, after), fuel) == res);
                    if res->0.result is Ok {
                        lemma_dirs_up(w, w1, res->0.world, p, d);
                    }
                }
            }
        },
    }
}

/// What was made above the parent, together with the parent, is what is above the path.
proof fn lemma_dirs_up(w: World, w1: World, w2: World, p: Seq<char>, d: Seq<char>)
    requires
        valid_path(p),
        parent_of(p) == Some(d),
        dirs_made(w1, w2, d),
        w1.files.contains_key(d),
        w1 == w || (!w.files.contains_key(d) && w1.files == w.files.insert(d, w1.files[d])
            && made_dir(w1.files[d], d) && w1.files[d].id == w.next_id && w1.next_wal == w.next_wal
            && (w.next_id < i64::MAX ==> w1.next_id == w.next_id + 1)),
    ensures
        dirs_made(w, w2, p),
{
    crate::path::law_prefix_of_parent(p);
    assert(valid_path(d) && path_prefix(d, p) && !path_prefix(p, d));
    crate::path::law_prefix_is_partial_order(d, d, d);
    assert forall|q: Seq<char>| valid_path(q) && #[trigger] path_prefix(q, p) && q != p implies w2.files.contains_key(
        q,
    ) by {
        lemma_proper_prefix(q, p);
        assert(path_prefix(q, d));
    }
    assert forall|q: Seq<char>| #[trigger] w.files.contains_key(q) implies w2.files.contains_key(q)
        && w2.files[q] == w.files[q] by {
        assert(w1.files.contains_key(q));
    }
    assert forall|q: Seq<char>| #[trigger] w2.files.contains_key(q) && !w.files.contains_key(q) implies path_prefix(
        q,
        p,
    ) && q != p && made_dir(w2.files[q], q) && (ids_left(w, components(p).len(), 0) ==> w2.files[q].id
        == w.next_id + missing_below(w, p, q)) by {
        if w1.files.contains_key(q) {
            assert(q == d);
        } else {
            assert(path_prefix(q, d) && q != d);
            lemma_prefix_chain(q, d, p);
            lemma_missing_below(w, w1, d, d, q);
        }
        if q == p {
            assert(path_prefix(p, d));
        }
    }
}

/// What is missing above a path does not depend on the entries at and below it.
proof fn lemma_missing_below(w: World, w1: World, at: Seq<char>, p: Seq<char>, q: Seq<char>)
    requires
        valid_path(p),
        components(p).len() <= components(at).len(),
        forall|x: Seq<char>| x != at ==> w1.files.contains_key(x) == #[trigger] w.files.contains_key(x),
    ensures
        missing_below(w1, p, q) == missing_below(w, p, q),
    decreases components(p).len(),
{
    crate::path::law_prefix_of_parent(p);
    if let Some(d) = parent_of(p) {
        lemma_missing_below(w, w1, at, d, q);
        assert(w1.files.contains_key(d) == w.files.contains_key(d));
    }
}

/// Being above is transitive, whatever is above.
proof fn lemma_prefix_chain(q: Seq<char>, d: Seq<char>, p: Seq<char>)
    requires
        path_prefix(q, d),
        path_prefix(d, p),
    ensures
        path_prefix(q, p),
{
    let a = components(q);
    let b = components(d);
    let c = components(p);
    assert(a =~= c.subrange(0, a.len() as int)) by {
        assert forall|i: int| 0 <= i < a.len() implies a[i] == c[i] by {
            assert(a[i] == b.subrange(0, a.len() as int)[i]);
            assert(b[i] == c.subrange(0, b.len() as int)[i]);
        }
    }
}

// ---------------------------------------------------------------------------
// Writing

/// The entry is that of a file with this content, which the local disk alone holds.
pub open spec fn describes(m: MetaView, path: Seq<char>, data: Seq<u8>) -> bool {
    &&& m.path == path
    &&& m.kind == EntryKind::File
    &&& m.size_bytes == data.len()
    &&& m.sha256 == crate::digest::content_hash(data)
    &&& m.tiers == TierBitmask(0).with(Tier::Local)
    &&& m.access_count_30d == 0
}

/// From `w` to `w2` the data were written at the path: the local disk has them, their
/// entry and those of all directories above are there, nothing else is changed, and
/// both replications are enqueued.
pub open spec fn written(w: World, w2: World, path: Seq<char>, data: Seq<u8>) -> bool {
    &&& w2.local == w.local.insert(path, data)
    &&& w2.nas == w.nas
    &&& w2.s3 == w.s3
    &&& w2.files.contains_key(path)
    &&& describes(w2.files[path], path, data)
    &&& w.files.contains_key(path) ==> w2.files[path].id == w.files[path].id
        && w2.files[path].created_at == w.files[path].created_at
    &&& forall|q: Seq<char>|
        valid_path(q) && #[trigger] path_prefix(q, path) ==> w2.files.contains_key(q)
    &&& forall|q: Seq<char>|
        #[trigger] w.files.contains_key(q) && q != path ==> w2.files.contains_key(q) && w2.files[q]
            == w.files[q]
    &&& forall|q: Seq<char>|
        #[trigger] w2.files.contains_key(q) && !w.files.contains_key(q) && q != path
            ==> path_prefix(q, path) && made_dir(w2.files[q], q) && (ids_left(
            w,
            components(path).len() + 1,
            0,
        ) ==> w2.files[q].id == first_dir_id(w, path) + missing_below(w, path, q))
    &&& replication_enqueued(w.wal, w2.wal, w2.files[path].id)
}

/// The id that the first directory gets that is made above a path which is entered first.
pub open spec fn first_dir_id(w: World, path: Seq<char>) -> int {
    if w.files.contains_key(path) {
        w.next_id as int
    } else {
        w.next_id + 1
    }
}

/// How a write of the data at the path ends.
pub open spec fn run_write(env: Env, w: World, path: Seq<char>, data: Seq<u8>, fuel: nat) -> Option<Outcome> {
    run(
        env,
        0,
        w,
        RouterView::WritePut {
            path,
            sha256: crate::digest::content_hash(data),
            size_bytes: data.len() as u64,
        },
        ActionView::Put { tier: Tier::Local, path, data },
        fuel,
    )
}

/// A write ends, within two requests for each level of the path and four more. If it
/// succeeds, the data are written as they should be, whatever requests may have failed,
/// and the entry has the time of the first answer; and it succeeds if none fails. Ids stay
/// unique, however it ends.
pub proof fn law_write(env: Env, w: World, path: Seq<char>, data: Seq<u8>, fuel: nat)
    requires
        valid_path(path),
        data.len() <= u64::MAX,
        fuel >= 2 * components(path).len() + 4,
    ensures
        run_write(env, w, path, data, fuel) matches Some(end) && {
            &&& end.result matches Ok(r) ==> {
                &&& r == ReplyView::Done
                &&& written(w, end.world, path, data)
                &&& end.world.files[path].modified_at == (env.clock)(0)
                &&& end.world.files[path].accessed_at == (env.clock)(0)
                &&& !w.files.contains_key(path) ==> end.world.files[path].created_at == (env.clock)(0)
                &&& end.world.files[path] == crate::world::upserted(
                    w,
                    crate::router::written_file(
                        path,
                        data.len() as u64,
                        crate::digest::content_hash(data),
                        (env.clock)(0),
                    ),
                )
            }
            &&& healthy(env) ==> end.result is Ok
            &&& numbered(w) && ids_left(w, components(path).len() + 1, 2) ==> numbered(end.world)
        },
{
    reveal_with_fuel(run, 3);
    if w.next_id < i64::MAX {
        let meta = crate::router::written_file(
            path,
            data.len() as u64,
            crate::digest::content_hash(data),
            (env.clock)(0),
        );
        lemma_upsert_numbers(World { local: w.local.insert(path, data), ..w }, meta);
    }
    assert((env.faults)(0) is None || (env.faults)(0) is Some);
    assert((env.faults)(1) is None || (env.faults)(1) is Some);
    if (env.faults)(0) is None && (env.faults)(1) is None {
        let now = (env.clock)(0);
        let size = data.len() as u64;
        let meta = crate::router::written_file(path, size, crate::digest::content_hash(data), now);
        let w1 = World { local: w.local.insert(path, data), ..w };
        let w2 = crate::world::after_upsert(w1, meta);
        let id = crate::world::upserted(w1, meta).id;
        let less = (fuel - 2) as nat;
        lemma_climb(env, 2, w2, path, After::Replicate(id), less);
        let end = run_step(env, 2, w2, climb(path, After::Replicate(id)), less);
        assert(run_write(env, w, path, data, fuel) == end);
        if end->0.result is Ok {
            let w3 = end->0.world;
            assert(w2.files.contains_key(path));
            assert(w3.files[path] == w2.files[path]);
            assert forall|q: Seq<char>| #[trigger] w.files.contains_key(q) && q != path implies w3.files.contains_key(
                q,
            ) && w3.files[q] == w.files[q] by {
                assert(w2.files.contains_key(q));
            }
            assert forall|q: Seq<char>|
                #[trigger] w3.files.contains_key(q) && !w.files.contains_key(q) && q != path implies path_prefix(
                q,
                path,
            ) && made_dir(w3.files[q], q) && (ids_left(w, components(path).len() + 1, 0)
                ==> w3.files[q].id == first_dir_id(w, path) + missing_below(w, path, q)) by {
                assert(!w2.files.contains_key(q));
                lemma_missing_below(w, w2, path, path, q);
            }
        }
    }
}

/// How the creation of a directory ends.
pub open spec fn run_mkdir(env: Env, w: World, path: Seq<char>, now: i64, fuel: nat) -> Option<Outcome> {
    run(
        env,
        0,
        w,
        RouterView::MkdirUpsert { path },
        ActionView::Upsert { meta: crate::types::fresh_dir(path, now) },
        fuel,
    )
}

/// Creating a directory ends. If it succeeds, the directory and all those above it have
/// entries, no other entry is added or changed, and no content and no log entry is
/// touched; and it succeeds if no request fails.
pub proof fn law_mkdir(env: Env, w: World, path: Seq<char>, now: i64, fuel: nat)
    requires
        valid_path(path),
        fuel >= 2 * components(path).len() + 3,
    ensures
        run_mkdir(env, w, path, now, fuel) matches Some(end) && {
            &&& end.result matches Ok(r) ==> {
                &&& r == ReplyView::Done
                &&& same_contents(w, end.world)
                &&& end.world.wal == w.wal
                &&& end.world.files.contains_key(path)
                &&& end.world.files[path].path == path
                &&& end.world.files[path].kind == EntryKind::Directory
                &&& end.world.files[path].size_bytes == 0
                &&& forall|t: Tier| #[trigger] end.world.files[path].tiers.holds(t)
                &&& end.world.files[path].modified_at == now
                &&& !w.files.contains_key(path) ==> end.world.files[path].created_at == now
                    && is_new_dir(end.world.files[path], path)
                &&& end.world.files[path] == crate::world::upserted(
                    w,
                    crate::types::fresh_dir(path, now),
                )
                &&& forall|q: Seq<char>|
                    #[trigger] end.world.files.contains_key(q) && !w.files.contains_key(q) && q != path
                        ==> path_prefix(q, path) && made_dir(end.world.files[q], q) && (ids_left(
                        w,
                        components(path).len() + 1,
                        0,
                    ) ==> end.world.files[q].id == first_dir_id(w, path) + missing_below(w, path, q))
                &&& forall|q: Seq<char>|
                    valid_path(q) && #[trigger] path_prefix(q, path)
                        ==> end.world.files.contains_key(q)
                &&& forall|q: Seq<char>|
                    #[trigger] w.files.contains_key(q) && q != path
                        ==> end.world.files.contains_key(q) && end.world.files[q] == w.files[q]
            }
            &&& healthy(env) ==> end.result is Ok
        },
{
    reveal_with_fuel(run, 2);
    assert((env.faults)(0) is None || (env.faults)(0) is Some);
    if (env.faults)(0) is None {
        let w1 = crate::world::after_upsert(w, crate::types::fresh_dir(path, now));
        lemma_new_dir(path, now);
        let less = (fuel - 1) as nat;
        lemma_climb(env, 1, w1, path, After::Finish, less);
        let end = run_step(env, 1, w1, climb(path, After::Finish), less);
        assert(run_mkdir(env, w, path, now, fuel) == end);
        if end->0.result is Ok {
            assert(w1.files.contains_key(path));
            assert forall|q: Seq<char>| #[trigger] w.files.contains_key(q) && q != path implies end->0.world.files.contains_key(
                q,
            ) && end->0.world.files[q] == w.files[q] by {
                assert(w1.files.contains_key(q));
            }
            let w2 = end->0.world;
            assert forall|q: Seq<char>|
                #[trigger] w2.files.contains_key(q) && !w.files.contains_key(q) && q != path implies path_prefix(
                q,
                path,
            ) && made_dir(w2.files[q], q) && (ids_left(w, components(path).len() + 1, 0)
                ==> w2.files[q].id == first_dir_id(w, path) + missing_below(w, path, q)) by {
                assert(!w1.files.contains_key(q));
                lemma_missing_below(w, w1, path, path, q);
            }
        }
    }
}

// ---------------------------------------------------------------------------
// Reading

/// How a read of the path ends.
pub open spec fn run_read(env: Env, k: nat, w: World, path: Seq<char>, fuel: nat) -> Option<Outcome> {
    run(env, k, w, RouterView::ReadMeta { path }, ActionView::Lookup { path }, fuel)
}

/// What the colder tiers give: the copy on the NAS if the mask has the NAS and the NAS
/// has the file, else the one in S3 if the mask has that.
pub open spec fn cold_copy(w: World, path: Seq<char>, tiers: TierBitmask) -> Option<Seq<u8>> {
    if tiers.holds(Tier::Nas) && w.nas.contains_key(path) {
        Some(w.nas[path])
    } else if tiers.holds(Tier::S3) {
        w.s3.get(path)
    } else {
        None
    }
}

/// What a read gives when no request fails: the local copy if the mask has the local
/// disk and the disk has the file, else what the colder tiers give.
pub open spec fn copy_served(w: World, path: Seq<char>, tiers: TierBitmask) -> Option<Seq<u8>> {
    if tiers.holds(Tier::Local) && w.local.contains_key(path) {
        Some(w.local[path])
    } else {
        cold_copy(w, path, tiers)
    }
}

/// From `w` to `w2` nothing is changed but what is known of accesses and the promotions
/// asked for.
pub open spec fn only_accessed(w: World, w2: World) -> bool {
    &&& same_contents(w, w2)
    &&& w2.wal == w.wal
    &&& w2.next_id == w.next_id
    &&& w2.next_wal == w.next_wal
    &&& forall|p: Seq<char>| #[trigger] w2.files.contains_key(p) == w.files.contains_key(p)
    &&& forall|p: Seq<char>|
        #[trigger] w.files.contains_key(p) ==> w2.files[p] == (MetaView {
            accessed_at: w2.files[p].accessed_at,
            access_count_30d: w2.files[p].access_count_30d,
            ..w.files[p]
        })
}

proof fn lemma_read_end(env: Env, k: nat, w: World, id: i64, data: Seq<u8>, fuel: nat)
    requires
        fuel >= 1,
    ensures
        run(env, k, w, RouterView::ReadRecord { data }, ActionView::RecordAccess { id }, fuel) matches Some(
            end,
        ) && only_accessed(w, end.world) && end.result == Ok::<ReplyView, ErrorView>(
            ReplyView::Data(data),
        ),
{
    assert((env.faults)(k) is None || (env.faults)(k) is Some);
}

/// A read that asks a colder tier from which the file can be got.
proof fn lemma_read_got(env: Env, k: nat, w: World, path: Seq<char>, id: i64, from: Tier, tiers: TierBitmask, fuel: nat)
    requires
        fuel >= 3,
        (env.faults)(k) is None,
        w.store(from).contains_key(path),
    ensures
        run(
            env,
            k,
            w,
            RouterView::ReadCold { path, id, from, tiers },
            ActionView::Get { tier: from, path },
            fuel,
        ) matches Some(end) && {
            &&& only_accessed(w, end.world)
            &&& end.result == Ok::<ReplyView, ErrorView>(ReplyView::Data(w.store(from)[path]))
        },
{
    assert((env.faults)(k + 1) is None || (env.faults)(k + 1) is Some);
    let data = w.store(from)[path];
    let promote = ActionView::Promote { path, from };
    let w1 = perform(env, k + 1, w, promote).0;
    assert(run(
        env,
        k,
        w,
        RouterView::ReadCold { path, id, from, tiers },
        ActionView::Get { tier: from, path },
        fuel,
    ) == run(env, k + 1, w, RouterView::ReadPromote { id, data }, promote, (fuel - 1) as nat));
    lemma_read_end(env, k + 2, w1, id, data, (fuel - 2) as nat);
}

/// A read that asks S3.
proof fn lemma_read_s3(env: Env, k: nat, w: World, path: Seq<char>, id: i64, tiers: TierBitmask, fuel: nat)
    requires
        fuel >= 3,
    ensures
        run_step(env, k, w, crate::router::read_s3(path, id, tiers), fuel) matches Some(end) && {
            &&& only_accessed(w, end.world)
            &&& (env.faults)(k) is None ==> end.result == (if w.s3.contains_key(path) {
                Ok(ReplyView::Data(w.s3[path]))
            } else {
                Err(ErrorView::NotFound(path))
            })
        },
{
    assert((env.faults)(k) is None || (env.faults)(k) is Some);
    if (env.faults)(k) is None && w.s3.contains_key(path) {
        lemma_read_got(env, k, w, path, id, Tier::S3, tiers, fuel);
    }
}

proof fn lemma_read_cold(env: Env, k: nat, w: World, path: Seq<char>, id: i64, tiers: TierBitmask, fuel: nat)
    requires
        fuel >= 4,
    ensures
        run_step(env, k, w, crate::router::read_cold(path, id, tiers), fuel) matches Some(end) && {
            &&& only_accessed(w, end.world)
            &&& healthy(env) ==> end.result == (match cold_copy(w, path, tiers) {
                Some(data) => Ok(ReplyView::Data(data)),
                None => Err(ErrorView::NotFound(path)),
            })
        },
{
    if tiers.holds(Tier::Nas) {
        assert((env.faults)(k) is None || (env.faults)(k) is Some);
        if (env.faults)(k) is None && w.nas.contains_key(path) {
            lemma_read_got(env, k, w, path, id, Tier::Nas, tiers, fuel);
        } else if tiers.holds(Tier::S3) {
            lemma_read_s3(env, k + 1, w, path, id, tiers, (fuel - 1) as nat);
            assert(healthy(env) ==> (env.faults)(k + 1) is None);
        }
    } else if tiers.holds(Tier::S3) {
        lemma_read_s3(env, k, w, path, id, tiers, fuel);
        assert(healthy(env) ==> (env.faults)(k) is None);
    }
}

/// A read ends within six requests and changes nothing but the accesses, whatever
/// fails. If none fails, it gives the copy on the fastest tier; a directory and a path
/// without an entry or a copy are refused.
pub proof fn law_read(env: Env, k: nat, w: World, path: Seq<char>, fuel: nat)
    requires
        fuel >= 6,
    ensures
        run_read(env, k, w, path, fuel) matches Some(end) && {
            &&& only_accessed(w, end.world)
            &&& healthy(env) ==> end.result == (if !w.files.contains_key(path) {
                Err(ErrorView::NotFound(path))
            } else if w.files[path].kind == EntryKind::Directory {
                Err(ErrorView::IsADirectory(path))
            } else {
                match copy_served(w, path, w.files[path].tiers) {
                    Some(data) => Ok(ReplyView::Data(data)),
                    None => Err(ErrorView::NotFound(path)),
                }
            })
        },
{
    assert((env.faults)(k) is None || (env.faults)(k) is Some);
    if (env.faults)(k) is None && w.files.contains_key(path) && w.files[path].kind == EntryKind::File {
        let m = w.files[path];
        let less = (fuel - 1) as nat;
        if m.tiers.holds(Tier::Local) {
            assert((env.faults)(k + 1) is None || (env.faults)(k + 1) is Some);
            let op = RouterView::ReadLocal { path, id: m.id, tiers: m.tiers };
            let get = ActionView::Get { tier: Tier::Local, path };
            assert(run_read(env, k, w, path, fuel) == run(env, k + 1, w, op, get, less));
            if (env.faults)(k + 1) is None && w.local.contains_key(path) {
                lemma_read_end(env, k + 2, w, m.id, w.local[path], (fuel - 2) as nat);
            } else {
                lemma_read_cold(env, k + 2, w, path, m.id, m.tiers, (fuel - 2) as nat);
            }
        } else {
            lemma_read_cold(env, k + 1, w, path, m.id, m.tiers, less);
        }
    }
}

/// What was written is what is read: after a write that succeeded, a read gives the
/// data, if no request fails.
pub proof fn law_read_after_write(
    env: Env,
    w: World,
    path: Seq<char>,
    data: Seq<u8>,
    later: Env,
    k: nat,
    fuel: nat,
)
    requires
        valid_path(path),
        data.len() <= u64::MAX,
        fuel >= 2 * components(path).len() + 6,
        run_write(env, w, path, data, fuel)->0.result is Ok,
        healthy(later),
    ensures
        run_read(later, k, run_write(env, w, path, data, fuel)->0.world, path, fuel)->0.result == Ok::<
            ReplyView,
            ErrorView,
        >(ReplyView::Data(data)),
{
    law_write(env, w, path, data, fuel);
    let w2 = run_write(env, w, path, data, fuel)->0.world;
    law_read(later, k, w2, path, fuel);
    crate::tier::law_set(TierBitmask(0), Tier::Local);
}

// ---------------------------------------------------------------------------
// Looking up and listing

/// Asking for the entry of a path changes nothing and, if the request does not fail,
/// gives the entry; a path without one is refused.
pub proof fn law_stat(env: Env, k: nat, w: World, path: Seq<char>, fuel: nat)
    requires
        fuel >= 1,
    ensures
        run(env, k, w, RouterView::StatMeta { path }, ActionView::Lookup { path }, fuel) matches Some(
            end,
        ) && {
            &&& end.world == w
            &&& healthy(env) ==> end.result == (if w.files.contains_key(path) {
                Ok(ReplyView::Meta(w.files[path]))
            } else {
                Err(ErrorView::NotFound(path))
            })
        },
{
    assert((env.faults)(k) is None || (env.faults)(k) is Some);
}

/// A listing, if its request does not fail, shows each entry directly below the
/// directory once, and nothing else.
pub proof fn law_list(env: Env, k: nat, w: World, dir: Seq<char>, listing: Seq<MetaView>, fuel: nat)
    requires
        fuel >= 1,
        healthy(env),
        is_listing(w, dir, listing),
    ensures
        run(env, k, w, RouterView::ListMeta, ActionView::ListDir { path: dir }, fuel) matches Some(end)
            && end.world == w && exists|ms: Seq<MetaView>|
            is_listing(w, dir, ms) && end.result == Ok::<ReplyView, ErrorView>(
                ReplyView::Entries(#[trigger] crate::router::entries_of(ms)),
            ),
{
    assert((env.faults)(k) is None);
    let ms = choose|ms: Seq<MetaView>| is_listing(w, dir, ms);
    assert(is_listing(w, dir, ms));
    assert(run(env, k, w, RouterView::ListMeta, ActionView::ListDir { path: dir }, fuel)->0.result == Ok::<
        ReplyView,
        ErrorView,
    >(ReplyView::Entries(crate::router::entries_of(ms))));
}

/// The item shows an entry of the store that lies directly below the directory: its kind
/// and size, when it was modified, and the tiers that have it.
pub open spec fn shows(w: World, dir: Seq<char>, e: EntryView) -> bool {
    &&& w.files.contains_key(e.path)
    &&& parent_of(e.path) == Some(dir)
    &&& e.kind == w.files[e.path].kind
    &&& e.size_bytes == w.files[e.path].size_bytes
    &&& e.modified_at == w.files[e.path].modified_at
    &&& e.tiers == w.files[e.path].tiers
}

/// How a listing of the directory ends.
pub open spec fn run_list(env: Env, k: nat, w: World, dir: Seq<char>, fuel: nat) -> Option<Outcome> {
    run(env, k, w, RouterView::ListMeta, ActionView::ListDir { path: dir }, fuel)
}

/// Every item of a listing has the path, the kind, the size, the modification time and the
/// tiers of an entry of the store that lies directly below the directory; and every such
/// entry is shown, once.
pub proof fn law_listing_shows_the_store(env: Env, k: nat, w: World, dir: Seq<char>, listing: Seq<MetaView>, fuel: nat)
    requires
        fuel >= 1,
        healthy(env),
        w.indexed(),
        is_listing(w, dir, listing),
    ensures
        run_list(env, k, w, dir, fuel) matches Some(end) && {
            &&& end.world == w
            &&& end.result matches Ok(ReplyView::Entries(es)) && {
                &&& forall|i: int| 0 <= i < es.len() ==> shows(w, dir, #[trigger] es[i])
                &&& forall|i: int, j: int|
                    0 <= i < j < es.len() ==> (#[trigger] es[i]).path != (#[trigger] es[j]).path
                &&& forall|p: Seq<char>|
                    #[trigger] w.files.contains_key(p) && parent_of(p) == Some(dir) ==> exists|i: int|
                        0 <= i < es.len() && (#[trigger] es[i]).path == p
            }
        },
{
    law_list(env, k, w, dir, listing, fuel);
    let end = run_list(env, k, w, dir, fuel)->0;
    let ms = choose|ms: Seq<MetaView>|
        is_listing(w, dir, ms) && end.result == Ok::<ReplyView, ErrorView>(
            ReplyView::Entries(#[trigger] crate::router::entries_of(ms)),
        );
    let es = crate::router::entries_of(ms);
    assert(es.len() == ms.len());
    assert forall|i: int| 0 <= i < es.len() implies shows(w, dir, #[trigger] es[i]) && es[i].path == ms[i].path
        && w.files[es[i].path] == ms[i] by {
        assert(ms.contains(ms[i]));
    }
    assert forall|p: Seq<char>| #[trigger] w.files.contains_key(p) && parent_of(p) == Some(dir) implies exists|i: int|
        0 <= i < es.len() && (#[trigger] es[i]).path == p by {
        let m = w.files[p];
        assert(ms.contains(m));
        let i = choose|i: int| 0 <= i < ms.len() && ms[i] == m;
        assert(es[i].path == p);
    }
}

/// After a write of some bytes that succeeded, the directory above shows the file with
/// just as many bytes, on the local disk alone.
pub proof fn law_written_is_shown(
    env: Env,
    w: World,
    path: Seq<char>,
    data: Seq<u8>,
    later: Env,
    k: nat,
    listing: Seq<MetaView>,
    fuel: nat,
)
    requires
        valid_path(path),
        path != seq!['/'],
        data.len() <= u64::MAX,
        fuel >= 2 * components(path).len() + 4,
        numbered(w),
        ids_left(w, components(path).len() + 1, 2),
        run_write(env, w, path, data, fuel)->0.result is Ok,
        healthy(later),
        is_listing(run_write(env, w, path, data, fuel)->0.world, parent_of(path)->0, listing),
    ensures
        run_list(later, k, run_write(env, w, path, data, fuel)->0.world, parent_of(path)->0, fuel) matches Some(
            end,
        ) && end.result matches Ok(ReplyView::Entries(es)) && exists|i: int|
            {
                &&& 0 <= i < es.len()
                &&& (#[trigger] es[i]).path == path
                &&& es[i].kind == EntryKind::File
                &&& es[i].size_bytes == data.len()
                &&& es[i].modified_at == (env.clock)(0)
                &&& forall|t: Tier| #[trigger] es[i].tiers.holds(t) <==> t == Tier::Local
            },
{
    law_write(env, w, path, data, fuel);
    let w2 = run_write(env, w, path, data, fuel)->0.world;
    let dir = parent_of(path)->0;
    crate::path::law_parent_then_join(path);
    law_listing_shows_the_store(later, k, w2, dir, listing, fuel);
    let es = run_list(later, k, w2, dir, fuel)->0.result->Ok_0->Entries_0;
    assert(w2.files.contains_key(path) && parent_of(path) == Some(dir));
    let i = choose|i: int| 0 <= i < es.len() && (#[trigger] es[i]).path == path;
    assert(shows(w2, dir, es[i]));
    crate::tier::law_set(TierBitmask(0), Tier::Local);
    assert forall|t: Tier| #[trigger] es[i].tiers.holds(t) <==> t == Tier::Local by {
        crate::tier::law_none_and_all(t);
        assert(TierBitmask(0).with(Tier::Local).holds(t) == (t == Tier::Local || TierBitmask(0).holds(t)));
    }
}

/// What was written is listed: after a write that succeeded, every list of the directory
/// above has the file, and every directory on the way down is listed above it.
pub proof fn law_written_is_listed(
    env: Env,
    w: World,
    path: Seq<char>,
    data: Seq<u8>,
    q: Seq<char>,
    ms: Seq<MetaView>,
    fuel: nat,
)
    requires
        valid_path(path),
        data.len() <= u64::MAX,
        fuel >= 2 * components(path).len() + 4,
        run_write(env, w, path, data, fuel)->0.result is Ok,
        crate::world::numbered(w),
        ids_left(w, components(path).len() + 1, 2),
        valid_path(q),
        path_prefix(q, path),
        q != seq!['/'],
        is_listing(run_write(env, w, path, data, fuel)->0.world, parent_of(q)->0, ms),
    ensures
        ms.contains(run_write(env, w, path, data, fuel)->0.world.files[q]),
{
    law_write(env, w, path, data, fuel);
    let w2 = run_write(env, w, path, data, fuel)->0.world;
    assert(w2.files.contains_key(q));
    assert(w2.files[q].path == q);
    crate::path::law_parent_then_join(q);
}

// ---------------------------------------------------------------------------
// Deleting

/// How a delete of the path ends.
pub open spec fn run_delete(env: Env, k: nat, w: World, path: Seq<char>, fuel: nat) -> Option<Outcome> {
    run(env, k, w, RouterView::DeleteMeta { path }, ActionView::Lookup { path }, fuel)
}

/// From `w` to `w2` the path was deleted: its entry, its copies on the tiers of its
/// mask, and what the log had for it are gone, and nothing else is.
pub open spec fn deleted(w: World, w2: World, path: Seq<char>) -> bool {
    let m = w.files[path];
    &&& w.files.contains_key(path)
    &&& w2.files == w.files.remove(path)
    &&& forall|t: Tier| #[trigger] w2.store(t) == w.store_without(t, m.tiers, path)
    &&& w2.wal == crate::world::without_file(w.wal, m.id)
}

/// A delete ends within three requests. If it succeeds, the path was deleted; without
/// failures it succeeds if and only if the path has an entry.
pub proof fn law_delete(env: Env, k: nat, w: World, path: Seq<char>, fuel: nat)
    requires
        fuel >= 3,
    ensures
        run_delete(env, k, w, path, fuel) matches Some(end) && {
            &&& end.result matches Ok(r) ==> r == ReplyView::Done && deleted(w, end.world, path)
            &&& healthy(env) && w.files.contains_key(path) ==> end.result is Ok
            &&& healthy(env) && !w.files.contains_key(path) ==> end.world == w && end.result == Err::<
                ReplyView,
                ErrorView,
            >(ErrorView::NotFound(path))
        },
{
    reveal_with_fuel(run, 4);
    assert((env.faults)(k) is None || (env.faults)(k) is Some);
    assert((env.faults)(k + 1) is None || (env.faults)(k + 1) is Some);
    assert((env.faults)(k + 2) is None || (env.faults)(k + 2) is Some);
}

/// What was deleted is no longer found: after a delete that succeeded, a read and
/// another delete are refused, if no request fails.
pub proof fn law_deleted_is_gone(env: Env, k: nat, w: World, path: Seq<char>, later: Env, j: nat, fuel: nat)
    requires
        fuel >= 6,
        run_delete(env, k, w, path, fuel)->0.result is Ok,
        healthy(later),
    ensures
        run_read(later, j, run_delete(env, k, w, path, fuel)->0.world, path, fuel)->0.result == Err::<
            ReplyView,
            ErrorView,
        >(ErrorView::NotFound(path)),
        run_delete(later, j, run_delete(env, k, w, path, fuel)->0.world, path, fuel)->0.result == Err::<
            ReplyView,
            ErrorView,
        >(ErrorView::NotFound(path)),
{
    law_delete(env, k, w, path, fuel);
    let w2 = run_delete(env, k, w, path, fuel)->0.world;
    law_read(later, j, w2, path, fuel);
    law_delete(later, j, w2, path, fuel);
}

// ---------------------------------------------------------------------------
// Evicting

/// How an eviction of the path from a tier ends.
pub open spec fn run_evict(env: Env, k: nat, w: World, path: Seq<char>, tier: Tier, fuel: nat) -> Option<Outcome> {
    run(env, k, w, RouterView::EvictMeta { path, tier }, ActionView::Lookup { path }, fuel)
}

/// From `w` to `w2` the copy of the path on the tier was given up, and nothing else.
pub open spec fn evicted(w: World, w2: World, path: Seq<char>, tier: Tier) -> bool {
    &&& w.files.contains_key(path)
    &&& w.files[path].tiers.can_lose(tier)
    &&& w.store(tier).contains_key(path)
    &&& forall|t: Tier|
        #[trigger] w2.store(t) == if t == tier {
            w.store(t).remove(path)
        } else {
            w.store(t)
        }
    &&& w2.files == w.files.insert(
        path,
        MetaView { tiers: w.files[path].tiers.without(tier), ..w.files[path] },
    )
    &&& w2.wal == w.wal
}

/// Nothing that the object store has is ever given up: whatever fails, from `w` to `w2`
/// the object store holds what it held, every entry is still there and has the object
/// store in its mask if it had, and only files that have it have lost a copy.
pub open spec fn s3_kept(w: World, w2: World) -> bool {
    &&& w2.s3 == w.s3
    &&& w2.wal == w.wal
    &&& forall|p: Seq<char>| #[trigger] w2.files.contains_key(p) == w.files.contains_key(p)
    &&& forall|p: Seq<char>|
        #[trigger] w.files.contains_key(p) ==> w2.files[p] == (MetaView {
            tiers: w2.files[p].tiers,
            ..w.files[p]
        }) && w2.files[p].tiers.holds(Tier::S3) == w.files[p].tiers.holds(Tier::S3)
    &&& forall|t: Tier, p: Seq<char>|
        #[trigger] w.store(t).contains_key(p) ==> (w2.store(t).contains_key(p) && w2.store(t)[p]
            == w.store(t)[p]) || (t != Tier::S3 && w.files.contains_key(p)
            && w.files[p].tiers.holds(Tier::S3))
}

/// An eviction ends within three requests and keeps what the object store has, whatever
/// fails. If it succeeds, the copy was given up and nothing else; without failures it
/// succeeds if and only if the object store has the file too and the tier has a copy.
pub proof fn law_evict(env: Env, k: nat, w: World, path: Seq<char>, tier: Tier, fuel: nat)
    requires
        fuel >= 3,
        w.indexed(),
    ensures
        run_evict(env, k, w, path, tier, fuel) matches Some(end) && {
            &&& s3_kept(w, end.world)
            &&& end.result matches Ok(r) ==> r == ReplyView::Done && evicted(
                w,
                end.world,
                path,
                tier,
            )
            &&& healthy(env) ==> end.result == (if !w.files.contains_key(path) {
                Err(ErrorView::NotFound(path))
            } else if !w.files[path].tiers.can_lose(tier) {
                Err(ErrorView::Other("cannot evict: file not present on colder tier"@))
            } else if !w.store(tier).contains_key(path) {
                Err(ErrorView::NotFound(path))
            } else {
                Ok(ReplyView::Done)
            })
        },
{
    reveal_with_fuel(run, 4);
    assert((env.faults)(k) is None || (env.faults)(k) is Some);
    assert((env.faults)(k + 1) is None || (env.faults)(k + 1) is Some);
    assert((env.faults)(k + 2) is None || (env.faults)(k + 2) is Some);
    let m = w.files[path];
    crate::tier::law_clear(m.tiers, tier);
    if (env.faults)(k) is None && w.files.contains_key(path) && m.tiers.can_lose(tier) && (env.faults)(k + 1) is None
        && w.store(tier).contains_key(path) {
        let w1 = w.with_store(tier, w.store(tier).remove(path));
        if (env.faults)(k + 2) is None {
            let left = m.tiers.without(tier);
            let w2 = crate::world::with_entry(w1, m.id, |x: MetaView| MetaView { tiers: left, ..x });
            assert(run_evict(env, k, w, path, tier, fuel)->0.world == w2);
            assert(w2.files =~= w.files.insert(path, MetaView { tiers: left, ..m }));
        }
    }
}

/// Every tier in the mask of the path has the same content.
pub open spec fn replicas(w: World, path: Seq<char>, data: Seq<u8>) -> bool {
    &&& w.files.contains_key(path)
    &&& w.files[path].kind == EntryKind::File
    &&& forall|t: Tier|
        #[trigger] w.files[path].tiers.holds(t) ==> w.store(t).contains_key(path) && w.store(t)[path]
            == data
}

/// A file with at least one copy, all copies the same, reads as that content.
pub proof fn law_replicas_are_read(env: Env, k: nat, w: World, path: Seq<char>, data: Seq<u8>, t: Tier, fuel: nat)
    requires
        fuel >= 6,
        healthy(env),
        replicas(w, path, data),
        w.files[path].tiers.holds(t),
    ensures
        run_read(env, k, w, path, fuel)->0.result == Ok::<ReplyView, ErrorView>(
            ReplyView::Data(data),
        ),
{
    law_read(env, k, w, path, fuel);
    assert(w.files[path].tiers.holds(Tier::Local) || w.files[path].tiers.holds(Tier::Nas)
        || w.files[path].tiers.holds(Tier::S3));
}

/// A write leaves a file all of whose copies are what was written.
pub proof fn law_write_makes_replicas(env: Env, w: World, path: Seq<char>, data: Seq<u8>, fuel: nat)
    requires
        valid_path(path),
        data.len() <= u64::MAX,
        fuel >= 2 * components(path).len() + 4,
        run_write(env, w, path, data, fuel)->0.result is Ok,
    ensures
        replicas(run_write(env, w, path, data, fuel)->0.world, path, data),
{
    law_write(env, w, path, data, fuel);
    crate::tier::law_set(TierBitmask(0), Tier::Local);
    let w2 = run_write(env, w, path, data, fuel)->0.world;
    assert forall|t: Tier| #[trigger] w2.files[path].tiers.holds(t) implies w2.store(t).contains_key(path)
        && w2.store(t)[path] == data by {
        crate::tier::law_none_and_all(t);
    }
}

/// An evicted file is still readable: if all its copies were the same, those left are,
/// the object store's is one of them, and a read gives the content.
pub proof fn law_evicted_is_readable(
    env: Env,
    k: nat,
    w: World,
    path: Seq<char>,
    tier: Tier,
    data: Seq<u8>,
    later: Env,
    j: nat,
    fuel: nat,
)
    requires
        fuel >= 6,
        w.indexed(),
        replicas(w, path, data),
        run_evict(env, k, w, path, tier, fuel)->0.result is Ok,
        healthy(later),
    ensures
        replicas(run_evict(env, k, w, path, tier, fuel)->0.world, path, data),
        run_evict(env, k, w, path, tier, fuel)->0.world.s3[path] == data,
        run_read(later, j, run_evict(env, k, w, path, tier, fuel)->0.world, path, fuel)->0.result
            == Ok::<ReplyView, ErrorView>(ReplyView::Data(data)),
{
    law_evict(env, k, w, path, tier, fuel);
    let w2 = run_evict(env, k, w, path, tier, fuel)->0.world;
    crate::tier::law_clear(w.files[path].tiers, tier);
    assert(w.files[path].tiers.holds(Tier::S3));
    assert forall|t: Tier| #[trigger] w2.files[path].tiers.holds(t) implies w2.store(t).contains_key(path)
        && w2.store(t)[path] == data by {
        assert(t != tier && w.files[path].tiers.holds(t));
        assert(w2.store(t) == w.store(t));
    }
    law_replicas_are_read(later, j, w2, path, data, Tier::S3, fuel);
}

/// The object store is the source of truth: a file in it can always be read, if no
/// request fails; and what is read is its copy there when the local copy and the copy on
/// the NAS are lost, or not in the mask.
pub proof fn law_recoverable_from_s3(env: Env, k: nat, w: World, path: Seq<char>, data: Seq<u8>, fuel: nat)
    requires
        fuel >= 6,
        healthy(env),
        w.files.contains_key(path),
        w.files[path].kind == EntryKind::File,
        w.files[path].tiers.holds(Tier::S3),
        w.s3.contains_key(path),
        w.s3[path] == data,
    ensures
        run_read(env, k, w, path, fuel)->0.result matches Ok(r) && r is Data,
        (forall|t: Tier|
            t != Tier::S3 && w.files[path].tiers.holds(t) ==> !(#[trigger] w.store(t).contains_key(path)))
            ==> run_read(env, k, w, path, fuel)->0.result == Ok::<ReplyView, ErrorView>(
            ReplyView::Data(data),
        ),
{
    law_read(env, k, w, path, fuel);
    if forall|t: Tier|
        t != Tier::S3 && w.files[path].tiers.holds(t) ==> !(#[trigger] w.store(t).contains_key(path)) {
        assert(w.files[path].tiers.holds(Tier::Local) ==> !w.store(Tier::Local).contains_key(path));
        assert(w.files[path].tiers.holds(Tier::Nas) ==> !w.store(Tier::Nas).contains_key(path));
    }
}

/// The same holds when the other tiers fail rather than have lost their copies: a file on
/// every tier is read from the object store if neither the local disk nor the NAS gives
/// it, for whatever reason.
pub proof fn law_s3_is_asked_last(env: Env, k: nat, w: World, path: Seq<char>, data: Seq<u8>, fuel: nat)
    requires
        fuel >= 6,
        w.files.contains_key(path),
        w.files[path].kind == EntryKind::File,
        forall|t: Tier| #[trigger] w.files[path].tiers.holds(t),
        w.s3.contains_key(path),
        w.s3[path] == data,
        (env.faults)(k) is None,
        (env.faults)(k + 1) is Some || !w.local.contains_key(path),
        (env.faults)(k + 2) is Some || !w.nas.contains_key(path),
        (env.faults)(k + 3) is None,
    ensures
        run_read(env, k, w, path, fuel)->0.result == Ok::<ReplyView, ErrorView>(
            ReplyView::Data(data),
        ),
{
    let m = w.files[path];
    assert(m.tiers.holds(Tier::Local) && m.tiers.holds(Tier::Nas) && m.tiers.holds(Tier::S3));
    assert((env.faults)(k + 1) is None || (env.faults)(k + 1) is Some);
    assert((env.faults)(k + 2) is None || (env.faults)(k + 2) is Some);
    let local = RouterView::ReadLocal { path, id: m.id, tiers: m.tiers };
    let nas = RouterView::ReadCold { path, id: m.id, from: Tier::Nas, tiers: m.tiers };
    assert(run_read(env, k, w, path, fuel) == run(
        env,
        k + 1,
        w,
        local,
        ActionView::Get { tier: Tier::Local, path },
        (fuel - 1) as nat,
    ));
    assert(run(env, k + 1, w, local, ActionView::Get { tier: Tier::Local, path }, (fuel - 1) as nat) == run(
        env,
        k + 2,
        w,
        nas,
        ActionView::Get { tier: Tier::Nas, path },
        (fuel - 2) as nat,
    ));
    lemma_read_s3(env, k + 3, w, path, m.id, m.tiers, (fuel - 3) as nat);
}

} // verus!
