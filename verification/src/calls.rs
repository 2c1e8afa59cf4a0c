//! What the calls of the daemon's mount do to the files, as laws about how they run.

use crate::action::ActionView;
use crate::action::EventView;
use crate::error::ErrorView;
use crate::fuse::bijective;
use crate::fuse::has_number;
use crate::fuse::is_part;
use crate::fuse::overwritten;
use crate::fuse::slice_at;
use crate::fuse::spliced;
use crate::fuse::streamable;
use crate::fuse::tells;
use crate::fuse::Errno;
use crate::fuse::InodesView;
use crate::fuse::Times;
use crate::fuse::ROOT_INO;
use crate::fuse_daemon::ask_attr;
use crate::fuse_daemon::call_step;
use crate::fuse_daemon::call_table;
use crate::fuse_daemon::read_errno;
use crate::fuse_daemon::run_call;
use crate::fuse_daemon::unlink_errno;
use crate::fuse_daemon::write_back;
use crate::fuse_daemon::write_op;
use crate::fuse_daemon::CallOutcome;
use crate::fuse_daemon::CallReplyView;
use crate::fuse_daemon::CallStepView;
use crate::fuse_daemon::CallView;
use crate::guarantees::copy_served;
use crate::guarantees::deleted;
use crate::guarantees::only_accessed;
use crate::guarantees::replication_enqueued;
use crate::guarantees::run_list;
use crate::guarantees::run_read;
use crate::guarantees::shows;
use crate::path::components;
use crate::path::parent_of;
use crate::path::valid_path;
use crate::router::router_step;
use crate::router::ReplyView;
use crate::router::RouterView;
use crate::router::StepView;
use crate::tier::Tier;
use crate::tier::TierBitmask;
use crate::types::EntryKind;
use crate::types::MetaView;
use crate::world::healthy;
use crate::world::is_listing;
use crate::world::perform;
use crate::world::run;
use crate::world::Env;
use crate::world::World;
use vstd::prelude::*;

verus! {

// ---------------------------------------------------------------------------
// Calls and the operations in them

/// The requests from the `n`-th on, counted from there.
pub open spec fn shifted(env: Env, n: nat) -> Env {
    Env { clock: |i: nat| (env.clock)(n + i), faults: |i: nat| (env.faults)(n + i) }
}

/// An operation runs the same wherever its requests are counted from.
proof fn lemma_shifted(env: Env, n: nat, j: nat, w: World, s: RouterView, a: ActionView, fuel: nat)
    ensures
        run(shifted(env, n), j, w, s, a, fuel) == run(env, n + j, w, s, a, fuel),
    decreases fuel,
{
    if fuel > 0 {
        let (w2, e) = perform(env, n + j, w, a);
        assert(perform(shifted(env, n), j, w, a) == (w2, e));
        if let StepView::Next(s2, a2) = router_step(s, e, (env.clock)(n + j)) {
            lemma_shifted(env, n, j + 1, w2, s2, a2, (fuel - 1) as nat);
            assert(n + (j + 1) == (n + j) + 1);
        }
    }
}

proof fn lemma_shifted_is_healthy(env: Env, n: nat)
    requires
        healthy(env),
    ensures
        healthy(shifted(env, n)),
{
    assert forall|i: nat| #[trigger] (shifted(env, n).faults)(i) is None by {
        assert((env.faults)(n + i) is None);
    }
}

/// How a call ends from one of its steps on.
pub open spec fn run_call_step(env: Env, k: nat, w: World, t: InodesView, step: CallStepView, fuel: nat) -> Option<
    CallOutcome,
> {
    match step {
        CallStepView::Done(r) => Some(CallOutcome { world: w, table: t, result: r }),
        CallStepView::Next(s, a) => run_call(env, k, w, t, s, a, fuel),
    }
}

/// While a call is at work on an operation it goes as the operation goes, and then goes on
/// with the result. Gives the number of requests that the operation takes.
proof fn lemma_wrapped(
    env: Env,
    k: nat,
    w: World,
    t: InodesView,
    wrap: spec_fn(RouterView) -> CallView,
    then: spec_fn(Result<ReplyView, ErrorView>) -> CallStepView,
    op: RouterView,
    a: ActionView,
    less: nat,
    fuel: nat,
) -> (n: nat)
    requires
        run(env, k, w, op, a, less) is Some,
        less <= fuel,
        forall|o: RouterView, e: EventView, now: i64| #[trigger]
            call_step(t, wrap(o), e, now) == (match router_step(o, e, now) {
                StepView::Next(o2, a2) => CallStepView::Next(wrap(o2), a2),
                StepView::Done(r) => then(r),
            }),
        forall|o: RouterView, e: EventView, now: i64| #[trigger] call_table(t, wrap(o), e, now) == t,
    ensures
        0 < n <= less,
        run_call(env, k, w, t, wrap(op), a, fuel) == run_call_step(
            env,
            k + n,
            run(env, k, w, op, a, less)->0.world,
            t,
            then(run(env, k, w, op, a, less)->0.result),
            (fuel - n) as nat,
        ),
    decreases less,
{
    let (w2, e) = perform(env, k, w, a);
    let now = (env.clock)(k);
    assert(call_table(t, wrap(op), e, now) == t);
    assert(call_step(t, wrap(op), e, now) == (match router_step(op, e, now) {
        StepView::Next(o2, a2) => CallStepView::Next(wrap(o2), a2),
        StepView::Done(r) => then(r),
    }));
    match router_step(op, e, now) {
        StepView::Done(r) => 1,
        StepView::Next(op2, a2) => {
            let n = lemma_wrapped(
                env,
                k + 1,
                w2,
                t,
                wrap,
                then,
                op2,
                a2,
                (less - 1) as nat,
                (fuel - 1) as nat,
            );
            n + 1
        },
    }
}

/// What a reader finds at the path: the copy on the fastest tier that has the file, if
/// there is such a file.
pub open spec fn content_of(w: World, path: Seq<char>) -> Option<Seq<u8>> {
    if w.files.contains_key(path) && w.files[path].kind == EntryKind::File {
        copy_served(w, path, w.files[path].tiers)
    } else {
        None
    }
}

// ---------------------------------------------------------------------------
// Reading

/// How a call that reads ends.
pub open spec fn run_read_call(
    env: Env,
    k: nat,
    w: World,
    t: InodesView,
    path: Seq<char>,
    offset: i64,
    size: u32,
    fuel: nat,
) -> Option<CallOutcome> {
    run_call(
        env,
        k,
        w,
        t,
        CallView::Reading { offset, size, op: RouterView::ReadMeta { path } },
        ActionView::Lookup { path },
        fuel,
    )
}

/// A call that reads gives the bytes of the file that were asked for, if no request fails;
/// a directory and a path without a file are refused. Nothing is changed but the accesses.
pub proof fn law_read_call(
    env: Env,
    k: nat,
    w: World,
    t: InodesView,
    path: Seq<char>,
    offset: i64,
    size: u32,
    fuel: nat,
)
    requires
        healthy(env),
        fuel >= 6,
    ensures
        run_read_call(env, k, w, t, path, offset, size, fuel) matches Some(end) && {
            &&& end.table == t
            &&& only_accessed(w, end.world)
            &&& match content_of(w, path) {
                Some(content) => end.result matches Ok(CallReplyView::Data(part)) && is_part(
                    part,
                    content,
                    offset as int,
                    size as int,
                ),
                None => end.result == Err::<CallReplyView, Errno>(
                    if w.files.contains_key(path) && w.files[path].kind == EntryKind::Directory {
                        Errno::IsDir
                    } else {
                        Errno::NoEntry
                    },
                ),
            }
        },
{
    crate::guarantees::law_read(env, k, w, path, fuel);
    let n = lemma_wrapped(
        env,
        k,
        w,
        t,
        |o: RouterView| CallView::Reading { offset, size, op: o },
        |r: Result<ReplyView, ErrorView>|
            match r {
                Ok(ReplyView::Data(data)) => CallStepView::Done(
                    Ok(CallReplyView::Data(slice_at(data, offset, size))),
                ),
                Ok(_) => arbitrary(),
                Err(x) => CallStepView::Done(Err(read_errno(x))),
            },
        RouterView::ReadMeta { path },
        ActionView::Lookup { path },
        fuel,
        fuel,
    );
}

// ---------------------------------------------------------------------------
// Writing

/// What is at the path before a write: the content of the file, or nothing where there is
/// none that can be read.
pub open spec fn base_content_of(w: World, path: Seq<char>) -> Seq<u8> {
    match content_of(w, path) {
        Some(content) => content,
        None => Seq::empty(),
    }
}

/// How a call that writes ends.
pub open spec fn run_write_call(
    env: Env,
    k: nat,
    w: World,
    t: InodesView,
    path: Seq<char>,
    offset: int,
    data: Seq<u8>,
    fuel: nat,
) -> Option<CallOutcome> {
    run_call(
        env,
        k,
        w,
        t,
        CallView::WriteRead { path, at: offset, data, op: RouterView::ReadMeta { path } },
        ActionView::Lookup { path },
        fuel,
    )
}

/// A write call, from the operation that puts the new content back on.
proof fn lemma_write_back(
    env: Env,
    k: nat,
    w: World,
    t: InodesView,
    path: Seq<char>,
    base: Seq<u8>,
    offset: int,
    data: Seq<u8>,
    fuel: nat,
)
    requires
        healthy(env),
        valid_path(path),
        0 <= offset,
        base.len() < 0x2000_0000_0000_0000,
        offset + data.len() < 0x2000_0000_0000_0000,
        fuel >= 2 * components(path).len() + 4,
    ensures
        run_call_step(env, k, w, t, write_back(path, base, offset, data), fuel) matches Some(end) && {
            &&& end.table == t
            &&& end.result == Ok::<CallReplyView, Errno>(CallReplyView::Written(data.len() as u32))
            &&& crate::guarantees::written(w, end.world, path, spliced(base, offset, data))
        },
{
    let whole = spliced(base, offset, data);
    let op = write_op(path, whole);
    let put = ActionView::Put { tier: Tier::Local, path, data: whole };
    let len = data.len() as int;
    let later = shifted(env, k);
    lemma_shifted_is_healthy(env, k);
    crate::guarantees::law_write(later, w, path, whole, fuel);
    lemma_shifted(env, k, 0, w, op, put, fuel);
    assert(crate::guarantees::run_write(later, w, path, whole, fuel) == run(env, k, w, op, put, fuel));
    let n = lemma_wrapped(
        env,
        k,
        w,
        t,
        |o: RouterView| CallView::WriteBack { len, op: o },
        |r: Result<ReplyView, ErrorView>|
            match r {
                Ok(_) => CallStepView::Done(Ok(CallReplyView::Written(len as u32))),
                Err(_) => CallStepView::Done(Err(Errno::Io)),
            },
        op,
        put,
        fuel,
        fuel,
    );
}

/// What was written is what a reader finds.
proof fn lemma_written_content(w: World, w2: World, path: Seq<char>, data: Seq<u8>)
    requires
        crate::guarantees::written(w, w2, path, data),
    ensures
        content_of(w2, path) == Some(data),
        w2.local.contains_key(path),
        w2.local[path] == data,
{
    crate::tier::law_set(TierBitmask(0), Tier::Local);
    assert(TierBitmask(0).with(Tier::Local).holds(Tier::Local));
}

/// A write call reads what there is and puts it back with the data in it. Gives the world
/// between the two.
proof fn lemma_write_call(
    env: Env,
    k: nat,
    w: World,
    t: InodesView,
    path: Seq<char>,
    offset: int,
    data: Seq<u8>,
    fuel: nat,
) -> (w1: World)
    requires
        healthy(env),
        valid_path(path),
        0 <= offset,
        base_content_of(w, path).len() < 0x2000_0000_0000_0000,
        offset + data.len() < 0x2000_0000_0000_0000,
        fuel >= 2 * components(path).len() + 10,
    ensures
        only_accessed(w, w1),
        run_write_call(env, k, w, t, path, offset, data, fuel) matches Some(end) && {
            &&& end.table == t
            &&& end.result == Ok::<CallReplyView, Errno>(CallReplyView::Written(data.len() as u32))
            &&& crate::guarantees::written(
                w1,
                end.world,
                path,
                spliced(base_content_of(w, path), offset, data),
            )
        },
{
    let less = 6nat;
    crate::guarantees::law_read(env, k, w, path, less);
    let read = run_read(env, k, w, path, less)->0;
    let base = base_content_of(w, path);
    let n = lemma_wrapped(
        env,
        k,
        w,
        t,
        |o: RouterView| CallView::WriteRead { path, at: offset, data, op: o },
        |r: Result<ReplyView, ErrorView>|
            match r {
                Ok(ReplyView::Data(b)) => write_back(path, b, offset, data),
                Ok(_) => arbitrary(),
                Err(_) => write_back(path, Seq::empty(), offset, data),
            },
        RouterView::ReadMeta { path },
        ActionView::Lookup { path },
        less,
        fuel,
    );
    lemma_write_back(env, k + n, read.world, t, path, base, offset, data, (fuel - n) as nat);
    read.world
}

/// A call that writes changes the bytes that it is given and no others: if no request
/// fails, it reports how many bytes were given, and the local disk, and whoever reads the
/// path, has what the file held with the data in it. Every byte outside of them is still
/// there, and the file is not shorter than it was. No other file is touched, and both
/// replications are enqueued.
pub proof fn law_write_call(
    env: Env,
    k: nat,
    w: World,
    t: InodesView,
    path: Seq<char>,
    offset: int,
    data: Seq<u8>,
    fuel: nat,
)
    requires
        healthy(env),
        valid_path(path),
        0 <= offset,
        base_content_of(w, path).len() < 0x2000_0000_0000_0000,
        offset + data.len() < 0x2000_0000_0000_0000,
        fuel >= 2 * components(path).len() + 10,
    ensures
        run_write_call(env, k, w, t, path, offset, data, fuel) matches Some(end) && {
            &&& end.table == t
            &&& end.result == Ok::<CallReplyView, Errno>(CallReplyView::Written(data.len() as u32))
            &&& content_of(end.world, path) matches Some(after) && {
                &&& end.world.local.contains_key(path) && end.world.local[path] == after
                &&& overwritten(base_content_of(w, path), after, offset, data)
                &&& after.len() >= base_content_of(w, path).len()
                &&& end.world.files[path].size_bytes == after.len()
                &&& end.world.files[path].sha256 == crate::digest::content_hash(after)
            }
            &&& forall|t: Tier, q: Seq<char>|
                q != path ==> #[trigger] end.world.store(t).contains_key(q) == w.store(t).contains_key(q)
                    && end.world.store(t)[q] == w.store(t)[q]
            &&& forall|q: Seq<char>|
                q != path && #[trigger] w.files.contains_key(q) ==> end.world.files.contains_key(q)
                    && end.world.files[q].size_bytes == w.files[q].size_bytes && end.world.files[q].kind
                    == w.files[q].kind && end.world.files[q].tiers == w.files[q].tiers
            &&& replication_enqueued(w.wal, end.world.wal, end.world.files[path].id)
        },
{
    let w1 = lemma_write_call(env, k, w, t, path, offset, data, fuel);
    let end = run_write_call(env, k, w, t, path, offset, data, fuel)->0;
    let base = base_content_of(w, path);
    let whole = spliced(base, offset, data);
    lemma_written_content(w1, end.world, path, whole);
    assert(overwritten(base, whole, offset, data)) by {
        assert forall|i: int| 0 <= i < data.len() implies whole[offset + i] == #[trigger] data[i] by {}
    }
    assert forall|u: Tier, q: Seq<char>| q != path implies #[trigger] end.world.store(u).contains_key(q)
        == w.store(u).contains_key(q) && end.world.store(u)[q] == w.store(u)[q] by {
        match u {
            Tier::Local => {},
            Tier::Nas => {},
            Tier::S3 => {},
        }
    }
    assert forall|q: Seq<char>| q != path && #[trigger] w.files.contains_key(q) implies end.world.files.contains_key(
        q,
    ) && end.world.files[q].size_bytes == w.files[q].size_bytes && end.world.files[q].kind
        == w.files[q].kind && end.world.files[q].tiers == w.files[q].tiers by {
        assert(w1.files.contains_key(q));
    }
}

/// What a call wrote is what a call reads, if no request fails: at the same offset and of
/// the same length it gives the data, and elsewhere what the file held.
pub proof fn law_write_call_then_read_call(
    env: Env,
    k: nat,
    w: World,
    t: InodesView,
    path: Seq<char>,
    offset: i64,
    data: Seq<u8>,
    later: Env,
    j: nat,
    from: i64,
    size: u32,
    fuel: nat,
)
    requires
        healthy(env),
        healthy(later),
        valid_path(path),
        0 <= offset,
        base_content_of(w, path).len() < 0x2000_0000_0000_0000,
        offset + data.len() < 0x2000_0000_0000_0000,
        fuel >= 2 * components(path).len() + 10,
    ensures
        run_write_call(env, k, w, t, path, offset as int, data, fuel) matches Some(end)
            && run_read_call(later, j, end.world, end.table, path, from, size, fuel) matches Some(got)
            && got.result matches Ok(CallReplyView::Data(part)) && {
            &&& from == offset && size == data.len() ==> part == data
            &&& forall|i: int|
                0 <= i < part.len() && from + i < base_content_of(w, path).len() && (from + i < offset
                    || offset + data.len() <= from + i) ==> #[trigger] part[i] == base_content_of(
                    w,
                    path,
                )[from + i]
        },
{
    law_write_call(env, k, w, t, path, offset as int, data, fuel);
    let end = run_write_call(env, k, w, t, path, offset as int, data, fuel)->0;
    law_read_call(later, j, end.world, end.table, path, from, size, fuel);
    let part = run_read_call(later, j, end.world, end.table, path, from, size, fuel)->0.result->Ok_0->Data_0;
    let after = content_of(end.world, path)->0;
    if from == offset && size == data.len() {
        assert forall|i: int| 0 <= i < data.len() implies part[i] == data[i] by {
            assert(after[offset + i] == data[i]);
        }
        assert(part =~= data);
    }
    let base = base_content_of(w, path);
    assert forall|i: int|
        0 <= i < part.len() && from + i < base.len() && (from + i < offset || offset + data.len() <= from + i) implies #[trigger] part[i]
        == base[from + i] by {
        assert(0 <= from);
        assert(after[from + i] == base[from + i]);
    }
}

/// A call that reads ends as its read does, whatever fails: with the part of the data that
/// was asked for, or refused. What is not found and what is a directory are told apart from
/// anything else that went wrong.
pub proof fn law_read_call_whatever_fails(
    env: Env,
    k: nat,
    w: World,
    t: InodesView,
    path: Seq<char>,
    offset: i64,
    size: u32,
    fuel: nat,
)
    requires
        fuel >= 6,
    ensures
        run_read_call(env, k, w, t, path, offset, size, fuel) matches Some(end) && {
            &&& end.table == t
            &&& end.world == run_read(env, k, w, path, fuel)->0.world
            &&& match run_read(env, k, w, path, fuel)->0.result {
                Ok(reply) => reply matches ReplyView::Data(data) && (end.result matches Ok(
                    CallReplyView::Data(part),
                ) && is_part(part, data, offset as int, size as int)),
                Err(ErrorView::NotFound(_)) => end.result == Err::<CallReplyView, Errno>(
                    Errno::NoEntry,
                ),
                Err(ErrorView::IsADirectory(_)) => end.result == Err::<CallReplyView, Errno>(
                    Errno::IsDir,
                ),
                Err(_) => end.result == Err::<CallReplyView, Errno>(Errno::Io),
            }
        },
{
    crate::reads::law_read_whatever_fails(env, k, w, path, fuel);
    assert((env.faults)(k) is None || (env.faults)(k) is Some);
    let n = lemma_wrapped(
        env,
        k,
        w,
        t,
        |o: RouterView| CallView::Reading { offset, size, op: o },
        |r: Result<ReplyView, ErrorView>|
            match r {
                Ok(ReplyView::Data(data)) => CallStepView::Done(
                    Ok(CallReplyView::Data(slice_at(data, offset, size))),
                ),
                Ok(_) => arbitrary(),
                Err(x) => CallStepView::Done(Err(read_errno(x))),
            },
        RouterView::ReadMeta { path },
        ActionView::Lookup { path },
        fuel,
        fuel,
    );
}

/// What a write starts from, whatever fails: what the read in front of it gives, and
/// nothing where that is refused.
pub open spec fn base_read(env: Env, k: nat, w: World, path: Seq<char>) -> Seq<u8> {
    match run_read(env, k, w, path, 6)->0.result {
        Ok(ReplyView::Data(data)) => data,
        _ => Seq::empty(),
    }
}

/// A call that writes either succeeds, and then the file has what was read of it with the
/// data in it, or fails with an input/output error, whatever goes wrong.
pub proof fn law_write_call_whatever_fails(
    env: Env,
    k: nat,
    w: World,
    t: InodesView,
    path: Seq<char>,
    offset: int,
    data: Seq<u8>,
    fuel: nat,
)
    requires
        valid_path(path),
        0 <= offset,
        base_read(env, k, w, path).len() < 0x2000_0000_0000_0000,
        offset + data.len() < 0x2000_0000_0000_0000,
        fuel >= 2 * components(path).len() + 10,
    ensures
        run_write_call(env, k, w, t, path, offset, data, fuel) matches Some(end) && {
            &&& end.table == t
            &&& end.result is Err ==> end.result == Err::<CallReplyView, Errno>(Errno::Io)
            &&& end.result is Ok ==> {
                &&& end.result == Ok::<CallReplyView, Errno>(
                    CallReplyView::Written(data.len() as u32),
                )
                &&& content_of(end.world, path) matches Some(after) && overwritten(
                    base_read(env, k, w, path),
                    after,
                    offset,
                    data,
                )
            }
        },
{
    let base = base_read(env, k, w, path);
    let n = lemma_write_call_reads(env, k, w, t, path, offset, data, fuel);
    let w1 = run_read(env, k, w, path, 6)->0.world;
    let less = (fuel - n) as nat;
    let whole = spliced(base, offset, data);
    let op = write_op(path, whole);
    let put = ActionView::Put { tier: Tier::Local, path, data: whole };
    let len = data.len() as int;
    let later = shifted(env, k + n);
    crate::guarantees::law_write(later, w1, path, whole, less);
    lemma_shifted(env, k + n, 0, w1, op, put, less);
    assert(crate::guarantees::run_write(later, w1, path, whole, less) == run(
        env,
        k + n,
        w1,
        op,
        put,
        less,
    ));
    let m = lemma_wrapped(
        env,
        k + n,
        w1,
        t,
        |o: RouterView| CallView::WriteBack { len, op: o },
        |r: Result<ReplyView, ErrorView>|
            match r {
                Ok(_) => CallStepView::Done(Ok(CallReplyView::Written(len as u32))),
                Err(_) => CallStepView::Done(Err(Errno::Io)),
            },
        op,
        put,
        less,
        less,
    );
    let end = run_write_call(env, k, w, t, path, offset, data, fuel)->0;
    if end.result is Ok {
        lemma_written_content(w1, end.world, path, whole);
        crate::fuse::law_splice_overwrites(base, offset, data);
    }
}

/// The first part of a call that writes: the file is read. Gives the number of requests
/// that this takes.
proof fn lemma_write_call_reads(
    env: Env,
    k: nat,
    w: World,
    t: InodesView,
    path: Seq<char>,
    offset: int,
    data: Seq<u8>,
    fuel: nat,
) -> (n: nat)
    requires
        fuel >= 6,
    ensures
        0 < n <= 6,
        run_write_call(env, k, w, t, path, offset, data, fuel) == run_call_step(
            env,
            k + n,
            run_read(env, k, w, path, 6)->0.world,
            t,
            write_back(path, base_read(env, k, w, path), offset, data),
            (fuel - n) as nat,
        ),
{
    crate::reads::law_read_whatever_fails(env, k, w, path, 6);
    assert((env.faults)(k) is None || (env.faults)(k) is Some);
    lemma_wrapped(
        env,
        k,
        w,
        t,
        |o: RouterView| CallView::WriteRead { path, at: offset, data, op: o },
        |r: Result<ReplyView, ErrorView>|
            match r {
                Ok(ReplyView::Data(b)) => write_back(path, b, offset, data),
                Ok(_) => arbitrary(),
                Err(_) => write_back(path, Seq::empty(), offset, data),
            },
        RouterView::ReadMeta { path },
        ActionView::Lookup { path },
        6,
        fuel,
    )
}

/// A write that would make a file too long to be hashed fails with an input/output error,
/// and nothing is written.
pub proof fn law_write_call_too_long(
    env: Env,
    k: nat,
    w: World,
    t: InodesView,
    path: Seq<char>,
    offset: int,
    data: Seq<u8>,
    fuel: nat,
)
    requires
        0 <= offset,
        base_read(env, k, w, path).len() >= 0x2000_0000_0000_0000 || offset + data.len()
            >= 0x2000_0000_0000_0000,
        fuel >= 6,
    ensures
        run_write_call(env, k, w, t, path, offset, data, fuel) matches Some(end) && {
            &&& end.table == t
            &&& end.result == Err::<CallReplyView, Errno>(Errno::Io)
            &&& only_accessed(w, end.world)
        },
{
    let n = lemma_write_call_reads(env, k, w, t, path, offset, data, fuel);
    crate::guarantees::law_read(env, k, w, path, 6);
}

// ---------------------------------------------------------------------------
// Attributes

/// When an entry was created, modified and accessed.
pub open spec fn times_of(m: MetaView) -> Times {
    Times::At {
        created: m.created_at as u64,
        modified: m.modified_at as u64,
        accessed: m.accessed_at as u64,
    }
}

/// From `t` to `t2` the path got the number, or kept it; the numbers of the other paths
/// are as they were, and numbers and paths are one to one.
pub open spec fn numbered_as(t: InodesView, t2: InodesView, path: Seq<char>, ino: u64) -> bool {
    &&& bijective(t2)
    &&& t2.inos.contains_key(path) && t2.inos[path] == ino
    &&& t2.paths.contains_key(ino) && t2.paths[ino] == path
    &&& t.inos.contains_key(path) ==> t.inos[path] == ino
    &&& forall|p: Seq<char>|
        p != path ==> #[trigger] t2.inos.contains_key(p) == t.inos.contains_key(p) && t2.inos[p] == t.inos[p]
}

/// A lookup tells the attributes of the entry at the path, under the number that the path
/// has from then on; a path without an entry is refused. No file is touched.
pub proof fn law_lookup_call(env: Env, k: nat, w: World, t: InodesView, path: Seq<char>, fuel: nat)
    requires
        healthy(env),
        bijective(t),
        has_number(t),
        fuel >= 1,
    ensures
        run_call(env, k, w, t, CallView::Lookup { path }, ActionView::Lookup { path }, fuel) matches Some(
            end,
        ) && {
            &&& end.world == w
            &&& if w.files.contains_key(path) {
                end.result matches Ok(CallReplyView::Attr(a)) && {
                    &&& tells(
                        a,
                        a.ino,
                        w.files[path].kind,
                        w.files[path].size_bytes,
                        times_of(w.files[path]),
                    )
                    &&& numbered_as(t, end.table, path, a.ino)
                }
            } else {
                end.result == Err::<CallReplyView, Errno>(Errno::NoEntry) && end.table == t
            }
        },
{
    assert((env.faults)(k) is None);
    if w.files.contains_key(path) {
        let m = w.files[path];
        let hint = Some(m.id as u64);
        crate::fuse::law_alloc_keeps_bijection(t, path, hint);
        crate::fuse::law_attributes_tell_the_entry(
            crate::fuse::ino_for(t, path, hint),
            m.kind,
            m.size_bytes,
            Times::Now,
            m,
        );
    }
}

/// A request for attributes tells those of the entry at the path that has the number; the
/// root has its own. A number without a path, and a path without an entry, are refused.
/// Nothing is changed.
pub proof fn law_getattr_call(env: Env, k: nat, w: World, t: InodesView, ino: u64, fuel: nat)
    requires
        healthy(env),
        fuel >= 1,
    ensures
        run_call_step(env, k, w, t, ask_attr(t, ino), fuel) matches Some(end) && {
            &&& end.world == w
            &&& end.table == t
            &&& if ino == ROOT_INO {
                end.result matches Ok(CallReplyView::Attr(a)) && tells(
                    a,
                    1,
                    EntryKind::Directory,
                    0,
                    Times::Now,
                )
            } else if t.paths.contains_key(ino) && w.files.contains_key(t.paths[ino]) {
                let m = w.files[t.paths[ino]];
                end.result matches Ok(CallReplyView::Attr(a)) && tells(
                    a,
                    ino,
                    m.kind,
                    m.size_bytes,
                    times_of(m),
                )
            } else {
                end.result == Err::<CallReplyView, Errno>(Errno::NoEntry)
            }
        },
{
    assert((env.faults)(k) is None);
    let m = w.files[t.paths[ino]];
    crate::fuse::law_attributes_tell_the_entry(ino, m.kind, m.size_bytes, Times::Now, m);
    crate::fuse::law_attributes_tell_the_entry(ROOT_INO, EntryKind::Directory, 0, Times::Now, m);
}

// ---------------------------------------------------------------------------
// Creating, emptying and deleting

/// A file that a call creates is empty: whoever reads it finds no bytes, and the reply
/// tells a size of zero, under the number that the path has from then on.
pub proof fn law_create_call(env: Env, w: World, t: InodesView, path: Seq<char>, fuel: nat)
    requires
        healthy(env),
        bijective(t),
        has_number(t),
        valid_path(path),
        fuel >= 2 * components(path).len() + 4,
    ensures
        run_call(
            env,
            0,
            w,
            t,
            CallView::Creating {
                path,
                kind: EntryKind::File,
                id: None,
                op: write_op(path, Seq::empty()),
            },
            ActionView::Put { tier: Tier::Local, path, data: Seq::empty() },
            fuel,
        ) matches Some(end) && end.result matches Ok(CallReplyView::Attr(a)) && {
            &&& tells(a, a.ino, EntryKind::File, 0, Times::Now)
            &&& numbered_as(t, end.table, path, a.ino)
            &&& end.world.files[path].kind == EntryKind::File
            &&& end.world.files[path].size_bytes == 0
            &&& content_of(end.world, path) == Some(Seq::<u8>::empty())
        },
{
    crate::fuse_daemon::law_created_numbers_are_ids(env, w, t, path, fuel);
    let end = run_call(
        env,
        0,
        w,
        t,
        CallView::Creating {
            path,
            kind: EntryKind::File,
            id: None,
            op: write_op(path, Seq::empty()),
        },
        ActionView::Put { tier: Tier::Local, path, data: Seq::empty() },
        fuel,
    )->0;
    let m = end.world.files[path];
    let hint = Some(m.id as u64);
    crate::fuse::law_alloc_keeps_bijection(t, path, hint);
    crate::fuse::law_attributes_tell_the_entry(
        crate::fuse::ino_for(t, path, hint),
        EntryKind::File,
        0,
        Times::Now,
        m,
    );
    lemma_written_content(w, end.world, path, Seq::empty());
}

/// A directory that a call makes has an entry, as have all above it, and the reply tells a
/// directory, under the number that the path has from then on.
pub proof fn law_mkdir_call(env: Env, w: World, t: InodesView, path: Seq<char>, now: i64, fuel: nat)
    requires
        healthy(env),
        bijective(t),
        has_number(t),
        valid_path(path),
        fuel >= 2 * components(path).len() + 3,
    ensures
        run_call(
            env,
            0,
            w,
            t,
            CallView::Creating {
                path,
                kind: EntryKind::Directory,
                id: None,
                op: RouterView::MkdirUpsert { path },
            },
            ActionView::Upsert { meta: crate::types::fresh_dir(path, now) },
            fuel,
        ) matches Some(end) && end.result matches Ok(CallReplyView::Attr(a)) && {
            &&& tells(a, a.ino, EntryKind::Directory, 0, Times::Now)
            &&& numbered_as(t, end.table, path, a.ino)
            &&& end.world.files[path].kind == EntryKind::Directory
            &&& forall|q: Seq<char>|
                valid_path(q) && #[trigger] crate::path::path_prefix(q, path)
                    ==> end.world.files.contains_key(q)
        },
{
    crate::fuse_daemon::law_made_dir_numbers_are_ids(env, w, t, path, now, fuel);
    let end = run_call(
        env,
        0,
        w,
        t,
        CallView::Creating {
            path,
            kind: EntryKind::Directory,
            id: None,
            op: RouterView::MkdirUpsert { path },
        },
        ActionView::Upsert { meta: crate::types::fresh_dir(path, now) },
        fuel,
    )->0;
    let m = end.world.files[path];
    let hint = Some(m.id as u64);
    crate::fuse::law_alloc_keeps_bijection(t, path, hint);
    crate::fuse::law_attributes_tell_the_entry(
        crate::fuse::ino_for(t, path, hint),
        EntryKind::Directory,
        0,
        Times::Now,
        m,
    );
}

/// A new size of zero empties the file: whoever reads it finds no bytes, and the reply
/// tells a size of zero and the time of the change.
pub proof fn law_truncate_call(env: Env, k: nat, w: World, t: InodesView, ino: u64, path: Seq<char>, fuel: nat)
    requires
        healthy(env),
        valid_path(path),
        ino != ROOT_INO,
        t.paths.contains_key(ino),
        t.paths[ino] == path,
        fuel >= 2 * components(path).len() + 5,
    ensures
        run_call(
            env,
            k,
            w,
            t,
            CallView::Truncating { ino, path, op: write_op(path, Seq::empty()) },
            ActionView::Put { tier: Tier::Local, path, data: Seq::empty() },
            fuel,
        ) matches Some(end) && {
            &&& end.table == t
            &&& content_of(end.world, path) == Some(Seq::<u8>::empty())
            &&& end.result matches Ok(CallReplyView::Attr(a)) && {
                &&& tells(a, ino, EntryKind::File, 0, times_of(end.world.files[path]))
                &&& end.world.files[path].modified_at == (env.clock)(k)
            }
        },
{
    let data = Seq::<u8>::empty();
    let op = write_op(path, data);
    let put = ActionView::Put { tier: Tier::Local, path, data };
    let less = (fuel - 1) as nat;
    let later = shifted(env, k);
    lemma_shifted_is_healthy(env, k);
    crate::guarantees::law_write(later, w, path, data, less);
    lemma_shifted(env, k, 0, w, op, put, less);
    assert(crate::guarantees::run_write(later, w, path, data, less) == run(env, k, w, op, put, less));
    let n = lemma_wrapped(
        env,
        k,
        w,
        t,
        |o: RouterView| CallView::Truncating { ino, path, op: o },
        |r: Result<ReplyView, ErrorView>| ask_attr(t, ino),
        op,
        put,
        less,
        fuel,
    );
    let w2 = run(env, k, w, op, put, less)->0.world;
    lemma_written_content(w, w2, path, data);
    law_getattr_call(env, k + n, w2, t, ino, (fuel - n) as nat);
}

/// What a call deletes is gone: its entry, its copies on the tiers of its mask, what the
/// log had for it, and its number; nothing else is. A path without an entry is refused, and
/// nothing is changed then.
pub proof fn law_unlink_call(env: Env, k: nat, w: World, t: InodesView, path: Seq<char>, fuel: nat)
    requires
        healthy(env),
        bijective(t),
        fuel >= 3,
    ensures
        run_call(
            env,
            k,
            w,
            t,
            CallView::Unlinking { path, op: RouterView::DeleteMeta { path } },
            ActionView::Lookup { path },
            fuel,
        ) matches Some(end) && if w.files.contains_key(path) {
            &&& end.result == Ok::<CallReplyView, Errno>(CallReplyView::Gone)
            &&& deleted(w, end.world, path)
            &&& content_of(end.world, path) is None
            &&& bijective(end.table)
            &&& !end.table.inos.contains_key(path)
            &&& t.inos.contains_key(path) ==> !end.table.paths.contains_key(t.inos[path])
            &&& forall|p: Seq<char>|
                p != path ==> #[trigger] end.table.inos.contains_key(p) == t.inos.contains_key(p)
                    && end.table.inos[p] == t.inos[p]
        } else {
            &&& end.result == Err::<CallReplyView, Errno>(Errno::NoEntry)
            &&& end.world == w
            &&& end.table == t
        },
{
    crate::guarantees::law_delete(env, k, w, path, fuel);
    crate::fuse::law_remove_keeps_bijection(t, path);
    assert((env.faults)(k) is None);
    assert((env.faults)(k + 1) is None);
    assert((env.faults)(k + 2) is None);
    reveal_with_fuel(run_call, 4);
    reveal_with_fuel(run, 4);
    assert(unlink_errno(ErrorView::NotFound(path)) == Errno::NoEntry);
}

// ---------------------------------------------------------------------------
// Listing

/// A directory stream shows the store: an item for each entry directly below the
/// directory, once, with its kind, size, modification time and tiers and with its id, and
/// for nothing else. It starts at the offset that was asked for.
pub proof fn law_readdir_call(
    env: Env,
    k: nat,
    w: World,
    t: InodesView,
    ino: u64,
    dir: Seq<char>,
    offset: i64,
    listing: Seq<MetaView>,
    fuel: nat,
)
    requires
        healthy(env),
        w.indexed(),
        is_listing(w, dir, listing),
        streamable(listing.len()),
        fuel >= 1,
    ensures
        run_call(
            env,
            k,
            w,
            t,
            CallView::Listing { ino, offset, op: RouterView::ListMeta },
            ActionView::ListDir { path: dir },
            fuel,
        ) matches Some(end) && {
            &&& end.world == w
            &&& end.table == t
            &&& end.result matches Ok(CallReplyView::Stream(s)) && {
                &&& s.ino == ino
                &&& s.idx == (if offset <= 0 {
                    0
                } else if offset <= s.entries.len() + 2 {
                    offset as int
                } else {
                    s.entries.len() as int + 2
                })
                &&& s.ids.len() == s.entries.len()
                &&& forall|i: int|
                    0 <= i < s.entries.len() ==> shows(w, dir, #[trigger] s.entries[i]) && s.ids[i]
                        == w.files[s.entries[i].path].id as u64
                &&& forall|i: int, j: int|
                    0 <= i < j < s.entries.len() ==> (#[trigger] s.entries[i]).path != (
                    #[trigger] s.entries[j]).path
                &&& forall|p: Seq<char>|
                    #[trigger] w.files.contains_key(p) && parent_of(p) == Some(dir) ==> exists|i: int|
                        0 <= i < s.entries.len() && (#[trigger] s.entries[i]).path == p
            }
        },
{
    assert((env.faults)(k) is None);
    crate::guarantees::law_listing_shows_the_store(env, k, w, dir, listing, fuel);
    let ms = choose|ms: Seq<MetaView>| is_listing(w, dir, ms);
    assert(ms.len() == listing.len()) by {
        ms.unique_seq_to_set();
        listing.unique_seq_to_set();
        assert(ms.to_set() =~= listing.to_set());
    }
    let es = crate::router::entries_of(ms);
    assert(run_list(env, k, w, dir, fuel)->0.result == Ok::<ReplyView, ErrorView>(ReplyView::Entries(es)));
    assert forall|i: int| 0 <= i < es.len() implies w.files[(#[trigger] es[i]).path] == ms[i] by {
        assert(ms.contains(ms[i]));
    }
}

// ---------------------------------------------------------------------------
// Calls whose first request fails

/// A call whose first request fails changes nothing, neither a file nor a number: a lookup
/// and a request for attributes find no entry, a deletion finds none or fails, and a listing
/// fails.
pub proof fn law_calls_that_fail_at_once(
    env: Env,
    k: nat,
    w: World,
    t: InodesView,
    path: Seq<char>,
    ino: u64,
    offset: i64,
    x: ErrorView,
    fuel: nat,
)
    requires
        (env.faults)(k) == Some(x),
        fuel >= 1,
    ensures
        run_call(env, k, w, t, CallView::Lookup { path }, ActionView::Lookup { path }, fuel) == Some(
            CallOutcome { world: w, table: t, result: Err(Errno::NoEntry) },
        ),
        run_call(env, k, w, t, CallView::Getattr { ino }, ActionView::Lookup { path }, fuel) == Some(
            CallOutcome { world: w, table: t, result: Err(Errno::NoEntry) },
        ),
        run_call(
            env,
            k,
            w,
            t,
            CallView::Unlinking { path, op: RouterView::DeleteMeta { path } },
            ActionView::Lookup { path },
            fuel,
        ) == Some(
            CallOutcome {
                world: w,
                table: t,
                result: Err(
                    if x is NotFound {
                        Errno::NoEntry
                    } else {
                        Errno::Io
                    },
                ),
            },
        ),
        run_call(
            env,
            k,
            w,
            t,
            CallView::Listing { ino, offset, op: RouterView::ListMeta },
            ActionView::ListDir { path },
            fuel,
        ) == Some(CallOutcome { world: w, table: t, result: Err(Errno::Io) }),
{
}

/// A deletion that does not succeed leaves the path its number, whatever failed.
pub proof fn law_failed_unlink_keeps_the_number(env: Env, k: nat, w: World, t: InodesView, path: Seq<char>, fuel: nat)
    requires
        fuel >= 3,
    ensures
        run_call(
            env,
            k,
            w,
            t,
            CallView::Unlinking { path, op: RouterView::DeleteMeta { path } },
            ActionView::Lookup { path },
            fuel,
        ) matches Some(end) && {
            &&& end.result is Err ==> end.table == t
            &&& end.result is Ok ==> deleted(w, end.world, path) && !end.table.inos.contains_key(path)
        },
{
    crate::guarantees::law_delete(env, k, w, path, fuel);
    assert((env.faults)(k) is None || (env.faults)(k) is Some);
    assert((env.faults)(k + 1) is None || (env.faults)(k + 1) is Some);
    assert((env.faults)(k + 2) is None || (env.faults)(k + 2) is Some);
    reveal_with_fuel(run_call, 4);
    reveal_with_fuel(run, 4);
}

} // verus!
