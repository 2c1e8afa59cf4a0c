//! A model of what the operations act on: the contents of the tiers, the metadata and
//! the write-ahead log, and how each request changes them.
//!
//! The functions here are mathematical; they say what it means for an operation to run.

use crate::action::ActionView;
use crate::action::EventView;
use crate::action::Shape;
use crate::error::ErrorView;
use crate::router::ReplyView;
use crate::router::RouterView;
use crate::router::StepView;
use crate::tier::Tier;
use crate::tier::TierBitmask;
use crate::types::EntryKind;
use crate::types::MetaView;
use crate::types::WalView;
use vstd::prelude::*;

verus! {

/// What the operations act on.
#[verifier::ext_equal]
pub struct World {
    /// What the local disk holds, by path.
    pub local: Map<Seq<char>, Seq<u8>>,
    /// What the NAS holds, by path.
    pub nas: Map<Seq<char>, Seq<u8>>,
    /// What the object store holds, by path.
    pub s3: Map<Seq<char>, Seq<u8>>,
    /// The entries of the metadata store, by path.
    pub files: Map<Seq<char>, MetaView>,
    /// The id of the next new entry.
    pub next_id: i64,
    /// The write-ahead log, oldest first.
    pub wal: Seq<WalView>,
    /// The id of the next new log entry.
    pub next_wal: i64,
    /// The promotions asked for, oldest first.
    pub promotions: Seq<(Seq<char>, Tier)>,
}

impl World {
    /// What a tier holds.
    pub open spec fn store(self, tier: Tier) -> Map<Seq<char>, Seq<u8>> {
        match tier {
            Tier::Local => self.local,
            Tier::Nas => self.nas,
            Tier::S3 => self.s3,
        }
    }

    /// The world with other contents of a tier.
    pub open spec fn with_store(self, tier: Tier, m: Map<Seq<char>, Seq<u8>>) -> World {
        match tier {
            Tier::Local => World { local: m, ..self },
            Tier::Nas => World { nas: m, ..self },
            Tier::S3 => World { s3: m, ..self },
        }
    }

    /// What a tier holds once the mask's tiers have lost what is at the path.
    pub open spec fn store_without(self, tier: Tier, tiers: TierBitmask, path: Seq<char>) -> Map<Seq<char>, Seq<u8>> {
        if tiers.holds(tier) {
            self.store(tier).remove(path)
        } else {
            self.store(tier)
        }
    }

    /// Some entry has the id.
    pub open spec fn has_id(self, id: i64) -> bool {
        exists|p: Seq<char>| #[trigger] self.files.contains_key(p) && self.files[p].id == id
    }

    /// The path of an entry with the id.
    pub open spec fn path_of(self, id: i64) -> Seq<char> {
        choose|p: Seq<char>| #[trigger] self.files.contains_key(p) && self.files[p].id == id
    }

    /// The entry with the id.
    pub open spec fn by_id(self, id: i64) -> Option<MetaView> {
        if self.has_id(id) {
            Some(self.files[self.path_of(id)])
        } else {
            None
        }
    }

    /// Entries are found under their own paths, and no two have the same id.
    pub open spec fn indexed(self) -> bool {
        &&& forall|p: Seq<char>| #[trigger] self.files.contains_key(p) ==> self.files[p].path == p
        &&& forall|p: Seq<char>, q: Seq<char>|
            #[trigger] self.files.contains_key(p) && #[trigger] self.files.contains_key(q)
                && self.files[p].id == self.files[q].id ==> p == q
    }
}

/// Every id has been given out: entries and log entries have ids of their own, below the
/// next ones.
pub open spec fn numbered(w: World) -> bool {
    &&& w.indexed()
    &&& forall|p: Seq<char>| #[trigger] w.files.contains_key(p) ==> w.files[p].id < w.next_id
    &&& forall|i: int| 0 <= i < w.wal.len() ==> (#[trigger] w.wal[i]).id < w.next_wal
    &&& forall|i: int, j: int|
        0 <= i < j < w.wal.len() ==> (#[trigger] w.wal[i]).id != (#[trigger] w.wal[j]).id
}

/// There are ids left for this many entries and log entries.
pub open spec fn ids_left(w: World, files: nat, entries: nat) -> bool {
    w.next_id + files <= i64::MAX && w.next_wal + entries <= i64::MAX
}

/// The entry as the store keeps it.
pub open spec fn kept_entry(m: MetaView) -> MetaView {
    MetaView { mime_type: Some(crate::metadata::stored_mime(m)), ..m }
}

/// The entry that an upsert leaves at its path: a new one gets the next id, and an
/// existing one keeps its id and the time of its creation.
pub open spec fn upserted(w: World, m: MetaView) -> MetaView {
    if w.files.contains_key(m.path) {
        MetaView {
            id: w.files[m.path].id,
            created_at: w.files[m.path].created_at,
            ..kept_entry(m)
        }
    } else {
        MetaView { id: w.next_id, ..kept_entry(m) }
    }
}

/// The world after an upsert.
pub open spec fn after_upsert(w: World, m: MetaView) -> World {
    World {
        files: w.files.insert(m.path, upserted(w, m)),
        next_id: if w.files.contains_key(m.path) {
            w.next_id
        } else {
            (w.next_id + 1) as i64
        },
        ..w
    }
}

/// The world with `f` applied to the entry with the id.
pub open spec fn with_entry(w: World, id: i64, f: spec_fn(MetaView) -> MetaView) -> World {
    World {
        files: Map::new(
            |p: Seq<char>| w.files.contains_key(p),
            |p: Seq<char>|
                if w.files[p].id == id {
                    f(w.files[p])
                } else {
                    w.files[p]
                },
        ),
        ..w
    }
}

/// A new log entry.
pub open spec fn fresh_wal(id: i64, file_id: i64, op: crate::types::WalOp, now: i64) -> WalView {
    WalView { id, file_id, op, enqueued_at: now, attempts: 0, last_error: None }
}

/// The log without the entries that have the id.
pub open spec fn without_wal(wal: Seq<WalView>, id: i64) -> Seq<WalView> {
    wal.filter(|e: WalView| e.id != id)
}

/// The log without the entries that are about the file.
pub open spec fn without_file(wal: Seq<WalView>, file_id: i64) -> Seq<WalView> {
    wal.filter(|e: WalView| e.file_id != file_id)
}

/// A list of the entries directly below a directory.
pub open spec fn is_listing(w: World, dir: Seq<char>, ms: Seq<MetaView>) -> bool {
    &&& ms.no_duplicates()
    &&& forall|m: MetaView| #[trigger] ms.contains(m) <==> w.files.contains_key(m.path)
        && w.files[m.path] == m && crate::metadata::is_child(dir, m)
}

/// The total of the values of some paths.
pub open spec fn sum_of(paths: Set<Seq<char>>, value: spec_fn(Seq<char>) -> nat) -> nat
    decreases paths.len(),
{
    if paths.finite() && paths.len() > 0 {
        let p = paths.choose();
        value(p) + sum_of(paths.remove(p), value)
    } else {
        0
    }
}

/// The path is a file with the tier in its mask.
pub open spec fn is_on(w: World, tier: Tier, p: Seq<char>) -> bool {
    w.files.contains_key(p) && w.files[p].kind == EntryKind::File && w.files[p].tiers.holds(tier)
}

/// The total size of the files on a tier.
pub open spec fn total_on(w: World, tier: Tier) -> nat {
    sum_of(
        w.files.dom(),
        |p: Seq<char>|
            if is_on(w, tier, p) {
                w.files[p].size_bytes as nat
            } else {
                0
            },
    )
}

/// How many files are on a tier.
pub open spec fn count_on(w: World, tier: Tier) -> nat {
    sum_of(
        w.files.dom(),
        |p: Seq<char>|
            if is_on(w, tier, p) {
                1nat
            } else {
                0
            },
    )
}

/// A list of the files on a tier, each once, with some key.
pub open spec fn is_tier_list(w: World, tier: Tier, files: Seq<(MetaView, u64)>) -> bool {
    &&& forall|i: int, j: int|
        0 <= i < j < files.len() ==> (#[trigger] files[i]).0.path != (#[trigger] files[j]).0.path
    &&& forall|i: int|
        0 <= i < files.len() ==> is_on(w, tier, (#[trigger] files[i]).0.path)
            && w.files[files[i].0.path] == files[i].0
    &&& forall|p: Seq<char>|
        #[trigger] is_on(w, tier, p) ==> exists|i: int|
            0 <= i < files.len() && (#[trigger] files[i]).0.path == p
}

/// The list of the files on a tier that the metadata store gives: some one, in some order
/// and with some keys.
pub open spec fn tier_list(w: World, tier: Tier) -> Seq<(MetaView, u64)> {
    choose|files: Seq<(MetaView, u64)>| is_tier_list(w, tier, files)
}

/// What carrying out a request does to the world, and the answer. The files to migrate
/// are not part of the model: some answer comes.
pub open spec fn carry_out(w: World, a: ActionView, now: i64) -> (World, EventView) {
    match a {
        ActionView::Put { tier, path, data } => (
            w.with_store(tier, w.store(tier).insert(path, data)),
            EventView::Finished(Ok(())),
        ),
        ActionView::Get { tier, path } => (
            w,
            if w.store(tier).contains_key(path) {
                EventView::Data(Ok(w.store(tier)[path]))
            } else {
                EventView::Data(Err(ErrorView::NotFound(path)))
            },
        ),
        ActionView::Remove { tier, path } => if w.store(tier).contains_key(path) {
            (w.with_store(tier, w.store(tier).remove(path)), EventView::Finished(Ok(())))
        } else {
            (w, EventView::Finished(Err(ErrorView::NotFound(path))))
        },
        ActionView::RemoveAll { tiers, path } => (
            World {
                local: w.store_without(Tier::Local, tiers, path),
                nas: w.store_without(Tier::Nas, tiers, path),
                s3: w.store_without(Tier::S3, tiers, path),
                ..w
            },
            EventView::Finished(Ok(())),
        ),
        ActionView::Upsert { meta } => (
            after_upsert(w, meta),
            EventView::Id(Ok(upserted(w, meta).id)),
        ),
        ActionView::Lookup { path } => (
            w,
            EventView::Meta(
                Ok(
                    if w.files.contains_key(path) {
                        Some(w.files[path])
                    } else {
                        None
                    },
                ),
            ),
        ),
        ActionView::LookupId { id } => (w, EventView::Meta(Ok(w.by_id(id)))),
        ActionView::ListDir { path } => (
            w,
            EventView::Listing(Ok(choose|ms: Seq<MetaView>| is_listing(w, path, ms))),
        ),
        ActionView::SetTiers { id, tiers } => (
            with_entry(w, id, |m: MetaView| MetaView { tiers, ..m }),
            EventView::Finished(Ok(())),
        ),
        ActionView::RecordAccess { id } => (
            with_entry(
                w,
                id,
                |m: MetaView|
                    MetaView {
                        accessed_at: now,
                        access_count_30d: (m.access_count_30d + 1) as u32,
                        ..m
                    },
            ),
            EventView::Finished(Ok(())),
        ),
        ActionView::Forget { path } => (
            World {
                files: w.files.remove(path),
                wal: if w.files.contains_key(path) {
                    without_file(w.wal, w.files[path].id)
                } else {
                    w.wal
                },
                ..w
            },
            EventView::Finished(Ok(())),
        ),
        ActionView::WalEnqueue { file_id, op } => (
            World {
                wal: w.wal.push(fresh_wal(w.next_wal, file_id, op, now)),
                next_wal: (w.next_wal + 1) as i64,
                ..w
            },
            EventView::Id(Ok(w.next_wal)),
        ),
        ActionView::WalComplete { id } => (
            World { wal: without_wal(w.wal, id), ..w },
            EventView::Finished(Ok(())),
        ),
        ActionView::WalRecordFailure { id, error } => (
            World {
                wal: w.wal.map_values(
                    |e: WalView|
                        if e.id == id {
                            WalView {
                                attempts: (e.attempts + 1) as u32,
                                last_error: Some(error),
                                ..e
                            }
                        } else {
                            e
                        },
                ),
                ..w
            },
            EventView::Finished(Ok(())),
        ),
        ActionView::WalPending => (w, EventView::Entries(Ok(w.wal))),
        ActionView::BytesOnTier { tier } => (w, EventView::Bytes(Ok(total_on(w, tier) as u64))),
        ActionView::CountOnTier { tier } => (w, EventView::Bytes(Ok(count_on(w, tier) as u64))),
        ActionView::FilesOnTier { tier } => (
            w,
            EventView::Ranked(Ok(tier_list(w, tier))),
        ),
        ActionView::ReadSource { .. } => (w, EventView::Data(Ok(arbitrary()))),
        ActionView::Promote { path, from } => (
            World { promotions: w.promotions.push((path, from)), ..w },
            EventView::Finished(Ok(())),
        ),
        ActionView::Sleep { .. } => (w, EventView::Finished(Ok(()))),
    }
}

/// The answer to a request that fails.
pub open spec fn refusal(a: ActionView, x: ErrorView) -> EventView {
    match crate::action::answer_shape(a) {
        Shape::Finished => EventView::Finished(Err(x)),
        Shape::Data => EventView::Data(Err(x)),
        Shape::Id => EventView::Id(Err(x)),
        Shape::Meta => EventView::Meta(Err(x)),
        Shape::Listing => EventView::Listing(Err(x)),
        Shape::Entries => EventView::Entries(Err(x)),
        Shape::Bytes => EventView::Bytes(Err(x)),
        Shape::Ranked => EventView::Ranked(Err(x)),
    }
}

/// When requests are made, and which of them fail: the one made `k`-th is made at
/// `clock(k)`, and fails with `faults(k)` if that is an error. A request that fails
/// changes nothing.
pub struct Env {
    pub clock: spec_fn(nat) -> i64,
    pub faults: spec_fn(nat) -> Option<ErrorView>,
}

/// No request fails.
pub open spec fn healthy(env: Env) -> bool {
    forall|k: nat| #[trigger] (env.faults)(k) is None
}

/// What the `k`-th request does to the world, and the answer.
pub open spec fn perform(env: Env, k: nat, w: World, a: ActionView) -> (World, EventView) {
    match (env.faults)(k) {
        Some(x) => (w, refusal(a, x)),
        None => carry_out(w, a, (env.clock)(k)),
    }
}

/// How an operation ends: the world then, and the result.
pub struct Outcome {
    pub world: World,
    pub result: Result<ReplyView, ErrorView>,
}

/// How an operation that has come to `s`, and makes the request `a` as the `k`-th, ends
/// within `fuel` requests. `None` if it takes more.
pub open spec fn run(env: Env, k: nat, w: World, s: RouterView, a: ActionView, fuel: nat) -> Option<Outcome>
    decreases fuel,
{
    if fuel == 0 {
        None
    } else {
        let (w2, e) = perform(env, k, w, a);
        match crate::router::router_step(s, e, (env.clock)(k)) {
            StepView::Done(r) => Some(Outcome { world: w2, result: r }),
            StepView::Next(s2, a2) => run(env, k + 1, w2, s2, a2, (fuel - 1) as nat),
        }
    }
}

} // verus!
