//! Reads, writes and deletes across the tier stack.
//!
//! Write path:
//!   1. write to the local disk
//!   2. upsert the metadata, and that of the directories above
//!   3. enqueue log entries for NAS replication and S3 upload
//!
//! Read path:
//!   1. look up the metadata, which has the tier mask
//!   2. serve from the fastest tier in it that has the file; the object store, the source
//!      of truth, is asked last
//!   3. ask for promotion to the local disk if served from NAS or S3
//!   4. count the access
//!
//! A [`TierRouter`] is one operation in progress. It is started by one of the
//! operations' functions, which also names the first [`Action`]; [`TierRouter::step`]
//! takes the answer and names the next one, until the operation is done.

use crate::action::Action;
use crate::action::ActionView;
use crate::action::Event;
use crate::action::EventView;
use crate::action::PromoteSignal;
use crate::action::Shape;
use crate::error::ErrorView;
use crate::error::FvfsError;
use crate::path::VfsPath;
use crate::tier::Tier;
use crate::tier::TierBitmask;
use crate::types::EntryKind;
use crate::types::EntryView;
use crate::types::FileEntry;
use crate::types::FileMetadata;
use crate::types::MetaView;
use crate::types::WalOp;
use vstd::prelude::*;

verus! {

// ---------------------------------------------------------------------------
// Operations in progress, as values

/// What follows once every directory above a path has an entry.
#[derive(Debug, Clone, Copy, PartialEq, Eq, Structural)]
pub enum After {
    /// Nothing.
    Finish,
    /// The entry with this id is enqueued for replication.
    Replicate(i64),
}

/// Where an operation stands: which request it is waiting for.
pub enum RouterView {
    WritePut { path: Seq<char>, sha256: Seq<char>, size_bytes: u64 },
    WriteUpsert { path: Seq<char> },
    FindDir { dir: Seq<char>, after: After },
    MakeDir { dir: Seq<char>, after: After },
    EnqueueNas { file_id: i64 },
    EnqueueS3,
    MkdirUpsert { path: Seq<char> },
    ReadMeta { path: Seq<char> },
    ReadLocal { path: Seq<char>, id: i64, tiers: TierBitmask },
    ReadCold { path: Seq<char>, id: i64, from: Tier, tiers: TierBitmask },
    ReadPromote { id: i64, data: Seq<u8> },
    ReadRecord { data: Seq<u8> },
    DeleteMeta { path: Seq<char> },
    DeleteCopies { path: Seq<char> },
    DeleteEntry,
    StatMeta { path: Seq<char> },
    ListMeta,
    EvictMeta { path: Seq<char>, tier: Tier },
    EvictCopy { tier: Tier, id: i64, tiers: TierBitmask },
    EvictMark,
}

/// What an operation gives when it succeeds.
pub enum ReplyView {
    Done,
    Data(Seq<u8>),
    Meta(MetaView),
    Entries(Seq<EntryView>),
}

/// The outcome of one step: a next request, or the end.
pub enum StepView {
    Next(RouterView, ActionView),
    Done(Result<ReplyView, ErrorView>),
}

/// The shape of the answer that an operation waits for.
pub open spec fn awaited(s: RouterView) -> Shape {
    match s {
        RouterView::WritePut { .. } => Shape::Finished,
        RouterView::WriteUpsert { .. } => Shape::Id,
        RouterView::FindDir { .. } => Shape::Meta,
        RouterView::MakeDir { .. } => Shape::Id,
        RouterView::EnqueueNas { .. } => Shape::Id,
        RouterView::EnqueueS3 => Shape::Id,
        RouterView::MkdirUpsert { .. } => Shape::Id,
        RouterView::ReadMeta { .. } => Shape::Meta,
        RouterView::ReadLocal { .. } => Shape::Data,
        RouterView::ReadCold { .. } => Shape::Data,
        RouterView::ReadPromote { .. } => Shape::Finished,
        RouterView::ReadRecord { .. } => Shape::Finished,
        RouterView::DeleteMeta { .. } => Shape::Meta,
        RouterView::DeleteCopies { .. } => Shape::Finished,
        RouterView::DeleteEntry => Shape::Finished,
        RouterView::StatMeta { .. } => Shape::Meta,
        RouterView::ListMeta => Shape::Listing,
        RouterView::EvictMeta { .. } => Shape::Meta,
        RouterView::EvictCopy { .. } => Shape::Finished,
        RouterView::EvictMark => Shape::Finished,
    }
}

/// The entry of a file just written to the local disk.
pub open spec fn written_file(path: Seq<char>, size_bytes: u64, sha256: Seq<char>, now: i64) -> MetaView {
    MetaView {
        tiers: TierBitmask(0).with(Tier::Local),
        ..crate::types::fresh_file(path, size_bytes, sha256, now)
    }
}

/// The step once no directory above is left to look for.
pub open spec fn finish(after: After) -> StepView {
    match after {
        After::Finish => StepView::Done(Ok(ReplyView::Done)),
        After::Replicate(id) => StepView::Next(
            RouterView::EnqueueNas { file_id: id },
            ActionView::WalEnqueue { file_id: id, op: WalOp::ReplicateNas },
        ),
    }
}

/// The step from a path to the directory above it, if it has one.
pub open spec fn climb(path: Seq<char>, after: After) -> StepView {
    match crate::path::parent_of(path) {
        Some(dir) => StepView::Next(
            RouterView::FindDir { dir, after },
            ActionView::Lookup { path: dir },
        ),
        None => finish(after),
    }
}

/// The step that reads from S3.
pub open spec fn read_s3(path: Seq<char>, id: i64, tiers: TierBitmask) -> StepView {
    StepView::Next(
        RouterView::ReadCold { path, id, from: Tier::S3, tiers },
        ActionView::Get { tier: Tier::S3, path },
    )
}

/// The step that reads from the faster of NAS and S3 that the mask has.
pub open spec fn read_cold(path: Seq<char>, id: i64, tiers: TierBitmask) -> StepView {
    if tiers.holds(Tier::Nas) {
        StepView::Next(
            RouterView::ReadCold { path, id, from: Tier::Nas, tiers },
            ActionView::Get { tier: Tier::Nas, path },
        )
    } else if tiers.holds(Tier::S3) {
        read_s3(path, id, tiers)
    } else {
        StepView::Done(Err(ErrorView::NotFound(path)))
    }
}

/// The step that counts the access before the data are handed out.
pub open spec fn record(id: i64, data: Seq<u8>) -> StepView {
    StepView::Next(RouterView::ReadRecord { data }, ActionView::RecordAccess { id })
}

/// The step of a read once the entry is known.
pub open spec fn read_file(path: Seq<char>, m: MetaView) -> StepView {
    if m.kind == EntryKind::Directory {
        StepView::Done(Err(ErrorView::IsADirectory(path)))
    } else if m.tiers.holds(Tier::Local) {
        StepView::Next(
            RouterView::ReadLocal { path, id: m.id, tiers: m.tiers },
            ActionView::Get { tier: Tier::Local, path },
        )
    } else {
        read_cold(path, m.id, m.tiers)
    }
}

/// The step of an eviction once the entry is known.
pub open spec fn evict_file(path: Seq<char>, tier: Tier, m: MetaView) -> StepView {
    if !m.tiers.can_lose(tier) {
        StepView::Done(Err(ErrorView::Other("cannot evict: file not present on colder tier"@)))
    } else {
        StepView::Next(
            RouterView::EvictCopy { tier, id: m.id, tiers: m.tiers },
            ActionView::Remove { tier, path },
        )
    }
}

/// What an operation does with an answer that arrives at the time `now`.
pub open spec fn router_step(s: RouterView, e: EventView, now: i64) -> StepView {
    match (s, e) {
        (RouterView::WritePut { path, sha256, size_bytes }, EventView::Finished(r)) => match r {
            Ok(_) => StepView::Next(
                RouterView::WriteUpsert { path },
                ActionView::Upsert { meta: written_file(path, size_bytes, sha256, now) },
            ),
            Err(x) => StepView::Done(Err(x)),
        },
        (RouterView::WriteUpsert { path }, EventView::Id(r)) => match r {
            Ok(id) => climb(path, After::Replicate(id)),
            Err(x) => StepView::Done(Err(x)),
        },
        (RouterView::FindDir { dir, after }, EventView::Meta(r)) => match r {
            Ok(Some(_)) => climb(dir, after),
            Ok(None) => StepView::Next(
                RouterView::MakeDir { dir, after },
                ActionView::Upsert { meta: crate::types::fresh_dir(dir, now) },
            ),
            Err(x) => StepView::Done(Err(x)),
        },
        (RouterView::MakeDir { dir, after }, EventView::Id(r)) => match r {
            Ok(_) => climb(dir, after),
            Err(x) => StepView::Done(Err(x)),
        },
        (RouterView::EnqueueNas { file_id }, EventView::Id(r)) => match r {
            Ok(_) => StepView::Next(
                RouterView::EnqueueS3,
                ActionView::WalEnqueue { file_id, op: WalOp::UploadS3 },
            ),
            Err(x) => StepView::Done(Err(x)),
        },
        (RouterView::EnqueueS3, EventView::Id(r)) => match r {
            Ok(_) => StepView::Done(Ok(ReplyView::Done)),
            Err(x) => StepView::Done(Err(x)),
        },
        (RouterView::MkdirUpsert { path }, EventView::Id(r)) => match r {
            Ok(_) => climb(path, After::Finish),
            Err(x) => StepView::Done(Err(x)),
        },
        (RouterView::ReadMeta { path }, EventView::Meta(r)) => match r {
            Ok(Some(m)) => read_file(path, m),
            Ok(None) => StepView::Done(Err(ErrorView::NotFound(path))),
            Err(x) => StepView::Done(Err(x)),
        },
        (RouterView::ReadLocal { path, id, tiers }, EventView::Data(r)) => match r {
            Ok(data) => record(id, data),
            Err(_) => read_cold(path, id, tiers),
        },
        (RouterView::ReadCold { path, id, from, tiers }, EventView::Data(r)) => match r {
            Ok(data) => StepView::Next(
                RouterView::ReadPromote { id, data },
                ActionView::Promote { path, from },
            ),
            Err(x) => if from == Tier::Nas && tiers.holds(Tier::S3) {
                read_s3(path, id, tiers)
            } else {
                StepView::Done(Err(x))
            },
        },
        (RouterView::ReadPromote { id, data }, EventView::Finished(_)) => record(id, data),
        (RouterView::ReadRecord { data }, EventView::Finished(_)) => StepView::Done(
            Ok(ReplyView::Data(data)),
        ),
        (RouterView::DeleteMeta { path }, EventView::Meta(r)) => match r {
            Ok(Some(m)) => StepView::Next(
                RouterView::DeleteCopies { path },
                ActionView::RemoveAll { tiers: m.tiers, path },
            ),
            Ok(None) => StepView::Done(Err(ErrorView::NotFound(path))),
            Err(x) => StepView::Done(Err(x)),
        },
        (RouterView::DeleteCopies { path }, EventView::Finished(r)) => match r {
            Ok(_) => StepView::Next(RouterView::DeleteEntry, ActionView::Forget { path }),
            Err(x) => StepView::Done(Err(x)),
        },
        (RouterView::DeleteEntry, EventView::Finished(r)) => match r {
            Ok(_) => StepView::Done(Ok(ReplyView::Done)),
            Err(x) => StepView::Done(Err(x)),
        },
        (RouterView::StatMeta { path }, EventView::Meta(r)) => match r {
            Ok(Some(m)) => StepView::Done(Ok(ReplyView::Meta(m))),
            Ok(None) => StepView::Done(Err(ErrorView::NotFound(path))),
            Err(x) => StepView::Done(Err(x)),
        },
        (RouterView::ListMeta, EventView::Listing(r)) => match r {
            Ok(ms) => StepView::Done(Ok(ReplyView::Entries(entries_of(ms)))),
            Err(x) => StepView::Done(Err(x)),
        },
        (RouterView::EvictMeta { path, tier }, EventView::Meta(r)) => match r {
            Ok(Some(m)) => evict_file(path, tier, m),
            Ok(None) => StepView::Done(Err(ErrorView::NotFound(path))),
            Err(x) => StepView::Done(Err(x)),
        },
        (RouterView::EvictCopy { tier, id, tiers }, EventView::Finished(r)) => match r {
            Ok(_) => StepView::Next(
                RouterView::EvictMark,
                ActionView::SetTiers { id, tiers: tiers.without(tier) },
            ),
            Err(x) => StepView::Done(Err(x)),
        },
        (RouterView::EvictMark, EventView::Finished(r)) => match r {
            Ok(_) => StepView::Done(Ok(ReplyView::Done)),
            Err(x) => StepView::Done(Err(x)),
        },
        _ => arbitrary(),
    }
}

/// What a listing shows of a list of entries.
pub open spec fn entries_of(ms: Seq<MetaView>) -> Seq<EntryView> {
    ms.map_values(|m: MetaView| crate::types::entry_of(m))
}

/// The values of a listing.
pub open spec fn listed(v: Seq<FileEntry>) -> Seq<EntryView> {
    v.map_values(|e: FileEntry| e@)
}

// ---------------------------------------------------------------------------
// Operations in progress

#[derive(Debug, PartialEq, Eq)]
enum State {
    WritePut { path: VfsPath, sha256: String, size_bytes: u64 },
    WriteUpsert { path: VfsPath },
    FindDir { dir: VfsPath, after: After },
    MakeDir { dir: VfsPath, after: After },
    EnqueueNas { file_id: i64 },
    EnqueueS3,
    MkdirUpsert { path: VfsPath },
    ReadMeta { path: VfsPath },
    ReadLocal { path: VfsPath, id: i64, tiers: TierBitmask },
    ReadCold { path: VfsPath, id: i64, from: Tier, tiers: TierBitmask },
    ReadPromote { id: i64, data: Vec<u8> },
    ReadRecord { data: Vec<u8> },
    DeleteMeta { path: VfsPath },
    DeleteCopies { path: VfsPath },
    DeleteEntry,
    StatMeta { path: VfsPath },
    ListMeta,
    EvictMeta { path: VfsPath, tier: Tier },
    EvictCopy { tier: Tier, id: i64, tiers: TierBitmask },
    EvictMark,
}

/// An operation in progress.
#[derive(Debug, PartialEq, Eq)]
pub struct TierRouter {
    state: State,
}

impl View for TierRouter {
    type V = RouterView;

    closed spec fn view(&self) -> RouterView {
        match self.state {
            State::WritePut { path, sha256, size_bytes } => RouterView::WritePut {
                path: path@,
                sha256: sha256@,
                size_bytes,
            },
            State::WriteUpsert { path } => RouterView::WriteUpsert { path: path@ },
            State::FindDir { dir, after } => RouterView::FindDir { dir: dir@, after },
            State::MakeDir { dir, after } => RouterView::MakeDir { dir: dir@, after },
            State::EnqueueNas { file_id } => RouterView::EnqueueNas { file_id },
            State::EnqueueS3 => RouterView::EnqueueS3,
            State::MkdirUpsert { path } => RouterView::MkdirUpsert { path: path@ },
            State::ReadMeta { path } => RouterView::ReadMeta { path: path@ },
            State::ReadLocal { path, id, tiers } => RouterView::ReadLocal { path: path@, id, tiers },
            State::ReadCold { path, id, from, tiers } => RouterView::ReadCold {
                path: path@,
                id,
                from,
                tiers,
            },
            State::ReadPromote { id, data } => RouterView::ReadPromote { id, data: data@ },
            State::ReadRecord { data } => RouterView::ReadRecord { data: data@ },
            State::DeleteMeta { path } => RouterView::DeleteMeta { path: path@ },
            State::DeleteCopies { path } => RouterView::DeleteCopies { path: path@ },
            State::DeleteEntry => RouterView::DeleteEntry,
            State::StatMeta { path } => RouterView::StatMeta { path: path@ },
            State::ListMeta => RouterView::ListMeta,
            State::EvictMeta { path, tier } => RouterView::EvictMeta { path: path@, tier },
            State::EvictCopy { tier, id, tiers } => RouterView::EvictCopy { tier, id, tiers },
            State::EvictMark => RouterView::EvictMark,
        }
    }
}

/// What an operation gives when it succeeds.
#[derive(Debug, PartialEq, Eq)]
pub enum Reply {
    /// It was done.
    Done,
    /// The content of a file.
    Data(Vec<u8>),
    /// The entry of a path.
    Meta(FileMetadata),
    /// The entries of a directory.
    Entries(Vec<FileEntry>),
}

impl View for Reply {
    type V = ReplyView;

    open spec fn view(&self) -> ReplyView {
        match self {
            Reply::Done => ReplyView::Done,
            Reply::Data(d) => ReplyView::Data(d@),
            Reply::Meta(m) => ReplyView::Meta(m@),
            Reply::Entries(v) => ReplyView::Entries(listed(v@)),
        }
    }
}

/// The outcome of one step.
#[derive(Debug, PartialEq, Eq)]
pub enum Step {
    /// The operation goes on, and waits for the answer to the action.
    Next(TierRouter, Action),
    /// The operation is over.
    Done(Result<Reply, FvfsError>),
}

impl View for Step {
    type V = StepView;

    open spec fn view(&self) -> StepView {
        match self {
            Step::Next(s, a) => StepView::Next(s@, a@),
            Step::Done(r) => StepView::Done(
                match r {
                    Ok(x) => Ok(x@),
                    Err(e) => Err(e@),
                },
            ),
        }
    }
}

impl State {
    /// The operation goes on.
    fn then_act(self, action: Action) -> (r: Step)
        ensures
            r@ == StepView::Next((TierRouter { state: self })@, action@),
    {
        Step::Next(TierRouter { state: self }, action)
    }
}

fn finish_with(after: After) -> (r: Step)
    ensures
        r@ == finish(after),
{
    match after {
        After::Finish => Step::Done(Ok(Reply::Done)),
        After::Replicate(id) => (State::EnqueueNas { file_id: id }).then_act(
            Action::WalEnqueue { file_id: id, op: WalOp::ReplicateNas },
        ),
    }
}

fn climb_from(path: &VfsPath, after: After) -> (r: Step)
    ensures
        r@ == climb(path@, after),
{
    match path.parent() {
        Some(dir) => {
            let asked = dir.clone();
            (State::FindDir { dir, after }).then_act(Action::Lookup { path: asked })
        },
        None => finish_with(after),
    }
}

fn read_from_s3(path: VfsPath, id: i64, tiers: TierBitmask) -> (r: Step)
    ensures
        r@ == read_s3(path@, id, tiers),
{
    let asked = path.clone();
    (State::ReadCold { path, id, from: Tier::S3, tiers }).then_act(
        Action::Get { tier: Tier::S3, path: asked },
    )
}

fn read_from_nas_or_s3(path: VfsPath, id: i64, tiers: TierBitmask) -> (r: Step)
    ensures
        r@ == read_cold(path@, id, tiers),
{
    if tiers.has(Tier::Nas) {
        let asked = path.clone();
        (State::ReadCold { path, id, from: Tier::Nas, tiers }).then_act(
            Action::Get { tier: Tier::Nas, path: asked },
        )
    } else if tiers.has(Tier::S3) {
        read_from_s3(path, id, tiers)
    } else {
        Step::Done(Err(FvfsError::NotFound { path: path.text() }))
    }
}

/// The listing that a list of entries makes.
pub fn list_entries(entries: &Vec<FileMetadata>) -> (r: Vec<FileEntry>)
    ensures
        listed(r@) == entries_of(crate::action::metas(entries@)),
{
    let mut out: Vec<FileEntry> = Vec::new();
    let mut i: usize = 0;
    while i < entries.len()
        invariant
            i <= entries@.len(),
            out@.len() == i,
            forall|k: int| 0 <= k < i ==> (#[trigger] out@[k])@ == crate::types::entry_of(entries@[k]@),
        decreases entries.len() - i,
    {
        out.push(FileEntry::from(&entries[i]));
        i += 1;
    }
    assert(listed(out@) =~= entries_of(crate::action::metas(entries@)));
    out
}

impl TierRouter {
    /// Write `data` at `path`. Done once the local disk has the data and the metadata
    /// are stored; replication to NAS and S3 is enqueued.
    pub fn write(path: &VfsPath, data: Vec<u8>) -> (r: (TierRouter, Action))
        requires
            crate::digest::hashable(data@.len()),
        ensures
            r.0@ == (RouterView::WritePut {
                path: path@,
                sha256: crate::digest::content_hash(data@),
                size_bytes: data@.len() as u64,
            }),
            r.1@ == (ActionView::Put { tier: Tier::Local, path: path@, data: data@ }),
    {
        let sha256 = crate::digest::hash_bytes(data.as_slice());
        let size_bytes: u64 = data.len() as u64;
        (
            TierRouter { state: State::WritePut { path: path.clone(), sha256, size_bytes } },
            Action::Put { tier: Tier::Local, path: path.clone(), data },
        )
    }

    /// Create a directory entry, first seen at `now`.
    pub fn mkdir(path: &VfsPath, now: i64) -> (r: (TierRouter, Action))
        ensures
            r.0@ == (RouterView::MkdirUpsert { path: path@ }),
            r.1@ == (ActionView::Upsert { meta: crate::types::fresh_dir(path@, now) }),
    {
        (
            TierRouter { state: State::MkdirUpsert { path: path.clone() } },
            Action::Upsert { meta: FileMetadata::dir_at(path.clone(), now) },
        )
    }

    /// Read `path`, serving from the fastest available tier.
    pub fn read(path: &VfsPath) -> (r: (TierRouter, Action))
        ensures
            r.0@ == (RouterView::ReadMeta { path: path@ }),
            r.1@ == (ActionView::Lookup { path: path@ }),
    {
        (
            TierRouter { state: State::ReadMeta { path: path.clone() } },
            Action::Lookup { path: path.clone() },
        )
    }

    /// Delete `path` from every tier that has it, and its entry.
    pub fn delete(path: &VfsPath) -> (r: (TierRouter, Action))
        ensures
            r.0@ == (RouterView::DeleteMeta { path: path@ }),
            r.1@ == (ActionView::Lookup { path: path@ }),
    {
        (
            TierRouter { state: State::DeleteMeta { path: path.clone() } },
            Action::Lookup { path: path.clone() },
        )
    }

    /// The entry of `path`.
    pub fn stat(path: &VfsPath) -> (r: (TierRouter, Action))
        ensures
            r.0@ == (RouterView::StatMeta { path: path@ }),
            r.1@ == (ActionView::Lookup { path: path@ }),
    {
        (
            TierRouter { state: State::StatMeta { path: path.clone() } },
            Action::Lookup { path: path.clone() },
        )
    }

    /// The entries directly below `dir_path`.
    pub fn list(dir_path: &VfsPath) -> (r: (TierRouter, Action))
        ensures
            r.0@ == RouterView::ListMeta,
            r.1@ == (ActionView::ListDir { path: dir_path@ }),
    {
        (TierRouter { state: State::ListMeta }, Action::ListDir { path: dir_path.clone() })
    }

    /// Evict `path` from a tier: its copy there goes, its entry stays.
    pub fn evict_from_tier(path: &VfsPath, tier: Tier) -> (r: (TierRouter, Action))
        ensures
            r.0@ == (RouterView::EvictMeta { path: path@, tier }),
            r.1@ == (ActionView::Lookup { path: path@ }),
    {
        (
            TierRouter { state: State::EvictMeta { path: path.clone(), tier } },
            Action::Lookup { path: path.clone() },
        )
    }

    /// Whether the operation waits for an answer of this shape.
    pub fn expects(&self, event: &Event) -> (r: bool)
        ensures
            r == (crate::action::event_shape(event@) == awaited(self@)),
    {
        let want = match &self.state {
            State::WritePut { .. } => Shape::Finished,
            State::WriteUpsert { .. } => Shape::Id,
            State::FindDir { .. } => Shape::Meta,
            State::MakeDir { .. } => Shape::Id,
            State::EnqueueNas { .. } => Shape::Id,
            State::EnqueueS3 => Shape::Id,
            State::MkdirUpsert { .. } => Shape::Id,
            State::ReadMeta { .. } => Shape::Meta,
            State::ReadLocal { .. } => Shape::Data,
            State::ReadCold { .. } => Shape::Data,
            State::ReadPromote { .. } => Shape::Finished,
            State::ReadRecord { .. } => Shape::Finished,
            State::DeleteMeta { .. } => Shape::Meta,
            State::DeleteCopies { .. } => Shape::Finished,
            State::DeleteEntry => Shape::Finished,
            State::StatMeta { .. } => Shape::Meta,
            State::ListMeta => Shape::Listing,
            State::EvictMeta { .. } => Shape::Meta,
            State::EvictCopy { .. } => Shape::Finished,
            State::EvictMark => Shape::Finished,
        };
        event.shape() == want
    }

    /// Whether the operation waits for the id of the entry that it makes.
    pub fn makes_an_entry(&self) -> (r: bool)
        ensures
            r == makes_entry(self@),
    {
        match &self.state {
            State::WriteUpsert { .. } => true,
            State::MkdirUpsert { .. } => true,
            _ => false,
        }
    }

    /// Takes the answer to the last action, which arrives at the time `now`.
    pub fn step(self, event: Event, now: i64) -> (r: Step)
        requires
            crate::action::event_shape(event@) == awaited(self@),
        ensures
            r@ == router_step(self@, event@, now),
    {
        match (self.state, event) {
            (State::WritePut { path, sha256, size_bytes }, Event::Finished(Ok(_))) => {
                let mut tier_bitmask = TierBitmask::none();
                tier_bitmask.set(Tier::Local);
                let fresh = FileMetadata::file_at(path.clone(), size_bytes, sha256, now);
                let meta = FileMetadata { tier_bitmask, ..fresh };
                (State::WriteUpsert { path }).then_act(Action::Upsert { meta })
            },
            (State::WriteUpsert { path }, Event::Id(Ok(id))) => climb_from(
                &path,
                After::Replicate(id),
            ),
            (State::FindDir { dir, after }, Event::Meta(Ok(Some(_)))) => climb_from(&dir, after),
            (State::FindDir { dir, after }, Event::Meta(Ok(None))) => {
                let meta = FileMetadata::dir_at(dir.clone(), now);
                (State::MakeDir { dir, after }).then_act(Action::Upsert { meta })
            },
            (State::MakeDir { dir, after }, Event::Id(Ok(_))) => climb_from(&dir, after),
            (State::EnqueueNas { file_id }, Event::Id(Ok(_))) => State::EnqueueS3.then_act(
                Action::WalEnqueue { file_id, op: WalOp::UploadS3 },
            ),
            (State::EnqueueS3, Event::Id(Ok(_))) => Step::Done(Ok(Reply::Done)),
            (State::MkdirUpsert { path }, Event::Id(Ok(_))) => climb_from(&path, After::Finish),
            (State::ReadMeta { path }, Event::Meta(Ok(Some(m)))) => {
                if m.is_dir() {
                    Step::Done(Err(FvfsError::IsADirectory { path: path.text() }))
                } else if m.tier_bitmask.has(Tier::Local) {
                    let asked = path.clone();
                    (State::ReadLocal { path, id: m.id, tiers: m.tier_bitmask }).then_act(
                        Action::Get { tier: Tier::Local, path: asked },
                    )
                } else {
                    read_from_nas_or_s3(path, m.id, m.tier_bitmask)
                }
            },
            (State::ReadLocal { id, .. }, Event::Data(Ok(data))) => (State::ReadRecord {
                data,
            }).then_act(Action::RecordAccess { id }),
            (State::ReadLocal { path, id, tiers }, Event::Data(Err(_))) => read_from_nas_or_s3(
                path,
                id,
                tiers,
            ),
            (State::ReadCold { path, id, from, tiers }, Event::Data(Err(e))) => if from == Tier::Nas
                && tiers.has(Tier::S3) {
                read_from_s3(path, id, tiers)
            } else {
                Step::Done(Err(e))
            },
            (State::ReadCold { path, id, from, .. }, Event::Data(Ok(data))) => (State::ReadPromote {
                id,
                data,
            }).then_act(Action::Promote { signal: PromoteSignal::Promote { path, from } }),
            (State::ReadPromote { id, data }, Event::Finished(_)) => (State::ReadRecord {
                data,
            }).then_act(Action::RecordAccess { id }),
            (State::ReadRecord { data }, Event::Finished(_)) => Step::Done(Ok(Reply::Data(data))),
            (State::DeleteMeta { path }, Event::Meta(Ok(Some(m)))) => {
                let asked = path.clone();
                (State::DeleteCopies { path }).then_act(
                    Action::RemoveAll { tiers: m.tier_bitmask, path: asked },
                )
            },
            (State::DeleteCopies { path }, Event::Finished(Ok(_))) => State::DeleteEntry.then_act(
                Action::Forget { path },
            ),
            (State::DeleteEntry, Event::Finished(Ok(_))) => Step::Done(Ok(Reply::Done)),
            (State::StatMeta { .. }, Event::Meta(Ok(Some(m)))) => Step::Done(Ok(Reply::Meta(m))),
            (State::ListMeta, Event::Listing(Ok(ms))) => Step::Done(
                Ok(Reply::Entries(list_entries(&ms))),
            ),
            (State::EvictMeta { path, tier }, Event::Meta(Ok(Some(m)))) => {
                if !m.tier_bitmask.safe_to_evict_from(tier) {
                    Step::Done(
                        Err(
                            FvfsError::Other(
                                "cannot evict: file not present on colder tier".to_owned(),
                            ),
                        ),
                    )
                } else {
                    (State::EvictCopy { tier, id: m.id, tiers: m.tier_bitmask }).then_act(
                        Action::Remove { tier, path },
                    )
                }
            },
            (State::EvictCopy { tier, id, tiers }, Event::Finished(Ok(_))) => {
                let mut left = tiers;
                left.clear(tier);
                State::EvictMark.then_act(Action::SetTiers { id, tiers: left })
            },
            (State::EvictMark, Event::Finished(Ok(_))) => Step::Done(Ok(Reply::Done)),
            (State::ReadMeta { path }, Event::Meta(Ok(None)))
            | (State::DeleteMeta { path }, Event::Meta(Ok(None)))
            | (State::StatMeta { path }, Event::Meta(Ok(None)))
            | (State::EvictMeta { path, .. }, Event::Meta(Ok(None))) => Step::Done(
                Err(FvfsError::NotFound { path: path.text() }),
            ),
            (_, Event::Finished(Err(e))) => Step::Done(Err(e)),
            (_, Event::Data(Err(e))) => Step::Done(Err(e)),
            (_, Event::Id(Err(e))) => Step::Done(Err(e)),
            (_, Event::Meta(Err(e))) => Step::Done(Err(e)),
            (_, Event::Listing(Err(e))) => Step::Done(Err(e)),
            (_, _) => {
                assert(false);
                Step::Done(Err(FvfsError::Other("unexpected answer".to_owned())))
            },
        }
    }
}

// ---------------------------------------------------------------------------
// Kinds of operations

/// The operation waits for the id of the entry that it makes.
pub open spec fn makes_entry(s: RouterView) -> bool {
    s is WriteUpsert || s is MkdirUpsert
}

/// The operation is a read.
pub open spec fn is_read(s: RouterView) -> bool {
    ||| s is ReadMeta
    ||| s is ReadLocal
    ||| s is ReadCold
    ||| s is ReadPromote
    ||| s is ReadRecord
}

/// A read stays a read, and what it gives when it succeeds is data.
pub proof fn lemma_read_step(s: RouterView, e: EventView, now: i64)
    requires
        is_read(s),
        crate::action::event_shape(e) == awaited(s),
    ensures
        match router_step(s, e, now) {
            StepView::Next(t, a) => is_read(t) && crate::action::answer_shape(a) == awaited(t),
            StepView::Done(r) => r matches Ok(x) ==> x is Data,
        },
{
}

} // verus!
