//! What an operation asks of the outside world, and what it hears back.
//!
//! Disks, the bucket, the metadata database and the clock are reached by whoever
//! drives an operation: the operation names an [`Action`], the driver performs it and
//! hands back the [`Event`] that it answers with.

use crate::error::ErrorView;
use crate::error::FvfsError;
use crate::path::VfsPath;
use crate::tier::Tier;
use crate::tier::TierBitmask;
use crate::types::FileMetadata;
use crate::types::MetaView;
use crate::types::WalEntry;
use crate::types::WalOp;
use crate::types::WalView;
use vstd::prelude::*;

verus! {

/// Signal to the background promotion task.
#[derive(Debug, PartialEq, Eq)]
pub enum PromoteSignal {
    /// Copy the file, just read from `from`, to the local disk.
    Promote { path: VfsPath, from: Tier },
}

/// A request to the outside world.
#[derive(Debug, PartialEq, Eq)]
pub enum Action {
    /// Write the bytes at the path on a tier.
    Put { tier: Tier, path: VfsPath, data: Vec<u8> },
    /// Read the bytes at the path on a tier.
    Get { tier: Tier, path: VfsPath },
    /// Delete what is at the path on a tier.
    Remove { tier: Tier, path: VfsPath },
    /// Delete what is at the path on each of the tiers, concurrently. A tier that
    /// fails to is passed over.
    RemoveAll { tiers: TierBitmask, path: VfsPath },
    /// Insert or update the entry of a path; the answer is its id.
    Upsert { meta: FileMetadata },
    /// Look up the entry of a path.
    Lookup { path: VfsPath },
    /// Look up an entry by its id.
    LookupId { id: i64 },
    /// The entries directly below a directory.
    ListDir { path: VfsPath },
    /// Replace the tiers of an entry.
    SetTiers { id: i64, tiers: TierBitmask },
    /// Count an access to an entry.
    RecordAccess { id: i64 },
    /// Delete the entry of a path.
    Forget { path: VfsPath },
    /// Add an entry to the write-ahead log; the answer is its id.
    WalEnqueue { file_id: i64, op: WalOp },
    /// Take an entry off the write-ahead log.
    WalComplete { id: i64 },
    /// Count a failed attempt on an entry of the write-ahead log.
    WalRecordFailure { id: i64, error: String },
    /// The pending entries of the write-ahead log, oldest first.
    WalPending,
    /// The total size of the files on a tier.
    BytesOnTier { tier: Tier },
    /// The number of files on a tier.
    CountOnTier { tier: Tier },
    /// The files on a tier, each with the key it is ranked by for eviction.
    FilesOnTier { tier: Tier },
    /// Read the file at this position of a list of files to migrate.
    ReadSource { index: usize },
    /// Tell the promotion task.
    Promote { signal: PromoteSignal },
    /// Wait.
    Sleep { millis: u64 },
}

/// An answer of the outside world.
#[derive(Debug, PartialEq, Eq)]
pub enum Event {
    /// The request was carried out, or failed.
    Finished(Result<(), FvfsError>),
    /// The bytes read.
    Data(Result<Vec<u8>, FvfsError>),
    /// The id of the entry written.
    Id(Result<i64, FvfsError>),
    /// The entry looked up, if there is one.
    Meta(Result<Option<FileMetadata>, FvfsError>),
    /// The entries listed.
    Listing(Result<Vec<FileMetadata>, FvfsError>),
    /// The entries of the write-ahead log.
    Entries(Result<Vec<WalEntry>, FvfsError>),
    /// A total, in bytes or files.
    Bytes(Result<u64, FvfsError>),
    /// Files with their eviction keys.
    Ranked(Result<Vec<(FileMetadata, u64)>, FvfsError>),
}

/// The mathematical value of an [`Action`].
pub enum ActionView {
    Put { tier: Tier, path: Seq<char>, data: Seq<u8> },
    Get { tier: Tier, path: Seq<char> },
    Remove { tier: Tier, path: Seq<char> },
    RemoveAll { tiers: TierBitmask, path: Seq<char> },
    Upsert { meta: MetaView },
    Lookup { path: Seq<char> },
    LookupId { id: i64 },
    ListDir { path: Seq<char> },
    SetTiers { id: i64, tiers: TierBitmask },
    RecordAccess { id: i64 },
    Forget { path: Seq<char> },
    WalEnqueue { file_id: i64, op: WalOp },
    WalComplete { id: i64 },
    WalRecordFailure { id: i64, error: Seq<char> },
    WalPending,
    BytesOnTier { tier: Tier },
    CountOnTier { tier: Tier },
    FilesOnTier { tier: Tier },
    ReadSource { index: usize },
    Promote { path: Seq<char>, from: Tier },
    Sleep { millis: u64 },
}

/// The mathematical value of an [`Event`].
pub enum EventView {
    Finished(Result<(), ErrorView>),
    Data(Result<Seq<u8>, ErrorView>),
    Id(Result<i64, ErrorView>),
    Meta(Result<Option<MetaView>, ErrorView>),
    Listing(Result<Seq<MetaView>, ErrorView>),
    Entries(Result<Seq<WalView>, ErrorView>),
    Bytes(Result<u64, ErrorView>),
    Ranked(Result<Seq<(MetaView, u64)>, ErrorView>),
}

/// The values of a list of entries.
pub open spec fn metas(v: Seq<FileMetadata>) -> Seq<MetaView> {
    v.map_values(|m: FileMetadata| m@)
}

/// The values of a list of log entries.
pub open spec fn wals(v: Seq<WalEntry>) -> Seq<WalView> {
    v.map_values(|m: WalEntry| m@)
}

/// The values of a list of entries with their eviction keys.
pub open spec fn keyed(v: Seq<(FileMetadata, u64)>) -> Seq<(MetaView, u64)> {
    v.map_values(|p: (FileMetadata, u64)| (p.0@, p.1))
}

/// The value of an optional entry.
pub open spec fn opt_meta(m: Option<FileMetadata>) -> Option<MetaView> {
    match m {
        Some(x) => Some(x@),
        None => None,
    }
}

impl View for Action {
    type V = ActionView;

    open spec fn view(&self) -> ActionView {
        match self {
            Action::Put { tier, path, data } => ActionView::Put { tier: *tier, path: path@, data: data@ },
            Action::Get { tier, path } => ActionView::Get { tier: *tier, path: path@ },
            Action::Remove { tier, path } => ActionView::Remove { tier: *tier, path: path@ },
            Action::RemoveAll { tiers, path } => ActionView::RemoveAll { tiers: *tiers, path: path@ },
            Action::Upsert { meta } => ActionView::Upsert { meta: meta@ },
            Action::Lookup { path } => ActionView::Lookup { path: path@ },
            Action::LookupId { id } => ActionView::LookupId { id: *id },
            Action::ListDir { path } => ActionView::ListDir { path: path@ },
            Action::SetTiers { id, tiers } => ActionView::SetTiers { id: *id, tiers: *tiers },
            Action::RecordAccess { id } => ActionView::RecordAccess { id: *id },
            Action::Forget { path } => ActionView::Forget { path: path@ },
            Action::WalEnqueue { file_id, op } => ActionView::WalEnqueue { file_id: *file_id, op: *op },
            Action::WalComplete { id } => ActionView::WalComplete { id: *id },
            Action::WalRecordFailure { id, error } => ActionView::WalRecordFailure {
                id: *id,
                error: error@,
            },
            Action::WalPending => ActionView::WalPending,
            Action::BytesOnTier { tier } => ActionView::BytesOnTier { tier: *tier },
            Action::CountOnTier { tier } => ActionView::CountOnTier { tier: *tier },
            Action::FilesOnTier { tier } => ActionView::FilesOnTier { tier: *tier },
            Action::ReadSource { index } => ActionView::ReadSource { index: *index },
            Action::Promote { signal } => match signal {
                PromoteSignal::Promote { path, from } => ActionView::Promote { path: path@, from: *from },
            },
            Action::Sleep { millis } => ActionView::Sleep { millis: *millis },
        }
    }
}

impl View for Event {
    type V = EventView;

    open spec fn view(&self) -> EventView {
        match self {
            Event::Finished(r) => EventView::Finished(
                match r {
                    Ok(_) => Ok(()),
                    Err(e) => Err(e@),
                },
            ),
            Event::Data(r) => EventView::Data(
                match r {
                    Ok(d) => Ok(d@),
                    Err(e) => Err(e@),
                },
            ),
            Event::Id(r) => EventView::Id(
                match r {
                    Ok(i) => Ok(*i),
                    Err(e) => Err(e@),
                },
            ),
            Event::Meta(r) => EventView::Meta(
                match r {
                    Ok(m) => Ok(opt_meta(*m)),
                    Err(e) => Err(e@),
                },
            ),
            Event::Listing(r) => EventView::Listing(
                match r {
                    Ok(v) => Ok(metas(v@)),
                    Err(e) => Err(e@),
                },
            ),
            Event::Entries(r) => EventView::Entries(
                match r {
                    Ok(v) => Ok(wals(v@)),
                    Err(e) => Err(e@),
                },
            ),
            Event::Bytes(r) => EventView::Bytes(
                match r {
                    Ok(n) => Ok(*n),
                    Err(e) => Err(e@),
                },
            ),
            Event::Ranked(r) => EventView::Ranked(
                match r {
                    Ok(v) => Ok(keyed(v@)),
                    Err(e) => Err(e@),
                },
            ),
        }
    }
}

/// The shape of an answer.
#[derive(Debug, Clone, Copy, PartialEq, Eq, Structural)]
pub enum Shape {
    Finished,
    Data,
    Id,
    Meta,
    Listing,
    Entries,
    Bytes,
    Ranked,
}

/// The shape of the answer to a request.
pub open spec fn answer_shape(a: ActionView) -> Shape {
    match a {
        ActionView::Get { .. } => Shape::Data,
        ActionView::ReadSource { .. } => Shape::Data,
        ActionView::Upsert { .. } => Shape::Id,
        ActionView::WalEnqueue { .. } => Shape::Id,
        ActionView::Lookup { .. } => Shape::Meta,
        ActionView::LookupId { .. } => Shape::Meta,
        ActionView::ListDir { .. } => Shape::Listing,
        ActionView::WalPending => Shape::Entries,
        ActionView::BytesOnTier { .. } => Shape::Bytes,
        ActionView::CountOnTier { .. } => Shape::Bytes,
        ActionView::FilesOnTier { .. } => Shape::Ranked,
        _ => Shape::Finished,
    }
}

/// The shape of an event.
pub open spec fn event_shape(e: EventView) -> Shape {
    match e {
        EventView::Finished(_) => Shape::Finished,
        EventView::Data(_) => Shape::Data,
        EventView::Id(_) => Shape::Id,
        EventView::Meta(_) => Shape::Meta,
        EventView::Listing(_) => Shape::Listing,
        EventView::Entries(_) => Shape::Entries,
        EventView::Bytes(_) => Shape::Bytes,
        EventView::Ranked(_) => Shape::Ranked,
    }
}

impl Event {
    /// The shape of the event.
    pub fn shape(&self) -> (r: Shape)
        ensures
            r == event_shape(self@),
    {
        match self {
            Event::Finished(_) => Shape::Finished,
            Event::Data(_) => Shape::Data,
            Event::Id(_) => Shape::Id,
            Event::Meta(_) => Shape::Meta,
            Event::Listing(_) => Shape::Listing,
            Event::Entries(_) => Shape::Entries,
            Event::Bytes(_) => Shape::Bytes,
            Event::Ranked(_) => Shape::Ranked,
        }
    }
}

} // verus!
