//! Entries of the filesystem, of the write-ahead log and of the device registry.

use crate::error::ErrorView;
use crate::error::FvfsError;
use crate::path::VfsPath;
use crate::text::concat2;
use crate::text::same_text;
use crate::tier::TierBitmask;
use std::time::SystemTime;
use std::time::UNIX_EPOCH;
use vstd::prelude::*;

verus! {

// ---------------------------------------------------------------------------
// Files and directories

/// Kind of filesystem entry.
#[derive(Debug, Clone, Copy, PartialEq, Eq, Structural)]
pub enum EntryKind {
    File,
    Directory,
}

/// Rich metadata for a single filesystem entry (file or directory).
#[derive(Debug, PartialEq, Eq)]
pub struct FileMetadata {
    pub id: i64,
    pub path: VfsPath,
    pub kind: EntryKind,
    pub size_bytes: u64,
    pub sha256: String,
    pub tier_bitmask: TierBitmask,
    pub created_at: i64,
    pub modified_at: i64,
    pub accessed_at: i64,
    pub access_count_30d: u32,
    pub mime_type: Option<String>,
}

/// The mathematical value of a [`FileMetadata`].
pub struct MetaView {
    pub id: i64,
    pub path: Seq<char>,
    pub kind: EntryKind,
    pub size_bytes: u64,
    pub sha256: Seq<char>,
    pub tiers: TierBitmask,
    pub created_at: i64,
    pub modified_at: i64,
    pub accessed_at: i64,
    pub access_count_30d: u32,
    pub mime_type: Option<Seq<char>>,
}

/// The value of an optional text.
pub open spec fn opt_text(s: Option<String>) -> Option<Seq<char>> {
    match s {
        Some(t) => Some(t@),
        None => None,
    }
}

impl View for FileMetadata {
    type V = MetaView;

    open spec fn view(&self) -> MetaView {
        MetaView {
            id: self.id,
            path: self.path@,
            kind: self.kind,
            size_bytes: self.size_bytes,
            sha256: self.sha256@,
            tiers: self.tier_bitmask,
            created_at: self.created_at,
            modified_at: self.modified_at,
            accessed_at: self.accessed_at,
            access_count_30d: self.access_count_30d,
            mime_type: opt_text(self.mime_type),
        }
    }
}

/// A copy of an optional text.
pub fn clone_opt_text(s: &Option<String>) -> (r: Option<String>)
    ensures
        r == *s,
{
    match s {
        Some(t) => Some(t.clone()),
        None => None,
    }
}

impl Clone for FileMetadata {
    fn clone(&self) -> (r: Self)
        ensures
            r == *self,
    {
        FileMetadata {
            id: self.id,
            path: self.path.clone(),
            kind: self.kind,
            size_bytes: self.size_bytes,
            sha256: self.sha256.clone(),
            tier_bitmask: self.tier_bitmask,
            created_at: self.created_at,
            modified_at: self.modified_at,
            accessed_at: self.accessed_at,
            access_count_30d: self.access_count_30d,
            mime_type: clone_opt_text(&self.mime_type),
        }
    }
}

/// A file that no tier holds yet, first seen at `now`.
pub open spec fn fresh_file(path: Seq<char>, size_bytes: u64, sha256: Seq<char>, now: i64) -> MetaView {
    MetaView {
        id: 0,
        path,
        kind: EntryKind::File,
        size_bytes,
        sha256,
        tiers: TierBitmask(0),
        created_at: now,
        modified_at: now,
        accessed_at: now,
        access_count_30d: 0,
        mime_type: None,
    }
}

/// A directory first seen at `now`. Directories are on every tier.
pub open spec fn fresh_dir(path: Seq<char>, now: i64) -> MetaView {
    MetaView {
        id: 0,
        path,
        kind: EntryKind::Directory,
        size_bytes: 0,
        sha256: Seq::empty(),
        tiers: TierBitmask(7),
        created_at: now,
        modified_at: now,
        accessed_at: now,
        access_count_30d: 0,
        mime_type: Some("inode/directory"@),
    }
}

impl FileMetadata {
    /// A file that no tier holds yet, first seen at `now`.
    pub fn file_at(path: VfsPath, size_bytes: u64, sha256: String, now: i64) -> (r: Self)
        ensures
            r@ == fresh_file(path@, size_bytes, sha256@, now),
            r.path == path,
            r.kind == EntryKind::File,
            r.size_bytes == size_bytes,
            r.sha256@ == sha256@,
            r.tier_bitmask == TierBitmask(0),
            r.created_at == now && r.modified_at == now && r.accessed_at == now,
            r.access_count_30d == 0,
            r.mime_type is None,
    {
        FileMetadata {
            id: 0,
            path,
            kind: EntryKind::File,
            size_bytes,
            sha256,
            tier_bitmask: TierBitmask::none(),
            created_at: now,
            modified_at: now,
            accessed_at: now,
            access_count_30d: 0,
            mime_type: None,
        }
    }

    /// A directory first seen at `now`.
    pub fn dir_at(path: VfsPath, now: i64) -> (r: Self)
        ensures
            r@ == fresh_dir(path@, now),
            r.path == path,
            r.kind == EntryKind::Directory,
            r.size_bytes == 0,
            r.sha256@.len() == 0,
            r.tier_bitmask == TierBitmask(7),
            r.created_at == now && r.modified_at == now && r.accessed_at == now,
            r.access_count_30d == 0,
            r.mime_type matches Some(s) && s@ == "inode/directory"@,
    {
        FileMetadata {
            id: 0,
            path,
            kind: EntryKind::Directory,
            size_bytes: 0,
            sha256: String::new(),
            tier_bitmask: TierBitmask::all(),
            created_at: now,
            modified_at: now,
            accessed_at: now,
            access_count_30d: 0,
            mime_type: Some("inode/directory".to_owned()),
        }
    }

    /// A file that no tier holds yet, first seen now.
    pub fn new_file(path: VfsPath, size_bytes: u64, sha256: String) -> (r: Self)
        ensures
            r@ == fresh_file(path@, size_bytes, sha256@, r.created_at),
            r.path == path,
    {
        let now = now_unix();
        FileMetadata::file_at(path, size_bytes, sha256, now)
    }

    /// A directory first seen now.
    pub fn new_dir(path: VfsPath) -> (r: Self)
        ensures
            r@ == fresh_dir(path@, r.created_at),
            r.path == path,
    {
        let now = now_unix();
        FileMetadata::dir_at(path, now)
    }

    /// Whether the entry is a directory.
    pub fn is_dir(&self) -> (r: bool)
        ensures
            r == (self.kind == EntryKind::Directory),
    {
        self.kind == EntryKind::Directory
    }

    /// Whether the entry is a file.
    pub fn is_file(&self) -> (r: bool)
        ensures
            r == (self.kind == EntryKind::File),
    {
        self.kind == EntryKind::File
    }
}

/// Lightweight entry of a listing.
#[derive(Debug, PartialEq, Eq)]
pub struct FileEntry {
    pub path: VfsPath,
    pub kind: EntryKind,
    pub size_bytes: u64,
    pub modified_at: i64,
    pub tier_bitmask: TierBitmask,
}

/// The mathematical value of a [`FileEntry`].
pub struct EntryView {
    pub path: Seq<char>,
    pub kind: EntryKind,
    pub size_bytes: u64,
    pub modified_at: i64,
    pub tiers: TierBitmask,
}

impl View for FileEntry {
    type V = EntryView;

    open spec fn view(&self) -> EntryView {
        EntryView {
            path: self.path@,
            kind: self.kind,
            size_bytes: self.size_bytes,
            modified_at: self.modified_at,
            tiers: self.tier_bitmask,
        }
    }
}

/// What a listing shows of an entry.
pub open spec fn entry_of(m: MetaView) -> EntryView {
    EntryView {
        path: m.path,
        kind: m.kind,
        size_bytes: m.size_bytes,
        modified_at: m.modified_at,
        tiers: m.tiers,
    }
}

impl From<&FileMetadata> for FileEntry {
    fn from(m: &FileMetadata) -> (r: Self)
        ensures
            r@ == entry_of(m@),
            r.path@ == m.path@,
            r.kind == m.kind,
            r.size_bytes == m.size_bytes,
            r.modified_at == m.modified_at,
            r.tier_bitmask == m.tier_bitmask,
    {
        FileEntry {
            path: m.path.clone(),
            kind: m.kind,
            size_bytes: m.size_bytes,
            modified_at: m.modified_at,
            tier_bitmask: m.tier_bitmask,
        }
    }
}

impl vstd::std_specs::convert::FromSpecImpl<&FileMetadata> for FileEntry {
    open spec fn obeys_from_spec() -> bool {
        true
    }

    open spec fn from_spec(m: &FileMetadata) -> Self {
        FileEntry {
            path: m.path,
            kind: m.kind,
            size_bytes: m.size_bytes,
            modified_at: m.modified_at,
            tier_bitmask: m.tier_bitmask,
        }
    }
}

impl Clone for FileEntry {
    fn clone(&self) -> (r: Self)
        ensures
            r == *self,
    {
        FileEntry {
            path: self.path.clone(),
            kind: self.kind,
            size_bytes: self.size_bytes,
            modified_at: self.modified_at,
            tier_bitmask: self.tier_bitmask,
        }
    }
}

// ---------------------------------------------------------------------------
// Write-ahead log

/// Pending operation of the write-ahead log.
#[derive(Debug, Clone, Copy, PartialEq, Eq, Structural)]
pub enum WalOp {
    ReplicateNas,
    UploadS3,
}

/// The name under which an operation is stored.
pub open spec fn wal_op_name(op: WalOp) -> Seq<char> {
    match op {
        WalOp::ReplicateNas => "replicate_nas"@,
        WalOp::UploadS3 => "upload_s3"@,
    }
}

/// The operation stored under a name.
pub open spec fn wal_op_named(s: Seq<char>) -> Option<WalOp> {
    if s == "replicate_nas"@ {
        Some(WalOp::ReplicateNas)
    } else if s == "upload_s3"@ {
        Some(WalOp::UploadS3)
    } else {
        None
    }
}

impl WalOp {
    /// The name under which the operation is stored.
    pub fn as_str(&self) -> (r: &'static str)
        ensures
            r@ == wal_op_name(*self),
    {
        match self {
            WalOp::ReplicateNas => "replicate_nas",
            WalOp::UploadS3 => "upload_s3",
        }
    }
}

impl TryFrom<&str> for WalOp {
    type Error = FvfsError;

    /// The operation stored under the name, if it is one of the two names.
    fn try_from(s: &str) -> (r: Result<Self, FvfsError>)
        ensures
            match r {
                Ok(op) => wal_op_named(s@) == Some(op),
                Err(e) => wal_op_named(s@) is None && e@ == ErrorView::Wal("unknown WAL op: "@ + s@),
            },
    {
        if same_text(s, "replicate_nas") {
            Ok(WalOp::ReplicateNas)
        } else if same_text(s, "upload_s3") {
            Ok(WalOp::UploadS3)
        } else {
            Err(FvfsError::Wal(concat2("unknown WAL op: ", s)))
        }
    }
}

impl vstd::std_specs::convert::TryFromSpecImpl<&str> for WalOp {
    open spec fn obeys_try_from_spec() -> bool {
        false
    }

    open spec fn try_from_spec(s: &str) -> Result<Self, FvfsError> {
        arbitrary()
    }
}

/// A stored operation is read back as what it was.
pub proof fn law_wal_op_round_trip(op: WalOp)
    ensures
        wal_op_named(wal_op_name(op)) == Some(op),
{
    reveal_strlit("replicate_nas");
    reveal_strlit("upload_s3");
    assert("replicate_nas"@.len() != "upload_s3"@.len());
}

/// A pending entry of the write-ahead log.
#[derive(Debug, PartialEq, Eq)]
pub struct WalEntry {
    pub id: i64,
    pub file_id: i64,
    pub op: WalOp,
    pub enqueued_at: i64,
    pub attempts: u32,
    pub last_error: Option<String>,
}

/// The mathematical value of a [`WalEntry`].
pub struct WalView {
    pub id: i64,
    pub file_id: i64,
    pub op: WalOp,
    pub enqueued_at: i64,
    pub attempts: u32,
    pub last_error: Option<Seq<char>>,
}

impl View for WalEntry {
    type V = WalView;

    open spec fn view(&self) -> WalView {
        WalView {
            id: self.id,
            file_id: self.file_id,
            op: self.op,
            enqueued_at: self.enqueued_at,
            attempts: self.attempts,
            last_error: opt_text(self.last_error),
        }
    }
}

impl Clone for WalEntry {
    fn clone(&self) -> (r: Self)
        ensures
            r == *self,
    {
        WalEntry {
            id: self.id,
            file_id: self.file_id,
            op: self.op,
            enqueued_at: self.enqueued_at,
            attempts: self.attempts,
            last_error: clone_opt_text(&self.last_error),
        }
    }
}

// ---------------------------------------------------------------------------
// Devices and daemon status

/// A device seen on the network.
#[derive(Debug, PartialEq, Eq)]
pub struct DeviceInfo {
    pub id: i64,
    pub name: String,
    pub mdns_name: String,
    pub last_seen_at: i64,
    pub ip: String,
}

impl Clone for DeviceInfo {
    fn clone(&self) -> (r: Self)
        ensures
            r == *self,
    {
        DeviceInfo {
            id: self.id,
            name: self.name.clone(),
            mdns_name: self.mdns_name.clone(),
            last_seen_at: self.last_seen_at,
            ip: self.ip.clone(),
        }
    }
}

/// What one tier holds.
#[derive(Debug, PartialEq, Eq)]
pub struct TierStats {
    pub name: String,
    pub files: u64,
    pub bytes: u64,
}

/// Health of the daemon.
#[derive(Debug, PartialEq, Eq)]
pub struct DaemonStatus {
    pub version: String,
    pub uptime_secs: u64,
    pub tiers: Vec<TierStats>,
    pub wal_pending: u64,
}

// ---------------------------------------------------------------------------
// Time

/// `SystemTime::now` of std, as whole seconds since the epoch; `None` where the
/// clock stands before it. Nothing is claimed of the reading.
#[verifier::external_body]
fn clock_seconds() -> (r: Option<u64>) {
    match SystemTime::now().duration_since(UNIX_EPOCH) {
        Ok(d) => Some(d.as_secs()),
        Err(_) => None,
    }
}

/// A clock reading as a timestamp; a clock before the epoch reads as the epoch.
pub fn unix_seconds(reading: Option<u64>) -> (r: i64)
    ensures
        r == (match reading {
            Some(s) => s as i64,
            None => 0,
        }),
{
    match reading {
        Some(s) =>
            #[verifier::truncate]
            (s as i64),
        None => 0,
    }
}

/// The current time in whole seconds since the epoch: what [`unix_seconds`] makes
/// of the clock's reading.
pub fn now_unix() -> (r: i64) {
    unix_seconds(clock_seconds())
}

} // verus!
