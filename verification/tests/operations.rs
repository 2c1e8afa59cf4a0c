//! Operations driven against disks, a database and a log that live in memory.

use fvfs::action::Action;
use fvfs::action::Event;
use fvfs::action::PromoteSignal;
use fvfs::eviction_task::run_eviction_cycle;
use fvfs::eviction_task::CycleStep;
use fvfs::eviction_task::TierWatermarks;
use fvfs::fuse::Errno;
use fvfs::fuse::Times;
use fvfs::fuse_daemon::CallReply;
use fvfs::fuse_daemon::CallStep;
use fvfs::fuse_daemon::VfsdFuse;
use fvfs::metadata::direct_children;
use fvfs::metadata::metadata_to_row;
use fvfs::metadata::row_to_metadata;
use fvfs::migrate::run_migration;
use fvfs::migrate::HashedFile;
use fvfs::migrate::MigrateReport;
use fvfs::migrate::MigrateStep;
use fvfs::promotion::Promotion;
use fvfs::promotion::PromotionStep;
use fvfs::router::Reply;
use fvfs::router::Step;
use fvfs::router::TierRouter;
use fvfs::s3_uploader::flush_pending;
use fvfs::s3_uploader::Backlog;
use fvfs::s3_uploader::BacklogStep;
use fvfs::s3_uploader::FlushStep;
use fvfs::wal_replay::replay_wal;
use fvfs::wal_replay::ReplayStep;
use fvfs::EntryKind;
use fvfs::FileMetadata;
use fvfs::FvfsError;
use fvfs::Tier;
use fvfs::TierBitmask;
use fvfs::VfsPath;
use fvfs::WalEntry;
use fvfs::WalOp;
use std::collections::BTreeMap;

const HELLO_HASH: &str = "2cf24dba5fb0a30e26e83b2ac5b9e29e1b161e5c1fa7425e73043362938b9824";

struct Sim {
    stores: [BTreeMap<String, Vec<u8>>; 3],
    files: BTreeMap<String, FileMetadata>,
    next_id: i64,
    wal: Vec<WalEntry>,
    next_wal: i64,
    promotions: Vec<(String, Tier)>,
    sleeps: Vec<u64>,
    sources: Vec<Vec<u8>>,
    failing: Vec<&'static str>,
    seen: Vec<&'static str>,
    clock: i64,
}

fn p(s: &str) -> VfsPath {
    VfsPath::new(s).unwrap()
}

fn at(t: Tier) -> usize {
    match t {
        Tier::Local => 0,
        Tier::Nas => 1,
        Tier::S3 => 2,
    }
}

fn missing(path: &VfsPath) -> FvfsError {
    FvfsError::NotFound { path: path.text() }
}

impl Sim {
    fn new() -> Sim {
        Sim {
            stores: [BTreeMap::new(), BTreeMap::new(), BTreeMap::new()],
            files: BTreeMap::new(),
            next_id: 1,
            wal: Vec::new(),
            next_wal: 1,
            promotions: Vec::new(),
            sleeps: Vec::new(),
            sources: Vec::new(),
            failing: Vec::new(),
            seen: Vec::new(),
            clock: 1000,
        }
    }

    fn fails(&mut self, what: &'static str) -> bool {
        self.seen.push(what);
        self.failing.contains(&what)
    }

    fn entry_by_id(&mut self, id: i64) -> Option<&mut FileMetadata> {
        self.files.values_mut().find(|m| m.id == id)
    }

    fn perform(&mut self, action: Action) -> Event {
        let boom = || FvfsError::Io("boom".to_string());
        match action {
            Action::Put { tier, path, data } => {
                let what = ["put local", "put nas", "put s3"][at(tier)];
                if self.fails(what) {
                    return Event::Finished(Err(boom()));
                }
                self.stores[at(tier)].insert(path.text(), data);
                Event::Finished(Ok(()))
            }
            Action::Get { tier, path } => {
                let what = ["get local", "get nas", "get s3"][at(tier)];
                if self.fails(what) {
                    return Event::Data(Err(boom()));
                }
                Event::Data(match self.stores[at(tier)].get(path.as_str()) {
                    Some(d) => Ok(d.clone()),
                    None => Err(missing(&path)),
                })
            }
            Action::Remove { tier, path } => {
                self.seen.push("remove");
                Event::Finished(match self.stores[at(tier)].remove(path.as_str()) {
                    Some(_) => Ok(()),
                    None => Err(missing(&path)),
                })
            }
            Action::RemoveAll { tiers, path } => {
                self.seen.push("remove all");
                for t in [Tier::Local, Tier::Nas, Tier::S3] {
                    if tiers.has(t) {
                        self.stores[at(t)].remove(path.as_str());
                    }
                }
                Event::Finished(Ok(()))
            }
            Action::Upsert { meta } => {
                if self.fails("upsert") {
                    return Event::Id(Err(FvfsError::Metadata("locked".to_string())));
                }
                let mut m = row_to_metadata(metadata_to_row(&meta));
                if let Some(old) = self.files.get(m.path.as_str()) {
                    m.id = old.id;
                    m.created_at = old.created_at;
                } else {
                    m.id = self.next_id;
                    self.next_id += 1;
                }
                let id = m.id;
                self.files.insert(m.path.text(), m);
                Event::Id(Ok(id))
            }
            Action::Lookup { path } => {
                if self.fails("lookup") {
                    return Event::Meta(Err(FvfsError::Metadata("locked".to_string())));
                }
                Event::Meta(Ok(self.files.get(path.as_str()).cloned()))
            }
            Action::LookupId { id } => {
                if self.fails("lookup id") {
                    return Event::Meta(Err(FvfsError::Metadata("locked".to_string())));
                }
                Event::Meta(Ok(self.entry_by_id(id).cloned()))
            }
            Action::ListDir { path } => {
                let all: Vec<FileMetadata> = self.files.values().cloned().collect();
                Event::Listing(Ok(direct_children(&path, all)))
            }
            Action::SetTiers { id, tiers } => {
                if self.fails("set tiers") {
                    return Event::Finished(Err(FvfsError::Metadata("locked".to_string())));
                }
                if let Some(m) = self.entry_by_id(id) {
                    m.tier_bitmask = tiers;
                }
                Event::Finished(Ok(()))
            }
            Action::RecordAccess { id } => {
                self.seen.push("record access");
                let now = self.clock;
                if let Some(m) = self.entry_by_id(id) {
                    m.accessed_at = now;
                    m.access_count_30d += 1;
                }
                Event::Finished(Ok(()))
            }
            Action::Forget { path } => {
                self.seen.push("forget");
                if let Some(m) = self.files.remove(path.as_str()) {
                    self.wal.retain(|e| e.file_id != m.id);
                }
                Event::Finished(Ok(()))
            }
            Action::WalEnqueue { file_id, op } => {
                if self.fails("enqueue") {
                    return Event::Id(Err(FvfsError::Metadata("locked".to_string())));
                }
                let id = self.next_wal;
                self.next_wal += 1;
                self.wal.push(WalEntry {
                    id,
                    file_id,
                    op,
                    enqueued_at: self.clock,
                    attempts: 0,
                    last_error: None,
                });
                Event::Id(Ok(id))
            }
            Action::WalComplete { id } => {
                if self.fails("complete") {
                    return Event::Finished(Err(boom()));
                }
                self.wal.retain(|e| e.id != id);
                Event::Finished(Ok(()))
            }
            Action::WalRecordFailure { id, error } => {
                if self.fails("record failure") {
                    return Event::Finished(Err(boom()));
                }
                for e in self.wal.iter_mut() {
                    if e.id == id {
                        e.attempts += 1;
                        e.last_error = Some(error.clone());
                    }
                }
                Event::Finished(Ok(()))
            }
            Action::WalPending => {
                if self.fails("pending") {
                    return Event::Entries(Err(FvfsError::Metadata("locked".to_string())));
                }
                Event::Entries(Ok(self.wal.clone()))
            }
            Action::BytesOnTier { tier } => Event::Bytes(Ok(self
                .files
                .values()
                .filter(|m| m.is_file() && m.tier_bitmask.has(tier))
                .map(|m| m.size_bytes)
                .sum())),
            Action::CountOnTier { tier } => Event::Bytes(Ok(self
                .files
                .values()
                .filter(|m| m.is_file() && m.tier_bitmask.has(tier))
                .count() as u64)),
            Action::FilesOnTier { tier } => Event::Ranked(Ok(self
                .files
                .values()
                .filter(|m| m.is_file() && m.tier_bitmask.has(tier))
                .map(|m| (m.clone(), m.accessed_at as u64))
                .collect())),
            Action::ReadSource { index } => {
                if self.fails("source") {
                    return Event::Data(Err(boom()));
                }
                Event::Data(Ok(self.sources[index].clone()))
            }
            Action::Promote { signal } => {
                let PromoteSignal::Promote { path, from } = signal;
                self.promotions.push((path.text(), from));
                Event::Finished(Ok(()))
            }
            Action::Sleep { millis } => {
                self.sleeps.push(millis);
                Event::Finished(Ok(()))
            }
        }
    }

    fn drive(&mut self, start: (TierRouter, Action)) -> Result<Reply, FvfsError> {
        let (mut op, mut action) = start;
        loop {
            let event = self.perform(action);
            assert!(op.expects(&event));
            match op.step(event, self.clock) {
                Step::Next(next, a) => {
                    op = next;
                    action = a;
                }
                Step::Done(r) => return r,
            }
        }
    }

    fn write(&mut self, path: &str, data: &[u8]) -> Result<Reply, FvfsError> {
        self.drive(TierRouter::write(&p(path), data.to_vec()))
    }

    fn read(&mut self, path: &str) -> Result<Reply, FvfsError> {
        self.drive(TierRouter::read(&p(path)))
    }

    fn replay(&mut self) {
        let (mut op, mut action) = replay_wal();
        loop {
            let event = self.perform(action);
            assert!(op.expects(&event));
            match op.step(event, self.clock) {
                ReplayStep::Next(next, a) => {
                    op = next;
                    action = a;
                }
                ReplayStep::Done => return,
            }
        }
    }

    fn flush(&mut self) {
        let (mut op, mut action) = flush_pending();
        loop {
            let event = self.perform(action);
            assert!(op.expects(&event));
            match op.step(event, self.clock) {
                FlushStep::Next(next, a) => {
                    op = next;
                    action = a;
                }
                FlushStep::Done => return,
            }
        }
    }

    fn flush_due(&mut self, limit: u64) -> bool {
        let (mut op, mut action) = Backlog::measure(limit);
        loop {
            let event = self.perform(action);
            assert!(op.expects(&event));
            match op.step(event) {
                BacklogStep::Next(next, a) => {
                    op = next;
                    action = a;
                }
                BacklogStep::Done(due) => return due,
            }
        }
    }

    fn promote(&mut self, path: &str, from: Tier) {
        let (mut op, mut action) = Promotion::start(PromoteSignal::Promote { path: p(path), from });
        loop {
            let event = self.perform(action);
            assert!(op.expects(&event));
            match op.step(event, self.clock) {
                PromotionStep::Next(next, a) => {
                    op = next;
                    action = a;
                }
                PromotionStep::Done => return,
            }
        }
    }

    fn evict(&mut self, tier: Tier, wm: TierWatermarks) -> u64 {
        let (mut op, mut action) = run_eviction_cycle(tier, wm);
        loop {
            let event = self.perform(action);
            assert!(op.expects(&event));
            match op.step(event, self.clock) {
                CycleStep::Next(next, a) => {
                    op = next;
                    action = a;
                }
                CycleStep::Done(freed) => return freed,
            }
        }
    }

    fn migrate(&mut self, files: Vec<Option<HashedFile>>) -> MigrateReport {
        let mut step = run_migration(files);
        loop {
            match step {
                MigrateStep::Next(op, action) => {
                    let event = self.perform(action);
                    assert!(op.expects(&event));
                    step = op.step(event, self.clock);
                }
                MigrateStep::Done(r) => return r,
            }
        }
    }

    fn call(&mut self, fuse: &mut VfsdFuse, start: CallStep) -> Result<CallReply, Errno> {
        let mut step = start;
        loop {
            match step {
                CallStep::Next(call, action) => {
                    let event = self.perform(action);
                    assert!(call.expects(&event));
                    step = fuse.step(call, event, self.clock);
                }
                CallStep::Done(r) => return r,
            }
        }
    }

    fn tiers(&self, path: &str) -> u8 {
        self.files[path].tier_bitmask.as_u8()
    }

    fn set_tiers(&mut self, path: &str, bits: u8) {
        self.files.get_mut(path).unwrap().tier_bitmask = TierBitmask::from(bits);
    }
}

#[test]
fn write_stores_locally_and_enqueues_both_replications() {
    let mut sim = Sim::new();
    assert_eq!(sim.write("/photos/2024/a.txt", b"hello"), Ok(Reply::Done));
    assert_eq!(sim.stores[0]["/photos/2024/a.txt"], b"hello".to_vec());
    assert!(sim.stores[1].is_empty());
    assert!(sim.stores[2].is_empty());
    let m = sim.files["/photos/2024/a.txt"].clone();
    assert_eq!(m.size_bytes, 5);
    assert_eq!(m.sha256, HELLO_HASH);
    assert_eq!(m.tier_bitmask, TierBitmask(1));
    assert_eq!(m.kind, EntryKind::File);
    let ops: Vec<(i64, WalOp)> = sim.wal.iter().map(|e| (e.file_id, e.op)).collect();
    assert_eq!(ops, vec![(m.id, WalOp::ReplicateNas), (m.id, WalOp::UploadS3)]);
}

#[test]
fn write_creates_every_directory_above() {
    let mut sim = Sim::new();
    sim.write("/a/b/c.txt", b"x").unwrap();
    let paths: Vec<&str> = sim.files.keys().map(|k| k.as_str()).collect();
    assert_eq!(paths, vec!["/", "/a", "/a/b", "/a/b/c.txt"]);
    for d in ["/", "/a", "/a/b"] {
        assert_eq!(sim.files[d].kind, EntryKind::Directory);
        assert_eq!(sim.files[d].tier_bitmask, TierBitmask(7));
        assert_eq!(sim.files[d].mime_type, Some("inode/directory".to_string()));
    }
}

#[test]
fn overwriting_keeps_the_id() {
    let mut sim = Sim::new();
    sim.write("/a.txt", b"one").unwrap();
    let id = sim.files["/a.txt"].id;
    sim.clock = 2000;
    sim.write("/a.txt", b"three").unwrap();
    let m = &sim.files["/a.txt"];
    assert_eq!(m.id, id);
    assert_eq!(m.created_at, 1000);
    assert_eq!(m.modified_at, 2000);
    assert_eq!(m.size_bytes, 5);
}

#[test]
fn read_gives_back_what_was_written() {
    let mut sim = Sim::new();
    sim.write("/a.txt", b"hello").unwrap();
    sim.clock = 1234;
    assert_eq!(sim.read("/a.txt"), Ok(Reply::Data(b"hello".to_vec())));
    assert_eq!(sim.files["/a.txt"].access_count_30d, 1);
    assert_eq!(sim.files["/a.txt"].accessed_at, 1234);
    assert!(sim.promotions.is_empty());
}

#[test]
fn failed_local_put_stops_a_write() {
    let mut sim = Sim::new();
    sim.failing = vec!["put local"];
    assert_eq!(sim.write("/a.txt", b"x"), Err(FvfsError::Io("boom".to_string())));
    assert!(sim.files.is_empty());
    assert!(sim.wal.is_empty());
}

#[test]
fn failed_upsert_stops_a_write() {
    let mut sim = Sim::new();
    sim.failing = vec!["upsert"];
    let r = sim.write("/a.txt", b"x");
    assert_eq!(r, Err(FvfsError::Metadata("locked".to_string())));
    assert!(sim.wal.is_empty());
}

#[test]
fn failed_enqueue_fails_the_write() {
    let mut sim = Sim::new();
    sim.failing = vec!["enqueue"];
    assert_eq!(sim.write("/a.txt", b"x"), Err(FvfsError::Metadata("locked".to_string())));
}

#[test]
fn read_of_an_unknown_path_is_not_found() {
    let mut sim = Sim::new();
    assert_eq!(sim.read("/nope"), Err(FvfsError::NotFound { path: "/nope".to_string() }));
}

#[test]
fn read_of_a_directory_is_refused() {
    let mut sim = Sim::new();
    sim.write("/d/f", b"x").unwrap();
    assert_eq!(sim.read("/d"), Err(FvfsError::IsADirectory { path: "/d".to_string() }));
}

#[test]
fn read_from_nas_asks_for_promotion() {
    let mut sim = Sim::new();
    sim.write("/a", b"data").unwrap();
    let d = sim.stores[0].remove("/a").unwrap();
    sim.stores[1].insert("/a".to_string(), d);
    sim.set_tiers("/a", 6);
    assert_eq!(sim.read("/a"), Ok(Reply::Data(b"data".to_vec())));
    assert_eq!(sim.promotions, vec![("/a".to_string(), Tier::Nas)]);
}

#[test]
fn read_from_s3_asks_for_promotion() {
    let mut sim = Sim::new();
    sim.write("/a", b"data").unwrap();
    let d = sim.stores[0].remove("/a").unwrap();
    sim.stores[2].insert("/a".to_string(), d);
    sim.set_tiers("/a", 4);
    assert_eq!(sim.read("/a"), Ok(Reply::Data(b"data".to_vec())));
    assert_eq!(sim.promotions, vec![("/a".to_string(), Tier::S3)]);
}

#[test]
fn a_lost_local_copy_is_read_from_the_next_tier() {
    let mut sim = Sim::new();
    sim.write("/a", b"data").unwrap();
    sim.replay();
    assert_eq!(sim.tiers("/a"), 7);
    sim.stores[0].clear();
    assert_eq!(sim.read("/a"), Ok(Reply::Data(b"data".to_vec())));
    assert_eq!(sim.promotions, vec![("/a".to_string(), Tier::Nas)]);
}

#[test]
fn a_file_whose_local_and_nas_copies_are_lost_is_read_from_s3() {
    let mut sim = Sim::new();
    sim.write("/a", b"data").unwrap();
    sim.replay();
    assert_eq!(sim.tiers("/a"), 7);
    sim.stores[0].clear();
    sim.stores[1].clear();
    assert_eq!(sim.read("/a"), Ok(Reply::Data(b"data".to_vec())));
    assert_eq!(sim.promotions, vec![("/a".to_string(), Tier::S3)]);
    sim.promote("/a", Tier::S3);
    assert_eq!(sim.stores[0]["/a"], b"data".to_vec());
}

#[test]
fn a_file_that_local_and_nas_fail_to_give_is_read_from_s3() {
    let mut sim = Sim::new();
    sim.write("/a", b"data").unwrap();
    sim.replay();
    sim.failing = vec!["get local", "get nas"];
    assert_eq!(sim.read("/a"), Ok(Reply::Data(b"data".to_vec())));
    sim.failing = vec!["get local", "get nas", "get s3"];
    assert_eq!(sim.read("/a"), Err(FvfsError::Io("boom".to_string())));
}

#[test]
fn a_lost_local_copy_without_others_is_not_found() {
    let mut sim = Sim::new();
    sim.write("/a", b"data").unwrap();
    sim.stores[0].clear();
    assert_eq!(sim.read("/a"), Err(FvfsError::NotFound { path: "/a".to_string() }));
}

#[test]
fn a_file_on_no_tier_is_not_found() {
    let mut sim = Sim::new();
    sim.write("/a", b"data").unwrap();
    sim.set_tiers("/a", 0);
    assert_eq!(sim.read("/a"), Err(FvfsError::NotFound { path: "/a".to_string() }));
    assert!(!sim.seen.contains(&"get local"));
}

#[test]
fn delete_removes_copies_entry_and_log() {
    let mut sim = Sim::new();
    sim.write("/a", b"data").unwrap();
    sim.write("/b", b"data").unwrap();
    sim.replay();
    sim.write("/a", b"again").unwrap();
    assert_eq!(sim.drive(TierRouter::delete(&p("/a"))), Ok(Reply::Done));
    assert!(!sim.files.contains_key("/a"));
    assert!(!sim.stores[0].contains_key("/a"));
    assert!(sim.wal.is_empty());
    assert!(sim.stores[0].contains_key("/b"));
    assert_eq!(sim.read("/a"), Err(FvfsError::NotFound { path: "/a".to_string() }));
    assert_eq!(
        sim.drive(TierRouter::delete(&p("/a"))),
        Err(FvfsError::NotFound { path: "/a".to_string() })
    );
}

#[test]
fn mkdir_makes_the_directory_and_those_above() {
    let mut sim = Sim::new();
    assert_eq!(sim.drive(TierRouter::mkdir(&p("/x/y"), 77)), Ok(Reply::Done));
    assert_eq!(sim.files["/x/y"].created_at, 77);
    assert!(sim.files["/x"].is_dir());
    assert!(sim.files["/"].is_dir());
    assert!(sim.wal.is_empty());
}

#[test]
fn stat_gives_the_entry() {
    let mut sim = Sim::new();
    sim.write("/a", b"data").unwrap();
    let m = sim.files["/a"].clone();
    assert_eq!(sim.drive(TierRouter::stat(&p("/a"))), Ok(Reply::Meta(m)));
    assert_eq!(
        sim.drive(TierRouter::stat(&p("/b"))),
        Err(FvfsError::NotFound { path: "/b".to_string() })
    );
}

#[test]
fn list_shows_direct_children_only() {
    let mut sim = Sim::new();
    sim.write("/d/a", b"1").unwrap();
    sim.write("/d/sub/b", b"22").unwrap();
    sim.write("/D/c", b"3").unwrap();
    sim.write("/top", b"3").unwrap();
    let names = |r: Result<Reply, FvfsError>| match r {
        Ok(Reply::Entries(es)) => es.iter().map(|e| e.path.text()).collect::<Vec<String>>(),
        _ => panic!("no listing"),
    };
    assert_eq!(names(sim.drive(TierRouter::list(&p("/d")))), vec!["/d/a", "/d/sub"]);
    assert_eq!(names(sim.drive(TierRouter::list(&p("/")))), vec!["/D", "/d", "/top"]);
    assert_eq!(names(sim.drive(TierRouter::list(&p("/top")))), Vec::<String>::new());
}

#[test]
fn eviction_needs_a_copy_in_s3() {
    let mut sim = Sim::new();
    sim.write("/a", b"data").unwrap();
    let refused = Err(FvfsError::Other("cannot evict: file not present on colder tier".to_string()));
    assert_eq!(sim.drive(TierRouter::evict_from_tier(&p("/a"), Tier::Local)), refused);
    sim.replay();
    assert_eq!(sim.drive(TierRouter::evict_from_tier(&p("/a"), Tier::Local)), Ok(Reply::Done));
    assert_eq!(sim.tiers("/a"), 6);
    assert!(!sim.stores[0].contains_key("/a"));
    assert_eq!(sim.read("/a"), Ok(Reply::Data(b"data".to_vec())));
}

#[test]
fn s3_is_never_evicted() {
    let mut sim = Sim::new();
    sim.write("/a", b"data").unwrap();
    sim.replay();
    let refused = Err(FvfsError::Other("cannot evict: file not present on colder tier".to_string()));
    assert_eq!(sim.drive(TierRouter::evict_from_tier(&p("/a"), Tier::S3)), refused);
    assert!(sim.stores[2].contains_key("/a"));
}

#[test]
fn eviction_of_a_missing_copy_reports_it() {
    let mut sim = Sim::new();
    sim.write("/a", b"data").unwrap();
    sim.replay();
    sim.stores[1].clear();
    assert_eq!(
        sim.drive(TierRouter::evict_from_tier(&p("/a"), Tier::Nas)),
        Err(FvfsError::NotFound { path: "/a".to_string() })
    );
    assert_eq!(sim.tiers("/a"), 7);
}

#[test]
fn replay_replicates_everywhere() {
    let mut sim = Sim::new();
    sim.write("/a", b"one").unwrap();
    sim.write("/b", b"two").unwrap();
    sim.replay();
    for (path, data) in [("/a", b"one"), ("/b", b"two")] {
        for s in &sim.stores {
            assert_eq!(s[path], data.to_vec());
        }
        assert_eq!(sim.tiers(path), 7);
    }
    assert!(sim.wal.is_empty());
    assert!(sim.sleeps.is_empty());
}

#[test]
fn replay_backs_off_and_gives_up_after_ten_attempts() {
    let mut sim = Sim::new();
    sim.write("/a", b"one").unwrap();
    sim.wal.remove(0);
    sim.failing = vec!["put s3"];
    sim.replay();
    assert_eq!(
        sim.sleeps,
        vec![500, 1000, 2000, 4000, 8000, 16000, 30000, 30000, 30000, 30000]
    );
    assert_eq!(sim.wal.len(), 1);
    assert_eq!(sim.wal[0].attempts, 10);
    assert_eq!(sim.wal[0].last_error, Some("I/O error: boom".to_string()));
    sim.sleeps.clear();
    sim.replay();
    assert!(sim.sleeps.is_empty());
}

#[test]
fn replay_goes_on_from_the_attempts_made() {
    let mut sim = Sim::new();
    sim.write("/a", b"one").unwrap();
    sim.wal.remove(0);
    sim.wal[0].attempts = 8;
    sim.failing = vec!["put s3"];
    sim.replay();
    assert_eq!(sim.sleeps, vec![500, 1000]);
}

#[test]
fn replay_drops_entries_of_deleted_files() {
    let mut sim = Sim::new();
    sim.wal.push(WalEntry {
        id: 5,
        file_id: 99,
        op: WalOp::UploadS3,
        enqueued_at: 0,
        attempts: 0,
        last_error: None,
    });
    sim.replay();
    assert!(sim.wal.is_empty());
}

#[test]
fn replay_passes_over_entries_that_cannot_be_looked_up() {
    let mut sim = Sim::new();
    sim.write("/a", b"one").unwrap();
    sim.failing = vec!["lookup id"];
    sim.replay();
    assert_eq!(sim.wal.len(), 2);
    assert_eq!(sim.wal[0].attempts, 0);
    assert!(sim.sleeps.is_empty());
}

#[test]
fn replay_without_a_log_does_nothing() {
    let mut sim = Sim::new();
    sim.failing = vec!["pending"];
    sim.replay();
    assert_eq!(sim.seen, vec!["pending"]);
}

#[test]
fn replay_gives_up_one_entry_and_settles_the_others() {
    let mut sim = Sim::new();
    sim.write("/a", b"one").unwrap();
    sim.write("/b", b"two").unwrap();
    sim.stores[0].remove("/a");
    sim.replay();
    assert_eq!(sim.stores[1]["/b"], b"two".to_vec());
    assert_eq!(sim.stores[2]["/b"], b"two".to_vec());
    assert_eq!(sim.tiers("/b"), 7);
    let a = sim.files["/a"].id;
    assert_eq!(sim.wal.len(), 2);
    assert!(sim.wal.iter().all(|e| e.file_id == a && e.attempts == 10));
    assert_eq!(sim.sleeps.len(), 20);
}

#[test]
fn replay_ends_though_the_log_cannot_be_written() {
    let mut sim = Sim::new();
    sim.write("/a", b"one").unwrap();
    sim.failing = vec!["put nas", "record failure", "complete"];
    sim.replay();
    assert_eq!(sim.sleeps.len(), 10);
    assert_eq!(sim.stores[2]["/a"], b"one".to_vec());
    assert_eq!(sim.tiers("/a"), 5);
    assert_eq!(sim.wal.len(), 2);
    assert!(sim.wal.iter().all(|e| e.attempts == 0 && e.last_error.is_none()));
}

#[test]
fn flush_leaves_the_log_as_it_is_when_it_cannot_be_written() {
    let mut sim = Sim::new();
    sim.write("/a", b"one").unwrap();
    sim.write("/b", b"two").unwrap();
    sim.stores[0].remove("/a");
    sim.failing = vec!["record failure", "complete"];
    let before = sim.wal.clone();
    sim.flush();
    assert_eq!(sim.wal, before);
    assert_eq!(sim.stores[2]["/b"], b"two".to_vec());
    assert_eq!(sim.tiers("/b"), 5);
    assert_eq!(sim.tiers("/a"), 1);
}

#[test]
fn flush_uploads_only_uploads() {
    let mut sim = Sim::new();
    sim.write("/a", b"one").unwrap();
    sim.flush();
    assert_eq!(sim.stores[2]["/a"], b"one".to_vec());
    assert_eq!(sim.tiers("/a"), 5);
    assert_eq!(sim.wal.len(), 1);
    assert_eq!(sim.wal[0].op, WalOp::ReplicateNas);
}

#[test]
fn flush_counts_a_failure_once_and_goes_on() {
    let mut sim = Sim::new();
    sim.write("/a", b"one").unwrap();
    sim.write("/b", b"two").unwrap();
    sim.stores[0].remove("/a");
    sim.flush();
    assert_eq!(sim.stores[2]["/b"], b"two".to_vec());
    let left: Vec<&WalEntry> = sim.wal.iter().filter(|e| e.op == WalOp::UploadS3).collect();
    assert_eq!(left.len(), 1);
    assert_eq!(left[0].attempts, 1);
    assert_eq!(left[0].last_error, Some("file not found: /a".to_string()));
    assert!(sim.sleeps.is_empty());
}

#[test]
fn flush_leaves_entries_that_are_given_up() {
    let mut sim = Sim::new();
    sim.write("/a", b"one").unwrap();
    sim.wal[1].attempts = 10;
    sim.flush();
    assert!(sim.stores[2].is_empty());
    assert_eq!(sim.wal.len(), 2);
}

#[test]
fn a_flush_is_due_when_the_pending_size_exceeds_the_limit() {
    let mut sim = Sim::new();
    sim.write("/a", b"12345").unwrap();
    sim.write("/b", b"12345").unwrap();
    assert!(sim.flush_due(9));
    assert!(!sim.flush_due(10));
    sim.flush();
    assert!(!sim.flush_due(0));
    sim.failing = vec!["pending"];
    assert!(!sim.flush_due(0));
}

#[test]
fn promotion_brings_a_file_to_the_local_disk() {
    let mut sim = Sim::new();
    sim.write("/a", b"data").unwrap();
    sim.replay();
    sim.drive(TierRouter::evict_from_tier(&p("/a"), Tier::Local)).unwrap();
    sim.read("/a").unwrap();
    let (path, from) = sim.promotions.pop().unwrap();
    sim.promote(&path, from);
    assert_eq!(sim.stores[0]["/a"], b"data".to_vec());
    assert_eq!(sim.tiers("/a"), 7);
}

#[test]
fn promotion_of_a_missing_file_does_nothing() {
    let mut sim = Sim::new();
    sim.promote("/nope", Tier::Nas);
    assert!(sim.stores[0].is_empty());
    assert_eq!(sim.seen, vec!["lookup"]);
}

#[test]
fn a_promotion_that_cannot_be_stored_is_not_marked() {
    let mut sim = Sim::new();
    sim.write("/a", b"data").unwrap();
    sim.replay();
    sim.drive(TierRouter::evict_from_tier(&p("/a"), Tier::Local)).unwrap();
    sim.failing = vec!["put local"];
    sim.promote("/a", Tier::Nas);
    assert_eq!(sim.tiers("/a"), 6);
}

// --- masks

fn assert_masks_true(sim: &Sim) {
    for (path, m) in &sim.files {
        for t in [Tier::Local, Tier::Nas, Tier::S3] {
            if m.is_file() && m.tier_bitmask.has(t) {
                assert!(sim.stores[at(t)].contains_key(path));
            }
        }
    }
}

#[test]
fn masks_say_where_the_copies_are() {
    let mut sim = Sim::new();
    sim.write("/d/a", b"one").unwrap();
    sim.write("/d/b", b"two").unwrap();
    assert_masks_true(&sim);
    sim.failing = vec!["put nas"];
    sim.flush();
    assert_masks_true(&sim);
    assert_eq!(sim.tiers("/d/a"), 5);
    sim.failing.clear();
    sim.replay();
    assert_masks_true(&sim);
    assert_eq!(sim.tiers("/d/a"), 7);
    sim.drive(TierRouter::evict_from_tier(&p("/d/a"), Tier::Local)).unwrap();
    assert_masks_true(&sim);
    sim.failing = vec!["put local"];
    sim.promote("/d/a", Tier::Nas);
    assert_masks_true(&sim);
    assert_eq!(sim.tiers("/d/a"), 6);
    assert!(sim.write("/d/b", b"three").is_err());
    assert_masks_true(&sim);
    sim.failing.clear();
    sim.evict(Tier::Nas, TierWatermarks { high_bytes: 0, low_bytes: 0 });
    assert_masks_true(&sim);
    assert_eq!(sim.tiers("/d/a"), 4);
    sim.drive(TierRouter::delete(&p("/d/a"))).unwrap();
    assert_masks_true(&sim);
}

#[test]
fn an_eviction_cycle_frees_down_to_the_low_watermark() {
    let mut sim = Sim::new();
    for (i, name) in ["/a", "/b", "/c", "/d"].iter().enumerate() {
        sim.clock = 100 + i as i64;
        sim.write(name, &[0u8; 10]).unwrap();
        sim.files.get_mut(*name).unwrap().accessed_at = 100 - i as i64;
    }
    sim.replay();
    for (i, name) in ["/a", "/b", "/c", "/d"].iter().enumerate() {
        sim.files.get_mut(*name).unwrap().accessed_at = 100 - i as i64;
    }
    let freed = sim.evict(Tier::Local, TierWatermarks { high_bytes: 30, low_bytes: 25 });
    assert_eq!(freed, 20);
    assert_eq!(sim.tiers("/d"), 6);
    assert_eq!(sim.tiers("/c"), 6);
    assert_eq!(sim.tiers("/b"), 7);
    assert_eq!(sim.tiers("/a"), 7);
}

#[test]
fn an_eviction_cycle_takes_the_lowest_keys_that_can_be_evicted() {
    let mut sim = Sim::new();
    let names = ["/a", "/b", "/c", "/d", "/e"];
    for name in names {
        sim.write(name, &[0u8; 10]).unwrap();
    }
    sim.replay();
    for (name, key) in [("/a", 3), ("/b", 1), ("/c", 5), ("/d", 2), ("/e", 4)] {
        sim.files.get_mut(name).unwrap().accessed_at = key;
    }
    sim.set_tiers("/d", 3);
    let freed = sim.evict(Tier::Local, TierWatermarks { high_bytes: 40, low_bytes: 35 });
    assert_eq!(freed, 20);
    let left: Vec<u8> = names.iter().map(|n| sim.tiers(n)).collect();
    assert_eq!(left, vec![6, 6, 7, 3, 7]);
}

#[test]
fn no_eviction_at_the_high_watermark() {
    let mut sim = Sim::new();
    sim.write("/a", &[0u8; 10]).unwrap();
    sim.replay();
    assert_eq!(sim.evict(Tier::Local, TierWatermarks { high_bytes: 10, low_bytes: 0 }), 0);
    assert_eq!(sim.tiers("/a"), 7);
}

#[test]
fn a_cycle_spares_files_that_s3_does_not_have() {
    let mut sim = Sim::new();
    sim.write("/a", &[0u8; 10]).unwrap();
    sim.write("/b", &[0u8; 10]).unwrap();
    sim.replay();
    sim.set_tiers("/a", 3);
    assert_eq!(sim.evict(Tier::Local, TierWatermarks { high_bytes: 5, low_bytes: 0 }), 10);
    assert_eq!(sim.tiers("/a"), 3);
    assert_eq!(sim.tiers("/b"), 6);
}

#[test]
fn a_cycle_goes_on_after_a_failed_eviction() {
    let mut sim = Sim::new();
    sim.write("/a", &[0u8; 10]).unwrap();
    sim.write("/b", &[0u8; 10]).unwrap();
    sim.replay();
    sim.stores[0].remove("/a");
    assert_eq!(sim.evict(Tier::Local, TierWatermarks { high_bytes: 5, low_bytes: 0 }), 10);
    assert_eq!(sim.tiers("/a"), 7);
    assert_eq!(sim.tiers("/b"), 6);
}

fn found(rel: &str, tier: Tier, hash: &str, size: u64) -> Option<HashedFile> {
    Some(HashedFile { rel: rel.to_string(), tier, sha256: hash.to_string(), size_bytes: size })
}

#[test]
fn migration_uploads_each_content_once() {
    let mut sim = Sim::new();
    sim.sources = vec![b"one".to_vec(), Vec::new(), b"one".to_vec(), b"three".to_vec()];
    let report = sim.migrate(vec![
        found("x/a.txt", Tier::Local, "h1", 3),
        None,
        found("copy.txt", Tier::Nas, "h1", 3),
        found("y\\b.txt", Tier::Nas, "h3", 5),
    ]);
    assert_eq!(
        report,
        MigrateReport {
            total_files: 3,
            total_bytes: 11,
            duplicates: 1,
            s3_upload_bytes: 8,
            errors: 0
        }
    );
    assert_eq!(sim.stores[2]["/x/a.txt"], b"one".to_vec());
    assert_eq!(sim.stores[2]["/y/b.txt"], b"three".to_vec());
    assert_eq!(sim.stores[2].len(), 2);
    assert_eq!(sim.tiers("/x/a.txt"), 5);
    assert_eq!(sim.tiers("/y/b.txt"), 6);
    assert_eq!(sim.files["/y/b.txt"].sha256, "h3");
    assert_eq!(sim.files["/y/b.txt"].size_bytes, 5);
    assert!(!sim.files.contains_key("/copy.txt"));
}

#[test]
fn migration_counts_errors() {
    let mut sim = Sim::new();
    sim.sources = vec![b"one".to_vec(), b"two".to_vec()];
    sim.failing = vec!["put s3"];
    let r = sim.migrate(vec![
        found("a", Tier::Local, "h1", 3),
        found("b\0", Tier::Local, "h2", 3),
    ]);
    assert_eq!(r.errors, 2);
    assert_eq!(r.s3_upload_bytes, 0);
    assert!(sim.files.is_empty());
    sim.failing = vec!["source"];
    assert_eq!(sim.migrate(vec![found("a", Tier::Local, "h1", 3)]).errors, 1);
    sim.failing.clear();
    sim.sources = vec![b"one".to_vec(), b"one".to_vec(), b"three".to_vec(), b"x".to_vec()];
    let r = sim.migrate(vec![
        found("a", Tier::Local, "h1", 3),
        found("b", Tier::Nas, "h1", 3),
        found("c", Tier::Nas, "h3", 5),
        found("d\0", Tier::Nas, "h4", 1),
        None,
    ]);
    assert_eq!((r.total_files, r.duplicates, r.errors), (4, 1, 1));
    assert_eq!(sim.stores[2].len() as u64, r.total_files - r.duplicates - r.errors);
    assert_eq!((r.total_bytes, r.s3_upload_bytes), (12, 8));
    let empty = sim.migrate(Vec::new());
    assert_eq!(empty.total_files, 0);
}

#[test]
fn a_mount_creates_writes_reads_and_deletes() {
    let mut sim = Sim::new();
    let mut fuse = VfsdFuse::new();
    let start = fuse.mkdir(1, Some("docs"), 5);
    let dir = match sim.call(&mut fuse, start) {
        Ok(CallReply::Attr(a)) => a,
        _ => panic!("no attributes"),
    };
    assert_eq!((dir.ino, dir.perm, dir.nlink, dir.kind), (2, 0o755, 2, EntryKind::Directory));
    let start = fuse.create(dir.ino, Some("f.txt"));
    let file = match sim.call(&mut fuse, start) {
        Ok(CallReply::Attr(a)) => a,
        _ => panic!("no attributes"),
    };
    assert_eq!((file.ino, file.perm, file.nlink, file.kind), (3, 0o644, 1, EntryKind::File));
    assert_eq!(file.times, Times::Now);
    let start = fuse.write(file.ino, 2, b"abc".to_vec());
    assert_eq!(sim.call(&mut fuse, start), Ok(CallReply::Written(3)));
    let start = fuse.read(file.ino, 0, 100);
    assert_eq!(sim.call(&mut fuse, start), Ok(CallReply::Data(b"\0\0abc".to_vec())));
    let start = fuse.read(file.ino, 3, 1);
    assert_eq!(sim.call(&mut fuse, start), Ok(CallReply::Data(b"b".to_vec())));
    let start = fuse.setattr(file.ino, Some(0));
    match sim.call(&mut fuse, start) {
        Ok(CallReply::Attr(a)) => assert_eq!((a.ino, a.size, a.blocks), (3, 0, 0)),
        _ => panic!("no attributes"),
    }
    let start = fuse.unlink(dir.ino, Some("f.txt"));
    assert_eq!(sim.call(&mut fuse, start), Ok(CallReply::Gone));
    let start = fuse.read(file.ino, 0, 1);
    assert_eq!(sim.call(&mut fuse, start), Err(Errno::NoEntry));
    let start = fuse.rmdir(1, Some("docs"));
    assert_eq!(sim.call(&mut fuse, start), Ok(CallReply::Gone));
}

#[test]
fn a_mount_refuses_bad_calls() {
    let mut sim = Sim::new();
    let mut fuse = VfsdFuse::new();
    let start = fuse.lookup(9, Some("x"));
    assert_eq!(sim.call(&mut fuse, start), Err(Errno::NoEntry));
    let start = fuse.lookup(1, None);
    assert_eq!(sim.call(&mut fuse, start), Err(Errno::Invalid));
    let start = fuse.create(1, Some("a\0b"));
    assert_eq!(sim.call(&mut fuse, start), Err(Errno::Invalid));
    let start = fuse.lookup(1, Some("x"));
    assert_eq!(sim.call(&mut fuse, start), Err(Errno::NoEntry));
    let start = fuse.unlink(1, Some("x"));
    assert_eq!(sim.call(&mut fuse, start), Err(Errno::NoEntry));
    let start = fuse.setattr(7, Some(3));
    assert_eq!(sim.call(&mut fuse, start), Err(Errno::NoEntry));
    let start = fuse.getattr(7);
    assert_eq!(sim.call(&mut fuse, start), Err(Errno::NoEntry));
    let start = fuse.readdir(7, 0);
    assert_eq!(sim.call(&mut fuse, start), Err(Errno::NoEntry));
    sim.failing = vec!["put local"];
    let start = fuse.create(1, Some("f"));
    assert_eq!(sim.call(&mut fuse, start), Err(Errno::Io));
    sim.failing = vec!["upsert"];
    let start = fuse.mkdir(1, Some("f"), 0);
    assert_eq!(sim.call(&mut fuse, start), Err(Errno::Io));
}

#[test]
fn a_mount_numbers_looked_up_entries_from_their_ids() {
    let mut sim = Sim::new();
    sim.write("/first", b"1").unwrap();
    sim.write("/d/f.txt", &vec![1u8; 5000]).unwrap();
    let id = sim.files["/d/f.txt"].id;
    let dir_id = sim.files["/d"].id;
    let mut fuse = VfsdFuse::new();
    let start = fuse.lookup(1, Some("d"));
    let dir = match sim.call(&mut fuse, start) {
        Ok(CallReply::Attr(a)) => a,
        _ => panic!("no attributes"),
    };
    assert_eq!(dir.ino, dir_id as u64);
    let start = fuse.lookup(dir.ino, Some("f.txt"));
    match sim.call(&mut fuse, start) {
        Ok(CallReply::Attr(a)) => {
            assert_eq!(a.ino, id as u64);
            assert_eq!((a.size, a.blocks, a.blksize), (5000, 2, 4096));
            assert_eq!(a.times, Times::At { created: 1000, modified: 1000, accessed: 1000 });
        }
        _ => panic!("no attributes"),
    }
    let start = fuse.read(dir.ino, 0, 10);
    assert_eq!(sim.call(&mut fuse, start), Err(Errno::IsDir));
    assert_eq!(sim.files["/first"].id, 1);
    let start = fuse.lookup(1, Some("first"));
    match sim.call(&mut fuse, start) {
        Ok(CallReply::Attr(a)) => {
            assert!(a.ino != 1 && a.ino != id as u64 && a.ino != dir_id as u64);
            assert_eq!(fuse.inodes.path(a.ino), Some(&p("/first")));
        }
        _ => panic!("no attributes"),
    }
    let start = fuse.getattr(1);
    match sim.call(&mut fuse, start) {
        Ok(CallReply::Attr(a)) => assert_eq!((a.ino, a.kind), (1, EntryKind::Directory)),
        _ => panic!("no attributes"),
    }
    let start = fuse.setattr(dir.ino, None);
    match sim.call(&mut fuse, start) {
        Ok(CallReply::Attr(a)) => assert_eq!(a.ino, dir.ino),
        _ => panic!("no attributes"),
    }
}

#[test]
fn a_mount_numbers_what_it_makes_and_lists_from_the_ids() {
    let mut sim = Sim::new();
    for name in ["/x", "/y", "/z"] {
        sim.write(name, b"1").unwrap();
    }
    let mut fuse = VfsdFuse::new();
    let start = fuse.create(1, Some("f"));
    let file = match sim.call(&mut fuse, start) {
        Ok(CallReply::Attr(a)) => a,
        _ => panic!("no attributes"),
    };
    assert_eq!(sim.files["/f"].id, 5);
    assert_eq!(file.ino, 5);
    let start = fuse.mkdir(1, Some("d"), 7);
    let dir = match sim.call(&mut fuse, start) {
        Ok(CallReply::Attr(a)) => a,
        _ => panic!("no attributes"),
    };
    assert_eq!(sim.files["/d"].id, 6);
    assert_eq!(dir.ino, 6);
    let start = fuse.create(6, Some("deep"));
    match sim.call(&mut fuse, start) {
        Ok(CallReply::Attr(a)) => assert_eq!(a.ino, sim.files["/d/deep"].id as u64),
        _ => panic!("no attributes"),
    }
    let start = fuse.create(1, Some("y"));
    match sim.call(&mut fuse, start) {
        Ok(CallReply::Attr(a)) => assert_eq!(a.ino, sim.files["/y"].id as u64),
        _ => panic!("no attributes"),
    }
    let start = fuse.readdir(1, 2);
    let mut stream = match sim.call(&mut fuse, start) {
        Ok(CallReply::Stream(s)) => s,
        _ => panic!("no stream"),
    };
    let mut items = Vec::new();
    while let Some((item, rest)) = stream.next(&mut fuse.inodes) {
        items.push((item.name, item.ino));
        stream = rest;
    }
    items.sort();
    let expected = [("d", 6), ("f", 5), ("x", 2), ("y", 3), ("z", 4)];
    assert_eq!(items, expected.map(|(n, i)| (n.to_string(), i)).to_vec());
    for (name, ino) in expected {
        let start = fuse.lookup(1, Some(name));
        match sim.call(&mut fuse, start) {
            Ok(CallReply::Attr(a)) => assert_eq!(a.ino, ino),
            _ => panic!("no attributes"),
        }
    }
}

#[test]
fn a_mount_streams_directories() {
    let mut sim = Sim::new();
    sim.write("/a", b"1").unwrap();
    sim.write("/b/c", b"1").unwrap();
    let mut fuse = VfsdFuse::new();
    let start = fuse.readdir(1, 0);
    let mut stream = match sim.call(&mut fuse, start) {
        Ok(CallReply::Stream(s)) => s,
        _ => panic!("no stream"),
    };
    let mut items = Vec::new();
    while let Some((item, rest)) = stream.next(&mut fuse.inodes) {
        items.push((item.name, item.ino, item.offset, item.kind));
        stream = rest;
    }
    assert_eq!(
        items,
        vec![
            (".".to_string(), 1, 1, EntryKind::Directory),
            ("..".to_string(), 1, 2, EntryKind::Directory),
            ("a".to_string(), 2, 3, EntryKind::File),
            ("b".to_string(), 4, 4, EntryKind::Directory),
        ]
    );
    let start = fuse.readdir(1, 3);
    match sim.call(&mut fuse, start) {
        Ok(CallReply::Stream(s)) => {
            let (item, rest) = s.next(&mut fuse.inodes).unwrap();
            assert_eq!((item.name, item.ino), ("b".to_string(), 4));
            assert!(rest.next(&mut fuse.inodes).is_none());
        }
        _ => panic!("no stream"),
    }
}
