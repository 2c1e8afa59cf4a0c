use fvfs::digest::hash_bytes;
use fvfs::digest::FileHasher;
use fvfs::eviction::rank_for_eviction;
use fvfs::eviction::seconds_since_access;
use fvfs::eviction::sorted_positions;
use fvfs::eviction_task::TierWatermarks;
use fvfs::metadata::direct_children;
use fvfs::metadata::escape_like;
use fvfs::metadata::list_patterns;
use fvfs::metadata::metadata_to_row;
use fvfs::metadata::row_to_metadata;
use fvfs::metadata::rows_to_wal;
use fvfs::metadata::FileRow;
use fvfs::metadata::WalRow;
use fvfs::now_unix;
use fvfs::setup::nas_only_file;
use fvfs::setup::payload_4k;
use fvfs::setup::payload_64m;
use fvfs::setup::seeded_mask;
use fvfs::types::unix_seconds;
use fvfs::DeviceInfo;
use fvfs::EntryKind;
use fvfs::FileEntry;
use fvfs::FileMetadata;
use fvfs::FvfsError;
use fvfs::Tier;
use fvfs::TierBitmask;
use fvfs::VfsPath;
use fvfs::WalEntry;
use fvfs::WalOp;

fn p(s: &str) -> VfsPath {
    VfsPath::new(s).unwrap()
}

#[test]
fn tiers_have_bits_and_names() {
    assert_eq!(Tier::Local.bitmask(), 1);
    assert_eq!(Tier::Nas.bitmask(), 2);
    assert_eq!(Tier::S3.bitmask(), 4);
    assert_eq!(Tier::Local.label(), "local");
    assert_eq!(Tier::Nas.label(), "nas");
    assert_eq!(Tier::S3.label(), "s3");
}

#[test]
fn masks_set_and_clear() {
    let mut m = TierBitmask::none();
    assert_eq!(m, TierBitmask::default());
    m.set(Tier::Local);
    m.set(Tier::S3);
    assert_eq!(m.as_u8(), 5);
    assert!(m.has(Tier::Local) && !m.has(Tier::Nas) && m.has(Tier::S3));
    assert!(!m.is_fully_replicated());
    m.set(Tier::Nas);
    assert_eq!(m, TierBitmask::all());
    assert!(m.is_fully_replicated());
    m.clear(Tier::Nas);
    assert_eq!(m.as_u8(), 5);
    m.clear(Tier::Nas);
    assert_eq!(m.as_u8(), 5);
    assert_eq!(m.tiers(), vec![Tier::Local, Tier::S3]);
    assert_eq!(TierBitmask::none().tiers(), Vec::<Tier>::new());
    assert_eq!(TierBitmask::all().tiers(), vec![Tier::Local, Tier::Nas, Tier::S3]);
    assert_eq!(TierBitmask::only(Tier::Nas).as_u8(), 2);
    assert_eq!(TierBitmask::from(3u8).as_u8(), 3);
    assert_eq!(TierBitmask::from(0x107i64).as_u8(), 7);
}

#[test]
fn only_files_in_s3_can_be_evicted() {
    assert!(TierBitmask(7).safe_to_evict_from(Tier::Local));
    assert!(TierBitmask(5).safe_to_evict_from(Tier::Local));
    assert!(TierBitmask(6).safe_to_evict_from(Tier::Nas));
    assert!(!TierBitmask(3).safe_to_evict_from(Tier::Local));
    assert!(!TierBitmask(3).safe_to_evict_from(Tier::Nas));
    assert!(!TierBitmask(7).safe_to_evict_from(Tier::S3));
}

#[test]
fn new_entries() {
    let f = FileMetadata::new_file(p("/a"), 3, "h".to_string());
    assert!(f.is_file() && !f.is_dir());
    assert_eq!((f.id, f.size_bytes, f.tier_bitmask.as_u8()), (0, 3, 0));
    assert_eq!(f.created_at, f.modified_at);
    assert_eq!(f.mime_type, None);
    let d = FileMetadata::new_dir(p("/d"));
    assert!(d.is_dir());
    assert_eq!(d.tier_bitmask, TierBitmask::all());
    assert_eq!(d.mime_type, Some("inode/directory".to_string()));
    let e = FileEntry::from(&f);
    assert_eq!(e.path, p("/a"));
    assert_eq!(e.size_bytes, 3);
    assert_eq!(e.kind, EntryKind::File);
    assert_eq!(e.clone(), e);
    assert_eq!(f.clone(), f);
}

#[test]
fn time_runs_from_the_epoch() {
    assert_eq!(unix_seconds(None), 0);
    assert_eq!(unix_seconds(Some(12)), 12);
    assert_eq!(unix_seconds(Some(u64::MAX)), -1);
    assert!(now_unix() > 1_600_000_000);
}

#[test]
fn wal_operations_have_names() {
    for op in [WalOp::ReplicateNas, WalOp::UploadS3] {
        assert_eq!(WalOp::try_from(op.as_str()), Ok(op));
    }
    assert_eq!(WalOp::ReplicateNas.as_str(), "replicate_nas");
    assert_eq!(WalOp::UploadS3.as_str(), "upload_s3");
    assert_eq!(
        WalOp::try_from("fsync"),
        Err(FvfsError::Wal("unknown WAL op: fsync".to_string()))
    );
}

#[test]
fn devices_are_copied() {
    let d = DeviceInfo {
        id: 1,
        name: "mini".to_string(),
        mdns_name: "mini.local.".to_string(),
        last_seen_at: 5,
        ip: "192.168.1.10".to_string(),
    };
    assert_eq!(d.clone(), d);
}

#[test]
fn messages_of_errors() {
    let s = || "x".to_string();
    for (e, want) in [
        (FvfsError::NotFound { path: s() }, "file not found: x"),
        (FvfsError::AlreadyExists { path: s() }, "path already exists: x"),
        (FvfsError::InvalidPath(s()), "invalid path: x"),
        (FvfsError::Backend { tier: s(), source: "y".to_string() }, "storage backend error (x): y"),
        (FvfsError::Metadata(s()), "metadata store error: x"),
        (FvfsError::Serde(s()), "serialization error: x"),
        (FvfsError::Io(s()), "I/O error: x"),
        (FvfsError::S3(s()), "S3 error: x"),
        (FvfsError::Wal(s()), "WAL error: x"),
        (FvfsError::Config(s()), "configuration error: x"),
        (FvfsError::PermissionDenied(s()), "permission denied: x"),
        (FvfsError::NotADirectory { path: s() }, "not a directory: x"),
        (FvfsError::IsADirectory { path: s() }, "is a directory: x"),
        (FvfsError::DirectoryNotEmpty { path: s() }, "directory not empty: x"),
        (FvfsError::Other(s()), "x"),
    ] {
        assert_eq!(e.message(), want);
    }
}

#[test]
fn content_hashes() {
    assert_eq!(
        hash_bytes(b""),
        "e3b0c44298fc1c149afbf4c8996fb92427ae41e4649b934ca495991b7852b855"
    );
    assert_eq!(
        hash_bytes(b"abc"),
        "ba7816bf8f01cfea414140de5dae2223b00361a396177a9cb410ff61f20015ad"
    );
    let h = FileHasher::new();
    assert!(h.fits(2));
    let (hash, size) = h.feed(b"a").feed(b"bc").finish();
    assert_eq!(hash, hash_bytes(b"abc"));
    assert_eq!(size, 3);
}

#[test]
fn rows_round_trip() {
    let mut m = FileMetadata::new_file(p("/a/b"), u64::MAX, "hash".to_string());
    m.id = 42;
    m.access_count_30d = u32::MAX;
    m.tier_bitmask = TierBitmask(255);
    let row = metadata_to_row(&m);
    assert_eq!(row.size_bytes, -1);
    assert_eq!(row.is_dir, 0);
    assert_eq!(row.mime_type, Some(String::new()));
    let back = row_to_metadata(row);
    m.mime_type = Some(String::new());
    assert_eq!(back, m);
    let d = FileMetadata::dir_at(p("/d"), 9);
    let row = metadata_to_row(&d);
    assert_eq!(row.is_dir, 1);
    assert_eq!(row_to_metadata(row), d);
}

#[test]
fn rows_with_bad_paths_are_the_root() {
    let row = FileRow {
        id: 1,
        path: String::new(),
        size_bytes: 5,
        sha256: "h".to_string(),
        tier_bitmask: 0x104,
        created_at: 1,
        modified_at: 2,
        accessed_at: 3,
        access_count_30d: 0x1_0000_0002,
        mime_type: None,
        is_dir: 2,
    };
    let m = row_to_metadata(row);
    assert_eq!(m.path, p("/"));
    assert_eq!(m.kind, EntryKind::Directory);
    assert_eq!(m.tier_bitmask.as_u8(), 4);
    assert_eq!(m.access_count_30d, 2);
    assert_eq!(m.mime_type, None);
}

#[test]
fn patterns_are_escaped() {
    assert_eq!(escape_like("a_b%c\\d"), "a\\_b\\%c\\\\d");
    assert_eq!(escape_like(""), "");
    assert_eq!(list_patterns(&p("/")), ("/%".to_string(), "/%/%".to_string()));
    assert_eq!(list_patterns(&p("/a_b")), ("/a\\_b/%".to_string(), "/a\\_b/%/%".to_string()));
}

#[test]
fn children_are_exact() {
    let rows: Vec<FileMetadata> = ["/", "/A/x", "/a", "/a/x", "/a/x/y", "/a/z"]
        .iter()
        .map(|s| FileMetadata::dir_at(p(s), 0))
        .collect();
    let names = |v: Vec<FileMetadata>| v.iter().map(|m| m.path.text()).collect::<Vec<String>>();
    assert_eq!(names(direct_children(&p("/a"), rows.clone())), vec!["/a/x", "/a/z"]);
    assert_eq!(names(direct_children(&p("/"), rows)), vec!["/a"]);
}

#[test]
fn unknown_log_rows_are_passed_over() {
    let row = |id: i64, op: &str| WalRow {
        id,
        file_id: 7,
        op: op.to_string(),
        enqueued_at: 3,
        attempts: 2,
        last_error: Some("e".to_string()),
    };
    let got = rows_to_wal(&vec![row(1, "upload_s3"), row(2, "nonsense"), row(3, "replicate_nas")]);
    let want = |id: i64, op: WalOp| WalEntry {
        id,
        file_id: 7,
        op,
        enqueued_at: 3,
        attempts: 2,
        last_error: Some("e".to_string()),
    };
    assert_eq!(got, vec![want(1, WalOp::UploadS3), want(3, WalOp::ReplicateNas)]);
}

#[test]
fn ranking_is_stable() {
    assert_eq!(sorted_positions(&vec![3, 1, 2, 1, 0]), vec![4, 1, 3, 2, 0]);
    assert_eq!(sorted_positions(&Vec::new()), Vec::<usize>::new());
    let f = |s: &str| FileMetadata::dir_at(p(s), 0);
    let ranked = rank_for_eviction(&vec![(f("/a"), 5), (f("/b"), 1), (f("/c"), 5), (f("/d"), 0)]);
    let names: Vec<String> = ranked.iter().map(|m| m.path.text()).collect();
    assert_eq!(names, vec!["/d", "/b", "/a", "/c"]);
}

#[test]
fn seconds_since_access_are_at_least_one() {
    assert_eq!(seconds_since_access(100, 40), 60);
    assert_eq!(seconds_since_access(100, 100), 1);
    assert_eq!(seconds_since_access(100, 200), 1);
}

#[test]
fn watermarks_in_gigabytes() {
    let wm = TierWatermarks::from_gb(200, 150);
    assert_eq!(wm.high_bytes, 200 * 1024 * 1024 * 1024);
    assert_eq!(wm.low_bytes, 150 * 1024 * 1024 * 1024);
    assert_eq!(TierWatermarks::from_gb(1 << 34, 1).high_bytes, 0);
}

#[test]
fn seeds() {
    let d = payload_4k(7);
    assert_eq!(d.len(), 4096);
    assert!(d.iter().all(|b| *b == 7));
    assert_eq!(payload_64m(1).len(), 64 * 1024 * 1024);
    assert_eq!(seeded_mask(TierBitmask(1), &vec![Tier::Nas, Tier::S3]).as_u8(), 7);
    assert_eq!(seeded_mask(TierBitmask(1), &Vec::new()).as_u8(), 1);
    let m = nas_only_file(&p("/n"), b"abc", 9);
    assert_eq!(m.tier_bitmask.as_u8(), 2);
    assert_eq!(m.size_bytes, 3);
    assert_eq!(m.sha256, hash_bytes(b"abc"));
}
