use fvfs::action::Action;
use fvfs::action::Event;
use fvfs::config::unparsable;
use fvfs::config::unreadable;
use fvfs::config::ClientConfig;
use fvfs::config::DaemonConfig;
use fvfs::config::TiersConfig;
use fvfs::config::UploadConfig;
use fvfs::fuse::base_content;
use fvfs::fuse::child_path;
use fvfs::fuse::create_reply;
use fvfs::fuse::read_reply;
use fvfs::fuse::read_slice;
use fvfs::fuse::splice;
use fvfs::fuse::write_reply;
use fvfs::fuse::ClientAction;
use fvfs::fuse::ClientEvent;
use fvfs::fuse::ClientRead;
use fvfs::fuse::ClientStep;
use fvfs::fuse::Errno;
use fvfs::fuse::InodeTable;
use fvfs::fuse::VfscFuse;
use fvfs::http_api::api_error;
use fvfs::http_api::parse_path;
use fvfs::http_api::StatusReport;
use fvfs::http_api::StatusStep;
use fvfs::http_client::check_delete;
use fvfs::http_client::check_status;
use fvfs::http_client::map_http_error;
use fvfs::http_client::transport_error;
use fvfs::http_client::VfsdClient;
use fvfs::local::disk_error;
use fvfs::local::join_text;
use fvfs::local::listed_entry;
use fvfs::local::new_nas_backend;
use fvfs::local::LocalDiskBackend;
use fvfs::local_cache::total_bytes;
use fvfs::local_cache::EvictStep;
use fvfs::local_cache::LocalCache;
use fvfs::mdns::choose_url;
use fvfs::mdns::discover_step;
use fvfs::mdns::host_or_default;
use fvfs::mdns::instance_name;
use fvfs::mdns::local_host_name;
use fvfs::mdns::service_type;
use fvfs::mdns::Discovery;
use fvfs::mdns::Heard;
use fvfs::migrate::MigrateReport;
use fvfs::report::ls_line;
use fvfs::report::migration_lines;
use fvfs::report::status_lines;
use fvfs::s3::exists_reply;
use fvfs::s3::object_error;
use fvfs::s3::object_metadata;
use fvfs::s3::ListStep;
use fvfs::s3::S3Backend;
use fvfs::s3::S3Object;
use fvfs::s3::S3Page;
use fvfs::text::decimal_of;
use fvfs::text::replace_char_in;
use fvfs::text::signed_decimal_of;
use fvfs::text::strip_text_prefix;
use fvfs::text::text_contains;
use fvfs::text::trim_end_of;
use fvfs::text::trim_start_of;
use fvfs::DaemonStatus;
use fvfs::EntryKind;
use fvfs::FileEntry;
use fvfs::FileMetadata;
use fvfs::FvfsError;
use fvfs::Tier;
use fvfs::TierBitmask;
use fvfs::TierStats;
use fvfs::VfsPath;

fn p(s: &str) -> VfsPath {
    VfsPath::new(s).unwrap()
}

fn s(t: &str) -> String {
    t.to_string()
}

// --- text

#[test]
fn texts_are_trimmed_and_searched() {
    assert_eq!(trim_start_of("//a/", '/'), "a/");
    assert_eq!(trim_end_of("/a//", '/'), "/a");
    assert_eq!(trim_end_of("//", '/'), "");
    assert_eq!(strip_text_prefix("fvfs/x", "fvfs"), Some(s("/x")));
    assert_eq!(strip_text_prefix("x", "fvfs"), None);
    assert!(text_contains("an error 404 came", "404"));
    assert!(!text_contains("40", "404"));
    assert!(text_contains("", ""));
    assert_eq!(replace_char_in("a\\b\\c", '\\', '/'), "a/b/c");
    assert_eq!(decimal_of(0), "0");
    assert_eq!(decimal_of(u64::MAX), "18446744073709551615");
    assert_eq!(signed_decimal_of(i64::MIN), "-9223372036854775808");
    assert_eq!(signed_decimal_of(70), "70");
}

// --- disks

#[test]
fn disk_paths() {
    let local = LocalDiskBackend::new(s("/data"), Tier::Local);
    assert_eq!(local.fs_path(&p("/a/b")), "/data/a/b");
    assert_eq!(local.fs_path(&p("/")), "/data/");
    assert_eq!(local.root(), "/data");
    assert_eq!(local.tier(), Tier::Local);
    let nas = new_nas_backend(s("/Volumes/NAS/"));
    assert_eq!(nas.tier(), Tier::Nas);
    assert_eq!(nas.fs_path(&p("/a")), "/Volumes/NAS/a");
    assert_eq!(nas.clone(), nas);
    assert_eq!(join_text("", "a"), "a");
    assert_eq!(join_text("x", "/a"), "/a");
}

#[test]
fn disk_entries() {
    let local = LocalDiskBackend::new(s("/data"), Tier::Nas);
    let e = local.metadata(&p("/a"), false, 7, Some(99));
    assert_eq!(e.tier_bitmask, TierBitmask(2));
    assert_eq!((e.kind, e.size_bytes, e.modified_at), (EntryKind::File, 7, 99));
    let e = listed_entry("x\\y", true, 0, None);
    assert_eq!(e.path, p("/x/y"));
    assert_eq!((e.kind, e.modified_at, e.tier_bitmask.as_u8()), (EntryKind::Directory, 0, 0));
    assert_eq!(listed_entry("x\0", false, 0, None).path, p("/unknown"));
    assert_eq!(disk_error(true, "gone", &p("/a")), FvfsError::NotFound { path: s("/a") });
    assert_eq!(disk_error(false, "denied", &p("/a")), FvfsError::Io(s("denied")));
}

// --- the object store

#[test]
fn keys_and_back() {
    for prefix in ["", "fvfs/", "fvfs", "a/b//", "/"] {
        let b = S3Backend::new(s("bucket"), s(prefix));
        for path in ["/", "/x", "/x/y.txt", "/fvfs/x"] {
            assert_eq!(b.key_path(b.s3_key(&p(path)).as_str()), p(path));
        }
    }
    let b = S3Backend::new(s("bucket"), s("fvfs/"));
    for d in ["/", "/x", "/x/y", "/xy"] {
        for q in ["/x", "/x/y", "/x/y/z", "/xy", "/xy/z", "/fvfs/x"] {
            let listed = b.s3_key(&p(q)).starts_with(b.list_prefix(&p(d)).as_str());
            assert_eq!(listed, d != q && p(d).is_prefix_of(&p(q)));
        }
    }
    assert_eq!(b.s3_key(&p("/a/b")), "fvfs/a/b");
    assert_eq!(b.s3_key(&p("/")), "fvfs");
    assert_eq!(b.list_prefix(&p("/")), "fvfs/");
    assert_eq!(b.list_prefix(&p("/a")), "fvfs/a/");
    assert_eq!(b.key_path("elsewhere/z"), p("/elsewhere/z"));
    assert_eq!(b.key_path("fvfs/\0"), p("/unknown"));
    let bare = S3Backend::new(s("bucket"), s(""));
    assert_eq!(bare.s3_key(&p("/a/b")), "a/b");
    assert_eq!(bare.list_prefix(&p("/")), "");
    assert_eq!(bare.list_prefix(&p("/a")), "a/");
}

#[test]
fn missing_objects_are_told_apart() {
    let not_found = FvfsError::NotFound { path: s("/a") };
    assert_eq!(object_error("get_object", "code NoSuchKey", &p("/a")), not_found);
    assert_eq!(object_error("get_object", "status 404", &p("/a")), not_found);
    assert_eq!(
        object_error("get_object", "timeout", &p("/a")),
        FvfsError::S3(s("get_object: timeout"))
    );
    assert_eq!(exists_reply(Ok(())), Ok(true));
    assert_eq!(exists_reply(Err(s("404"))), Ok(false));
    assert_eq!(exists_reply(Err(s("denied"))), Err(FvfsError::S3(s("head_object: denied"))));
}

#[test]
fn listings_come_in_pages() {
    let b = S3Backend::new(s("bucket"), s("fvfs/"));
    let (listing, request) = b.list(&p("/d"));
    assert_eq!(request.prefix, "fvfs/d/");
    assert_eq!(request.token, None);
    let page = S3Page {
        objects: vec![
            S3Object { key: Some(s("fvfs/d/a")), size: Some(5), modified: Some(77) },
            S3Object { key: None, size: Some(1), modified: None },
        ],
        truncated: Some(true),
        next: Some(s("token")),
    };
    let (listing, request) = match b.list_page(listing, Ok(page)) {
        ListStep::Next(l, r) => (l, r),
        _ => panic!("more was expected"),
    };
    assert_eq!(request.token, Some(s("token")));
    assert_eq!(request.prefix, "fvfs/d/");
    let last = S3Page {
        objects: vec![S3Object { key: Some(s("fvfs/d/b")), size: None, modified: None }],
        truncated: None,
        next: None,
    };
    let entries = match b.list_page(listing, Ok(last)) {
        ListStep::Done(Ok(es)) => es,
        _ => panic!("an end was expected"),
    };
    assert_eq!(entries.len(), 2);
    assert_eq!(entries[0], object_metadata(p("/d/a"), Some(5), Some(77)));
    assert_eq!(entries[1], object_metadata(p("/d/b"), None, None));
    assert_eq!(entries[1].size_bytes, 0);
    assert_eq!(entries[0].tier_bitmask, TierBitmask(4));
    let (listing, _) = b.list(&p("/d"));
    assert_eq!(
        b.list_page(listing, Err(s("slow"))),
        ListStep::Done(Err(FvfsError::S3(s("list_objects_v2: slow"))))
    );
}

// --- HTTP

#[test]
fn requests_name_paths() {
    assert_eq!(parse_path("a/b"), Ok(p("/a/b")));
    assert_eq!(parse_path("///a"), Ok(p("/a")));
    assert_eq!(parse_path(""), Ok(p("/")));
    assert_eq!(
        parse_path("\0"),
        Err(FvfsError::InvalidPath(s("path cannot contain null bytes")))
    );
}

#[test]
fn errors_have_statuses() {
    for (e, status, message) in [
        (FvfsError::NotFound { path: s("/x") }, 404, "not found: /x"),
        (FvfsError::AlreadyExists { path: s("/x") }, 409, "already exists: /x"),
        (FvfsError::IsADirectory { path: s("/x") }, 400, "is a directory: /x"),
        (FvfsError::NotADirectory { path: s("/x") }, 400, "not a directory: /x"),
        (FvfsError::PermissionDenied(s("no")), 403, "no"),
        (FvfsError::S3(s("down")), 500, "S3 error: down"),
        (FvfsError::InvalidPath(s("bad")), 500, "invalid path: bad"),
    ] {
        assert_eq!(api_error(&e), (status, s(message)));
    }
}

#[test]
fn statuses_become_errors() {
    assert_eq!(map_http_error(404, &p("/x")), FvfsError::NotFound { path: s("/x") });
    assert_eq!(map_http_error(409, &p("/x")), FvfsError::AlreadyExists { path: s("/x") });
    assert_eq!(map_http_error(403, &p("/x")), FvfsError::PermissionDenied(s("/x")));
    assert_eq!(map_http_error(400, &p("/x")), FvfsError::InvalidPath(s("/x")));
    assert_eq!(
        map_http_error(500, &p("/x")),
        FvfsError::Other(s("HTTP 500 Internal Server Error"))
    );
    assert_eq!(
        map_http_error(599, &p("/x")),
        FvfsError::Other(s("HTTP 599 <unknown status code>"))
    );
    assert_eq!(check_status(204, &p("/x")), Ok(()));
    assert_eq!(check_status(404, &p("/x")), Err(FvfsError::NotFound { path: s("/x") }));
    assert_eq!(check_delete(404, &p("/x")), Ok(()));
    assert_eq!(check_delete(204, &p("/x")), Ok(()));
    assert_eq!(check_delete(403, &p("/x")), Err(FvfsError::PermissionDenied(s("/x"))));
    assert_eq!(transport_error("HTTP put", "refused"), FvfsError::Other(s("HTTP put: refused")));
}

#[test]
fn addresses() {
    let c = VfsdClient::new("http://192.168.1.10:7734").unwrap();
    assert_eq!(c.files_url(&p("/a b/c")), "http://192.168.1.10:7734/v1/files/a%20b/c");
    assert_eq!(c.meta_url(&p("/x")), "http://192.168.1.10:7734/v1/meta/x");
    assert_eq!(c.ls_url(&p("/")), "http://192.168.1.10:7734/v1/ls/");
    assert_eq!(c.status_url(), "http://192.168.1.10:7734/v1/status");
    assert_eq!(c.wal_url(), "http://192.168.1.10:7734/v1/admin/wal");
    assert_eq!(VfsdClient::new("nonsense"), Err(s("relative URL without a base")));
    let opaque = VfsdClient::new("mailto:a@b").unwrap();
    assert_eq!(opaque.url("/v1/status"), "mailto:a@b");
}

#[test]
fn health_reports() {
    let (mut report, mut action) = StatusReport::start("1.2.3", 60);
    let mut asked = Vec::new();
    let mut n = 10;
    let status = loop {
        let event = match &action {
            Action::WalPending => Event::Entries(Ok(Vec::new())),
            Action::CountOnTier { tier: Tier::Nas } => {
                Event::Bytes(Err(FvfsError::Metadata(s("locked"))))
            }
            _ => Event::Bytes(Ok(n)),
        };
        asked.push(action);
        n += 1;
        assert!(report.expects(&event));
        match report.step(event) {
            StatusStep::Next(r, a) => {
                report = r;
                action = a;
            }
            StatusStep::Done(d) => break d,
        }
    };
    assert_eq!(asked.len(), 7);
    assert_eq!(asked[0], Action::BytesOnTier { tier: Tier::Local });
    let tier = |name: &str, files: u64, bytes: u64| TierStats { name: s(name), files, bytes };
    assert_eq!(
        status,
        DaemonStatus {
            version: s("1.2.3"),
            uptime_secs: 60,
            tiers: vec![tier("local", 11, 10), tier("nas", 0, 12), tier("s3", 15, 14)],
            wal_pending: 0,
        }
    );
}

// --- the cache

#[test]
fn cache_places() {
    let c = LocalCache::new(s("/tmp/cache"), 100);
    assert_eq!(c.root(), "/tmp/cache");
    assert_eq!(c.cache_path("abcdef"), "/tmp/cache/ab/cdef");
    assert_eq!(c.cache_path("a"), "/tmp/cache/a/");
    assert_eq!(c.cache_path("\u{e9}bc"), "/tmp/cache/\u{e9}/bc");
    assert_eq!(c.cache_path("ab\u{e9}"), "/tmp/cache/ab/\u{e9}");
    let (hash, at) = c.place(b"abc");
    assert_eq!(hash, "ba7816bf8f01cfea414140de5dae2223b00361a396177a9cb410ff61f20015ad");
    assert_eq!(
        at,
        "/tmp/cache/ba/7816bf8f01cfea414140de5dae2223b00361a396177a9cb410ff61f20015ad"
    );
    assert_eq!(c.clone(), c);
    assert_eq!(total_bytes(&vec![1, 2, 3]), 6);
    assert_eq!(total_bytes(&vec![u64::MAX, 2]), u64::MAX);
}

#[test]
fn cache_evicts_the_oldest() {
    let c = LocalCache::new(s("/c"), 100);
    assert_eq!(c.evict_if_needed(100, vec![(1, 100)]), EvictStep::Done);
    let files = vec![(30, 50), (10, 20), (20, 40), (40, 10)];
    let mut removed = Vec::new();
    let mut step = c.evict_if_needed(120, files);
    while let EvictStep::Next(r) = step {
        removed.push(r.index());
        step = r.step(true);
    }
    assert_eq!(removed, vec![1]);
    let small = LocalCache::new(s("/c"), 105);
    let mut removed = Vec::new();
    let mut step = small.evict_if_needed(110, vec![(1, 10), (2, 10), (3, 45), (4, 45)]);
    while let EvictStep::Next(r) = step {
        removed.push(r.index());
        step = r.step(true);
    }
    assert_eq!(removed, vec![0]);
    let full = LocalCache::new(s("/c"), 10);
    let mut removed = Vec::new();
    let mut step = full.evict_if_needed(u64::MAX, vec![(2, 7), (1, 3)]);
    while let EvictStep::Next(r) = step {
        removed.push(r.index());
        step = r.step(true);
    }
    assert_eq!(removed, vec![1, 0]);
    let mut tried = 0;
    let mut step = c.evict_if_needed(120, vec![(1, 60), (2, 60)]);
    while let EvictStep::Next(r) = step {
        tried += 1;
        step = r.step(false);
    }
    assert_eq!(tried, 2);
}

// --- the mounts

#[test]
fn slices_and_splices() {
    let data = b"hello".to_vec();
    assert_eq!(read_slice(&data, 1, 3), b"ell".to_vec());
    assert_eq!(read_slice(&data, 4, 100), b"o".to_vec());
    assert_eq!(read_slice(&data, 9, 1), Vec::<u8>::new());
    assert_eq!(read_slice(&data, -1, 1), Vec::<u8>::new());
    assert_eq!(splice(data.clone(), 1, b"EY"), b"hEYlo".to_vec());
    assert_eq!(splice(data.clone(), 4, b"!!"), b"hell!!".to_vec());
    assert_eq!(splice(Vec::new(), 2, b"x"), b"\0\0x".to_vec());
    assert_eq!(splice(data.clone(), 0, b""), data);
}

#[test]
fn replies_of_a_mount() {
    assert_eq!(read_reply(Ok(b"abc".to_vec()), 1, 1), Ok(b"b".to_vec()));
    assert_eq!(read_reply(Err(FvfsError::NotFound { path: s("/x") }), 0, 1), Err(Errno::NoEntry));
    assert_eq!(read_reply(Err(FvfsError::IsADirectory { path: s("/x") }), 0, 1), Err(Errno::IsDir));
    assert_eq!(read_reply(Err(FvfsError::Io(s("x"))), 0, 1), Err(Errno::Io));
    assert_eq!(write_reply(Ok(()), 7), Ok(7));
    assert_eq!(write_reply(Err(FvfsError::Io(s("x"))), 7), Err(Errno::Io));
    assert_eq!(base_content(Ok(b"a".to_vec())), b"a".to_vec());
    assert_eq!(base_content(Err(FvfsError::Io(s("x")))), Vec::<u8>::new());
}

#[test]
fn inode_numbers() {
    let mut t = InodeTable::new();
    assert!(t.has_room());
    assert_eq!(t.path(1), Some(&p("/")));
    assert_eq!(t.get_or_alloc(p("/a"), None), 2);
    assert_eq!(t.get_or_alloc(p("/a"), Some(9)), 2);
    assert_eq!(t.get_or_alloc(p("/b"), Some(50)), 50);
    assert_eq!(t.get_or_alloc(p("/c"), None), 3);
    assert_eq!(t.path(50), Some(&p("/b")));
    t.remove(&p("/b"));
    assert_eq!(t.path(50), None);
    t.remove(&p("/b"));
    assert_eq!(t.get_or_alloc(p("/"), None), 1);
    assert_eq!(child_path(&t, 2, Some("x")), Ok(p("/a/x")));
    assert_eq!(child_path(&t, 99, Some("x")), Err(Errno::NoEntry));
    assert_eq!(child_path(&t, 2, None), Err(Errno::Invalid));
    let made = create_reply(&mut t, p("/new"), EntryKind::File, Ok(())).unwrap();
    assert_eq!((made.ino, made.size, made.perm), (4, 0, 0o644));
    let failed = create_reply(&mut t, p("/other"), EntryKind::File, Err(FvfsError::Io(s("x"))));
    assert_eq!(failed, Err(Errno::Io));
}

#[test]
fn inode_numbers_stay_one_to_one() {
    let mut t = InodeTable::new();
    assert_eq!(t.get_or_alloc(p("/a"), Some(2)), 2);
    assert_eq!(t.get_or_alloc(p("/b"), None), 3);
    assert_eq!(t.get_or_alloc(p("/c"), Some(3)), 4);
    assert_eq!(t.get_or_alloc(p("/d"), Some(1)), 5);
    assert_eq!(t.get_or_alloc(p("/e"), Some(6)), 6);
    assert_eq!(t.get_or_alloc(p("/f"), None), 7);
    for (ino, path) in [(1, "/"), (2, "/a"), (3, "/b"), (4, "/c"), (5, "/d"), (6, "/e"), (7, "/f")] {
        assert_eq!(t.path(ino), Some(&p(path)));
        assert_eq!(t.get_or_alloc(p(path), None), ino);
    }
}

#[test]
fn the_client_mount() {
    let mut c = VfscFuse::new();
    let m = FileMetadata::dir_at(p("/d"), 3);
    let told = Ok(m.clone());
    let a = c.lookup(p("/d"), &told).unwrap();
    assert_eq!((a.ino, a.kind), (2, EntryKind::Directory));
    let gone = Err(FvfsError::NotFound { path: s("/x") });
    assert_eq!(c.lookup(p("/x"), &gone), Err(Errno::NoEntry));
    assert_eq!(c.lookup(p("/x"), &Err(FvfsError::Other(s("down")))), Err(Errno::Io));
    assert_eq!(c.getattr(2, &Some(Ok(m))).map(|a| a.ino), Ok(2));
    assert_eq!(c.getattr(1, &None).map(|a| a.ino), Ok(1));
    assert_eq!(c.getattr(2, &Some(gone)), Err(Errno::NoEntry));
    assert_eq!(c.unlink(&p("/d"), Err(FvfsError::NotFound { path: s("/d") })), Err(Errno::Io));
    assert_eq!(c.unlink(&p("/d"), Ok(())), Ok(()));
    assert_eq!(c.inodes.path(2), None);
}

#[test]
fn the_client_reads_through_its_cache() {
    let file = |sha: &str| FileMetadata::file_at(p("/f"), 3, s(sha), 0);
    let (r, a) = ClientRead::start(p("/f"));
    assert_eq!(a, ClientAction::Stat { path: p("/f") });
    let (r, a) = match r.step(ClientEvent::Stat(Ok(file("abc")))) {
        ClientStep::Next(r, a) => (r, a),
        _ => panic!("more was expected"),
    };
    assert_eq!(a, ClientAction::Cached { sha256: s("abc") });
    assert_eq!(
        r.step(ClientEvent::Cached(Some(b"hit".to_vec()))),
        ClientStep::Done { result: Ok(b"hit".to_vec()), store: false }
    );
    let (r, _) = ClientRead::start(p("/f"));
    let (r, a) = match r.step(ClientEvent::Stat(Ok(file("")))) {
        ClientStep::Next(r, a) => (r, a),
        _ => panic!("more was expected"),
    };
    assert_eq!(a, ClientAction::Fetch { path: p("/f") });
    assert_eq!(
        r.step(ClientEvent::Fetched(Ok(b"new".to_vec()))),
        ClientStep::Done { result: Ok(b"new".to_vec()), store: true }
    );
    let (r, _) = ClientRead::start(p("/f"));
    let r = match r.step(ClientEvent::Stat(Err(FvfsError::Other(s("down"))))) {
        ClientStep::Next(r, _) => r,
        _ => panic!("more was expected"),
    };
    assert_eq!(
        r.step(ClientEvent::Fetched(Err(FvfsError::Other(s("down"))))),
        ClientStep::Done { result: Err(FvfsError::Other(s("down"))), store: false }
    );
}

// --- configuration, discovery, reports

#[test]
fn configuration_defaults() {
    let d = DaemonConfig::default();
    assert_eq!((d.mount_path.as_str(), d.http_port), ("/mnt/fvfs", 7734));
    assert_eq!(d.metadata_db, "/var/fvfsd/meta.db");
    let t = TiersConfig::default_tiers();
    assert_eq!((t.local.path.as_str(), t.local.high_watermark_gb), ("/tmp/fvfs-local", 200));
    assert_eq!((t.nas.path.as_str(), t.nas.low_watermark_gb), ("/tmp/fvfs-nas", 1500));
    assert_eq!((t.s3.bucket.as_str(), t.s3.prefix.as_str()), ("freddie-fvfs", "fvfs/"));
    let u = UploadConfig::default();
    assert_eq!((u.flush_size_mb, u.flush_interval_secs), (256, 300));
    assert_eq!(u.flush_size_bytes(), 268_435_456);
    let c = ClientConfig::default();
    assert_eq!(c.local_cache_bytes(), 21_474_836_480);
    assert_eq!(c.local_cache_path, "/tmp/fvfsc-cache");
    assert_eq!(unreadable("x"), FvfsError::Config(s("reading config: x")));
    assert_eq!(unparsable("x"), FvfsError::Config(s("parsing config: x")));
}

#[test]
fn discovery() {
    assert_eq!(service_type(), "_fvfs._tcp.local.");
    assert_eq!(host_or_default(None), "fvfsd");
    assert_eq!(host_or_default(Some(s("mini"))), "mini");
    assert_eq!(instance_name("mini"), "fvfsd-mini");
    assert_eq!(local_host_name("mini"), "mini.local.");
    let heard = Heard::Resolved { addresses: vec![s("10.0.0.2"), s("10.0.0.3")], port: 7734 };
    assert_eq!(discover_step(&heard), Discovery::Found(s("http://10.0.0.2:7734")));
    let nobody = Heard::Resolved { addresses: Vec::new(), port: 1 };
    assert_eq!(discover_step(&nobody), Discovery::Listen);
    assert_eq!(discover_step(&Heard::Removed), Discovery::Listen);
    assert_eq!(discover_step(&Heard::Other), Discovery::Listen);
    assert_eq!(discover_step(&Heard::Lost), Discovery::Browse);
    assert_eq!(discover_step(&Heard::Failed), Discovery::GiveUp);
    assert_eq!(choose_url(Some(s("u")), Some(s("v")), 1), "u");
    assert_eq!(choose_url(None, Some(s("v")), 1), "v");
    assert_eq!(choose_url(None, None, 7734), "http://localhost:7734");
}

#[test]
fn reports() {
    let status = DaemonStatus {
        version: s("0.1.0"),
        uptime_secs: 5,
        tiers: vec![TierStats { name: s("local"), files: 2, bytes: 3 << 20 }],
        wal_pending: 4,
    };
    assert_eq!(
        status_lines(&status),
        vec![
            "fvfsd v0.1.0 \u{2014} uptime 5s",
            "  local : 2 files, 3 MB",
            "  WAL pending: 4"
        ]
    );
    let m = MigrateReport {
        total_files: 3,
        total_bytes: 5 << 20,
        duplicates: 1,
        s3_upload_bytes: (2 << 20) + 1,
        errors: 0,
    };
    assert_eq!(
        migration_lines(&m),
        vec![
            "Migration complete:",
            "  Total files  : 3",
            "  Total bytes  : 5 MB",
            "  Duplicates   : 1",
            "  S3 uploaded  : 2 MB",
            "  Errors       : 0"
        ]
    );
    let e = FileEntry {
        path: p("/a"),
        kind: EntryKind::File,
        size_bytes: 42,
        modified_at: 0,
        tier_bitmask: TierBitmask(1),
    };
    assert_eq!(ls_line(&e), "-           42 /a");
    let d = FileEntry { kind: EntryKind::Directory, size_bytes: 1_234_567_890_123, ..e };
    assert_eq!(ls_line(&d), "d 1234567890123 /a");
}
