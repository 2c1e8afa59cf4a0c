use fvfs::FvfsError;
use fvfs::VfsPath;

fn p(s: &str) -> VfsPath {
    VfsPath::new(s).unwrap()
}

#[test]
fn paths_are_normalized() {
    for (raw, want) in [
        ("/", "/"),
        ("a", "/a"),
        ("/a/b", "/a/b"),
        ("//a///b/", "/a/b"),
        ("/a/./b", "/a/b"),
        ("/a/../b", "/b"),
        ("/../..", "/"),
        ("a/b/../../..", "/"),
        (".", "/"),
        ("/a/.../b", "/a/.../b"),
        ("/\u{e9}t\u{e9}/x", "/\u{e9}t\u{e9}/x"),
    ] {
        assert_eq!(p(raw).as_str(), want);
        assert_eq!(p(p(raw).as_str()), p(raw));
    }
}

#[test]
fn empty_texts_and_nulls_are_refused() {
    assert_eq!(
        VfsPath::new(""),
        Err(FvfsError::InvalidPath("path cannot be empty".to_string()))
    );
    let null = Err(FvfsError::InvalidPath("path cannot contain null bytes".to_string()));
    assert_eq!(VfsPath::new("/a\0b"), null);
    assert_eq!(VfsPath::new("/a\0b/.."), null);
}

#[test]
fn parents_and_names() {
    assert_eq!(p("/").parent(), None);
    assert_eq!(p("/a").parent(), Some(p("/")));
    assert_eq!(p("/a/b/c").parent(), Some(p("/a/b")));
    assert_eq!(p("/").file_name(), "/");
    assert_eq!(p("/a").file_name(), "a");
    assert_eq!(p("/a/b.txt").file_name(), "b.txt");
    assert!(p("/").is_root());
    assert!(!p("/a").is_root());
}

#[test]
fn prefixes_end_at_segments() {
    assert!(p("/").is_prefix_of(&p("/a")));
    assert!(p("/a").is_prefix_of(&p("/a")));
    assert!(p("/a").is_prefix_of(&p("/a/b")));
    assert!(!p("/a").is_prefix_of(&p("/ab")));
    assert!(!p("/a/b").is_prefix_of(&p("/a")));
}

#[test]
fn joining_resolves() {
    assert_eq!(p("/a").join("b"), Ok(p("/a/b")));
    assert_eq!(p("/").join("b"), Ok(p("/b")));
    assert_eq!(p("/a").join("../c/./d"), Ok(p("/c/d")));
    assert_eq!(p("/a").join(""), Ok(p("/a")));
    assert!(p("/a").join("x\0").is_err());
    let q = p("/x/y/z");
    assert_eq!(q.parent().unwrap().join(q.file_name()), Ok(q.clone()));
}

#[test]
fn paths_are_texts() {
    assert_eq!(String::from(p("/a/b")), "/a/b".to_string());
    assert_eq!(p("/a").text(), "/a".to_string());
    assert_eq!(VfsPath::unknown(), p("/unknown"));
    assert_eq!(VfsPath::root(), p("/"));
    assert!(p("/a") < p("/b"));
}
