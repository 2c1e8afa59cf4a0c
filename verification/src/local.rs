//! Files on a disk: where a path lies below the directory of a tier, and what a file
//! found there is in the virtual filesystem.

use crate::error::ErrorView;
use crate::error::FvfsError;
use crate::path::components;
use crate::path::normal_form;
use crate::path::slashed;
use crate::path::valid_path;
use crate::path::VfsPath;
use crate::text::chars_of;
use crate::text::concat2;
use crate::text::concat3;
use crate::text::replace_char;
use crate::text::replace_char_in;
use crate::text::trim_start;
use crate::text::trim_start_of;
use crate::tier::Tier;
use crate::tier::TierBitmask;
use crate::types::EntryKind;
use crate::types::EntryView;
use crate::types::FileEntry;
use vstd::prelude::*;

verus! {

/// The text of a disk path below another: an absolute one stands for itself, and one
/// slash is put between the two unless the first is empty or ends in one.
pub open spec fn joined(a: Seq<char>, b: Seq<char>) -> Seq<char> {
    if b.len() > 0 && b[0] == '/' {
        b
    } else if a.len() > 0 && a.last() != '/' {
        a + seq!['/'] + b
    } else {
        a + b
    }
}

/// The text of a disk path below another.
pub fn join_text(a: &str, b: &str) -> (r: String)
    ensures
        r@ == joined(a@, b@),
{
    let v = chars_of(a);
    let w = chars_of(b);
    if w.len() > 0 && w[0] == '/' {
        b.to_owned()
    } else if v.len() > 0 && v[v.len() - 1] != '/' {
        proof {
            reveal_strlit("/");
            assert("/"@ =~= seq!['/']);
        }
        concat3(a, "/", b)
    } else {
        concat2(a, b)
    }
}

/// Where a path lies below the directory of a tier.
pub open spec fn disk_path(root: Seq<char>, path: Seq<char>) -> Seq<char> {
    joined(root, trim_start(path, '/'))
}

/// A tier on a disk: the local disk, or a mounted NAS.
#[derive(Debug, PartialEq, Eq)]
pub struct LocalDiskBackend {
    root: String,
    tier: Tier,
}

/// The mathematical value of a [`LocalDiskBackend`].
pub struct DiskView {
    pub root: Seq<char>,
    pub tier: Tier,
}

impl View for LocalDiskBackend {
    type V = DiskView;

    closed spec fn view(&self) -> DiskView {
        DiskView { root: self.root@, tier: self.tier }
    }
}

impl Clone for LocalDiskBackend {
    fn clone(&self) -> (r: Self)
        ensures
            r == *self,
    {
        LocalDiskBackend { root: self.root.clone(), tier: self.tier }
    }
}

/// The entry of what was found at a path: its kind and size, and when it was modified,
/// or the epoch where that is not known.
pub open spec fn found_entry(path: Seq<char>, is_dir: bool, size_bytes: u64, modified: Option<u64>, tiers: TierBitmask) -> EntryView {
    EntryView {
        path,
        kind: if is_dir {
            EntryKind::Directory
        } else {
            EntryKind::File
        },
        size_bytes,
        modified_at: match modified {
            Some(s) => s as i64,
            None => 0,
        },
        tiers,
    }
}

fn make_entry(path: VfsPath, is_dir: bool, size_bytes: u64, modified: Option<u64>, tier_bitmask: TierBitmask) -> (r: FileEntry)
    ensures
        r@ == found_entry(path@, is_dir, size_bytes, modified, tier_bitmask),
{
    FileEntry {
        path,
        kind: if is_dir {
            EntryKind::Directory
        } else {
            EntryKind::File
        },
        size_bytes,
        modified_at: crate::types::unix_seconds(modified),
        tier_bitmask,
    }
}

impl LocalDiskBackend {
    /// The tier whose files lie below a directory.
    pub fn new(root: String, tier: Tier) -> (r: LocalDiskBackend)
        ensures
            r@ == (DiskView { root: root@, tier }),
    {
        LocalDiskBackend { root, tier }
    }

    /// Where a path lies on the disk.
    pub fn fs_path(&self, vfs_path: &VfsPath) -> (r: String)
        ensures
            r@ == disk_path(self@.root, vfs_path@),
    {
        let rel = trim_start_of(vfs_path.as_str(), '/');
        join_text(self.root.as_str(), rel.as_str())
    }

    /// The directory of the tier.
    pub fn root(&self) -> (r: &str)
        ensures
            r@ == self@.root,
    {
        self.root.as_str()
    }

    /// Which tier it is.
    pub fn tier(&self) -> (r: Tier)
        ensures
            r == self@.tier,
    {
        self.tier
    }

    /// The entry of a path, from what the disk says of it: it is on this tier.
    pub fn metadata(&self, path: &VfsPath, is_dir: bool, size_bytes: u64, modified: Option<u64>) -> (r: FileEntry)
        ensures
            r@ == found_entry(
                path@,
                is_dir,
                size_bytes,
                modified,
                TierBitmask(0).with(self@.tier),
            ),
            r.path@ == path@,
            r.kind == EntryKind::Directory <==> is_dir,
            r.size_bytes == size_bytes,
            r.modified_at == (match modified {
                Some(s) => s as i64,
                None => 0,
            }),
            forall|t: Tier| #[trigger] r.tier_bitmask.holds(t) <==> t == self@.tier,
    {
        let mut tier_bitmask = TierBitmask::default();
        tier_bitmask.set(self.tier);
        proof {
            assert forall|t: Tier| #[trigger] tier_bitmask.holds(t) <==> t == self@.tier by {
                crate::tier::law_none_and_all(t);
            }
        }
        make_entry(path.clone(), is_dir, size_bytes, modified, tier_bitmask)
    }
}

/// The NAS, mounted at a directory.
pub fn new_nas_backend(root: String) -> (r: LocalDiskBackend)
    ensures
        r@ == (DiskView { root: root@, tier: Tier::Nas }),
{
    LocalDiskBackend::new(root, Tier::Nas)
}

/// The error for a disk operation on a path that failed with the message.
pub fn disk_error(not_found: bool, message: &str, path: &VfsPath) -> (r: FvfsError)
    ensures
        r@ == (if not_found {
            ErrorView::NotFound(path@)
        } else {
            ErrorView::Io(message@)
        }),
{
    if not_found {
        FvfsError::NotFound { path: path.text() }
    } else {
        FvfsError::Io(message.to_owned())
    }
}

/// The path of what was found at `rel` below the directory of a tier.
pub open spec fn found_path(rel: Seq<char>) -> Seq<char> {
    let text = crate::migrate::vfs_text(rel);
    if crate::path::nameable(text) {
        normal_form(text)
    } else {
        "/unknown"@
    }
}

/// The entry of what was found at `rel` below the directory of a tier. Its mask names no
/// tier.
pub fn listed_entry(rel: &str, is_dir: bool, size_bytes: u64, modified: Option<u64>) -> (r: FileEntry)
    ensures
        r@ == found_entry(found_path(rel@), is_dir, size_bytes, modified, TierBitmask(0)),
        r.kind == EntryKind::Directory <==> is_dir,
        r.size_bytes == size_bytes,
        r.modified_at == (match modified {
            Some(s) => s as i64,
            None => 0,
        }),
        r.tier_bitmask == TierBitmask(0),
{
    let slashed = replace_char_in(rel, '\\', '/');
    let text = concat2("/", slashed.as_str());
    let path = match VfsPath::new(text.as_str()) {
        Ok(p) => p,
        Err(_) => VfsPath::unknown(),
    };
    make_entry(path, is_dir, size_bytes, modified, TierBitmask::default())
}

// ---------------------------------------------------------------------------
// Laws of disk paths

/// Where one comes from a directory by going down the segments, one after the other.
pub open spec fn descend(root: Seq<char>, cs: Seq<Seq<char>>) -> Seq<char>
    decreases cs.len(),
{
    if cs.len() == 0 {
        root
    } else {
        joined(descend(root, cs.drop_last()), cs.last())
    }
}

proof fn lemma_descend(root: Seq<char>, cs: Seq<Seq<char>>)
    requires
        crate::path::valid_components(cs),
        cs.len() > 0,
    ensures
        slashed(cs).len() > 0,
        descend(root, cs) == (if root.len() > 0 && root.last() != '/' {
            root + seq!['/']
        } else {
            root
        }) + slashed(cs).skip(1),
        descend(root, cs).len() > 0,
        descend(root, cs).last() != '/',
    decreases cs.len(),
{
    let front = cs.drop_last();
    let last = cs[cs.len() - 1];
    assert(crate::path::valid_component(last));
    assert(last.contains(last[0]) && last.contains(last[last.len() - 1]));
    assert forall|i: int| 0 <= i < front.len() implies crate::path::valid_component(
        #[trigger] front[i],
    ) by {
        assert(front[i] == cs[i]);
    }
    if front.len() == 0 {
        reveal_with_fuel(slashed, 2);
        reveal_with_fuel(descend, 2);
        assert(slashed(cs) =~= seq!['/'] + last);
        assert(slashed(cs).skip(1) =~= last);
    } else {
        lemma_descend(root, front);
        assert(slashed(cs) == slashed(front) + seq!['/'] + last);
        assert(slashed(cs).skip(1) =~= slashed(front).skip(1) + seq!['/'] + last);
    }
    assert(descend(root, cs) =~= (if root.len() > 0 && root.last() != '/' {
        root + seq!['/']
    } else {
        root
    }) + slashed(cs).skip(1));
    assert(slashed(cs).skip(1).last() == last.last());
}

/// A path lies where one comes from the directory of the tier by going down its segments;
/// the root lies at the directory itself.
pub proof fn law_disk_place(root: Seq<char>, p: Seq<char>)
    requires
        valid_path(p),
    ensures
        p != seq!['/'] ==> disk_path(root, p) == descend(root, components(p)),
        p == seq!['/'] ==> disk_path(root, p) == joined(root, Seq::empty()),
{
    lemma_disk_path(root, p);
    crate::path::lemma_valid_path(p);
    if p == seq!['/'] {
        assert(trim_start(p, '/') =~= Seq::empty());
    } else {
        lemma_descend(root, components(p));
        assert(slashed(components(p)).skip(1) =~= trim_start(p, '/'));
    }
}

/// Different paths lie at different places.
pub proof fn law_disk_paths_differ(root: Seq<char>, p: Seq<char>, q: Seq<char>)
    requires
        valid_path(p),
        valid_path(q),
        disk_path(root, p) == disk_path(root, q),
    ensures
        p == q,
{
    lemma_disk_path(root, p);
    lemma_disk_path(root, q);
    let base = if root.len() > 0 && root.last() != '/' {
        root + seq!['/']
    } else {
        root
    };
    let n = base.len() as int;
    let a = trim_start(p, '/');
    let b = trim_start(q, '/');
    let d = disk_path(root, p);
    assert(a =~= d.subrange(n, d.len() as int));
    assert(b =~= d.subrange(n, d.len() as int));
}

proof fn lemma_disk_path(root: Seq<char>, p: Seq<char>)
    requires
        valid_path(p),
    ensures
        disk_path(root, p) == (if root.len() > 0 && root.last() != '/' {
            root + seq!['/']
        } else {
            root
        }) + trim_start(p, '/'),
        p == seq!['/'] + trim_start(p, '/'),
{
    crate::path::lemma_valid_path(p);
    reveal_with_fuel(trim_start, 2);
    let rel = trim_start(p, '/');
    if p == seq!['/'] {
        assert(p.subrange(1, 1) =~= Seq::empty());
        assert(p =~= seq!['/'] + rel);
    } else {
        crate::path::lemma_path_edges(p);
        assert(rel[0] == p[1]);
        assert(p =~= seq!['/'] + rel);
    }
}

/// What is found where a path lies is shown under that path, if it has no backslash.
pub proof fn law_found_is_shown(p: Seq<char>)
    requires
        valid_path(p),
        !p.contains('\\'),
    ensures
        found_path(trim_start(p, '/')) == p,
{
    lemma_disk_path(Seq::empty(), p);
    crate::path::law_normal_form_is_fixed(p);
    let rel = trim_start(p, '/');
    reveal_strlit("/");
    assert("/"@ =~= seq!['/']);
    assert forall|i: int| 0 <= i < rel.len() implies rel[i] != '\\' by {
        assert(p[i + 1] == rel[i]);
    }
    assert(replace_char(rel, '\\', '/') =~= rel);
}

/// A path lies below the directory of a tier as it is spelled: the directory, and the path
/// behind it.
pub proof fn law_disk_path_spells_the_path(root: Seq<char>, p: Seq<char>)
    requires
        valid_path(p),
        root.len() > 0,
        root.last() != '/',
    ensures
        disk_path(root, p) == root + p,
{
    lemma_disk_path(root, p);
    assert(disk_path(root, p) =~= root + p);
}

} // verus!
