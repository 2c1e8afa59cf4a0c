//! The decisions behind a FUSE mount: inode numbers, attributes, directory streams, and
//! which answer a system call gets.

use crate::error::ErrorView;
use crate::error::FvfsError;
use crate::path::below;
use crate::path::file_name_of;
use crate::path::normal_form;
use crate::path::VfsPath;
use crate::types::EntryKind;
use crate::types::EntryView;
use crate::types::FileEntry;
use crate::types::FileMetadata;
use crate::types::MetaView;
use std::collections::HashMap;
use vstd::hash_map::StringHashMap;
use vstd::prelude::*;

verus! {

broadcast use vstd::std_specs::hash::group_hash_axioms;

/// The inode of the root directory.
pub const ROOT_INO: u64 = 1;

/// The block size that is reported.
pub const BLOCK_SIZE: u32 = 4096;

// ---------------------------------------------------------------------------
// Inode numbers

/// In-memory inode table.
pub struct InodeTable {
    ino_to_path: HashMap<u64, VfsPath>,
    path_to_ino: StringHashMap<u64>,
    next_ino: u64,
}

/// The mathematical value of an [`InodeTable`].
#[verifier::ext_equal]
pub struct InodesView {
    pub paths: Map<u64, Seq<char>>,
    pub inos: Map<Seq<char>, u64>,
    pub next: u64,
}

impl View for InodeTable {
    type V = InodesView;

    closed spec fn view(&self) -> InodesView {
        InodesView {
            paths: self.ino_to_path@.map_values(|p: VfsPath| p@),
            inos: self.path_to_ino@,
            next: self.next_ino,
        }
    }
}

/// The table of a new mount: the root alone.
pub open spec fn fresh_table() -> InodesView {
    InodesView {
        paths: Map::empty().insert(1u64, seq!['/']),
        inos: Map::empty().insert(seq!['/'], 1u64),
        next: 2,
    }
}

/// The first number from `from` on that leads to no path; the greatest number where all
/// do.
pub open spec fn next_free(paths: Map<u64, Seq<char>>, from: u64) -> u64
    decreases u64::MAX - from,
{
    if from == u64::MAX || !paths.contains_key(from) {
        from
    } else {
        next_free(paths, (from + 1) as u64)
    }
}

/// There is a number left to be counted out.
pub open spec fn has_number(t: InodesView) -> bool {
    next_free(t.paths, t.next) < u64::MAX
}

/// The hint can be followed: it is not the root's number, and not in use.
pub open spec fn usable(t: InodesView, hint: Option<u64>) -> bool {
    hint matches Some(i) && i != ROOT_INO && !t.paths.contains_key(i)
}

/// The number that a path gets: the one it has, else the hint if it can be followed, else
/// the next one that is not in use.
pub open spec fn ino_for(t: InodesView, path: Seq<char>, hint: Option<u64>) -> u64 {
    if t.inos.contains_key(path) {
        t.inos[path]
    } else if usable(t, hint) {
        hint->0
    } else {
        next_free(t.paths, t.next)
    }
}

/// There is a number for the path.
pub open spec fn numberable(t: InodesView, path: Seq<char>, hint: Option<u64>) -> bool {
    t.inos.contains_key(path) || usable(t, hint) || has_number(t)
}

/// The table once the path has its number.
pub open spec fn with_path(t: InodesView, path: Seq<char>, hint: Option<u64>) -> InodesView {
    if t.inos.contains_key(path) {
        t
    } else {
        InodesView {
            paths: t.paths.insert(ino_for(t, path, hint), path),
            inos: t.inos.insert(path, ino_for(t, path, hint)),
            next: if usable(t, hint) {
                t.next
            } else {
                (next_free(t.paths, t.next) + 1) as u64
            },
        }
    }
}

/// The table once the path is forgotten.
pub open spec fn without_path(t: InodesView, path: Seq<char>) -> InodesView {
    if t.inos.contains_key(path) {
        InodesView {
            paths: t.paths.remove(t.inos[path]),
            inos: t.inos.remove(path),
            next: t.next,
        }
    } else {
        t
    }
}

impl InodeTable {
    /// The table of a new mount.
    pub fn new() -> (r: InodeTable)
        ensures
            r@ == fresh_table(),
    {
        let mut ino_to_path: HashMap<u64, VfsPath> = HashMap::new();
        let mut path_to_ino: StringHashMap<u64> = StringHashMap::new();
        let root = VfsPath::root();
        path_to_ino.insert(root.text(), ROOT_INO);
        ino_to_path.insert(ROOT_INO, root);
        let t = InodeTable { ino_to_path, path_to_ino, next_ino: 2 };
        assert(t@ =~= fresh_table());
        t
    }

    /// The next number that is not in use.
    fn free_number(&self) -> (r: u64)
        ensures
            r == next_free(self@.paths, self@.next),
    {
        let mut i: u64 = self.next_ino;
        while i < u64::MAX && self.ino_to_path.contains_key(&i)
            invariant
                next_free(self@.paths, self@.next) == next_free(self@.paths, i),
            decreases u64::MAX - i,
        {
            i += 1;
        }
        i
    }

    /// Whether there is a number left to be counted out.
    pub fn has_room(&self) -> (r: bool)
        ensures
            r == has_number(self@),
    {
        self.free_number() < u64::MAX
    }

    /// The number of the path; it gets one if it has none.
    pub fn get_or_alloc(&mut self, path: VfsPath, hint_id: Option<u64>) -> (ino: u64)
        requires
            numberable(old(self)@, path@, hint_id),
        ensures
            ino == ino_for(old(self)@, path@, hint_id),
            final(self)@ == with_path(old(self)@, path@, hint_id),
            bijective(old(self)@) ==> bijective(final(self)@),
    {
        proof {
            if bijective(self@) {
                law_alloc_keeps_bijection(self@, path@, hint_id);
            }
        }
        let ghost before = self@;
        if let Some(ino) = self.path_to_ino.get(path.as_str()) {
            return *ino;
        }
        let followed = match hint_id {
            Some(i) => i != ROOT_INO && !self.ino_to_path.contains_key(&i),
            None => false,
        };
        let ino: u64 = if followed {
            hint_id.unwrap()
        } else {
            let i: u64 = self.free_number();
            self.next_ino = i + 1;
            i
        };
        self.path_to_ino.insert(path.text(), ino);
        self.ino_to_path.insert(ino, path);
        assert(self@ =~= with_path(before, path@, hint_id));
        ino
    }

    /// The path of the number, if it is one of the table's.
    pub fn path(&self, ino: u64) -> (r: Option<&VfsPath>)
        ensures
            match r {
                Some(p) => self@.paths.contains_key(ino) && p@ == self@.paths[ino],
                None => !self@.paths.contains_key(ino),
            },
    {
        self.ino_to_path.get(&ino)
    }

    /// Forgets the path and its number.
    pub fn remove(&mut self, path: &VfsPath)
        ensures
            final(self)@ == without_path(old(self)@, path@),
            bijective(old(self)@) ==> bijective(final(self)@),
    {
        let ghost before = self@;
        let found = match self.path_to_ino.get(path.as_str()) {
            Some(ino) => Some(*ino),
            None => None,
        };
        if let Some(ino) = found {
            self.path_to_ino.remove(path.as_str());
            self.ino_to_path.remove(&ino);
        }
        assert(self@ =~= without_path(before, path@));
    }
}

// ---------------------------------------------------------------------------
// Answers

/// Why a system call fails.
#[derive(Debug, Clone, Copy, PartialEq, Eq, Structural)]
pub enum Errno {
    /// No such file or directory.
    NoEntry,
    /// Invalid argument.
    Invalid,
    /// Is a directory.
    IsDir,
    /// Input/output error.
    Io,
}

/// When a file was created, modified and accessed.
#[derive(Debug, Clone, Copy, PartialEq, Eq, Structural)]
pub enum Times {
    /// All three now.
    Now,
    /// Seconds since the epoch.
    At { created: u64, modified: u64, accessed: u64 },
}

/// The attributes of a file or directory.
#[derive(Debug, Clone, Copy, PartialEq, Eq, Structural)]
pub struct Attr {
    pub ino: u64,
    pub size: u64,
    pub blocks: u64,
    pub times: Times,
    pub kind: EntryKind,
    pub perm: u16,
    pub nlink: u32,
    pub blksize: u32,
}

/// The attributes of an entry of the kind: a directory is open to all for reading and
/// has two links, a file is readable by all and has one.
pub open spec fn attr(ino: u64, kind: EntryKind, size: u64, times: Times) -> Attr {
    Attr {
        ino,
        size,
        blocks: ((size + 4095) / 4096) as u64,
        times,
        kind,
        perm: if kind == EntryKind::Directory {
            0o755u16
        } else {
            0o644u16
        },
        nlink: if kind == EntryKind::Directory {
            2u32
        } else {
            1u32
        },
        blksize: 4096,
    }
}

/// The attributes that an entry's metadata give.
pub open spec fn attr_of(ino: u64, m: MetaView) -> Attr {
    attr(
        ino,
        m.kind,
        m.size_bytes,
        Times::At {
            created: m.created_at as u64,
            modified: m.modified_at as u64,
            accessed: m.accessed_at as u64,
        },
    )
}

/// The attributes are those of an entry: its number, size, kind and times; as many blocks
/// of 4096 bytes as its size takes up; open to all for reading, and a directory for
/// entering too.
pub open spec fn tells(a: Attr, ino: u64, kind: EntryKind, size: u64, times: Times) -> bool {
    &&& a.ino == ino
    &&& a.kind == kind
    &&& a.size == size
    &&& a.times == times
    &&& a.blocks * 4096 >= size
    &&& a.blocks * 4096 < size + 4096
    &&& a.blksize == 4096
    &&& kind == EntryKind::Directory ==> a.perm == 0o755 && a.nlink == 2
    &&& kind == EntryKind::File ==> a.perm == 0o644 && a.nlink == 1
}

/// The attributes of an entry of the kind.
pub fn make_attr(ino: u64, kind: EntryKind, size: u64, times: Times) -> (r: Attr)
    ensures
        r == attr(ino, kind, size, times),
        tells(r, ino, kind, size, times),
{
    let block: u64 = BLOCK_SIZE as u64;
    let blocks: u64 = size / block + if size % block == 0 {
        0
    } else {
        1
    };
    proof {
        assert((size + 4095) / 4096 == size as int / 4096 + if size as int % 4096 == 0 {
            0int
        } else {
            1
        });
    }
    let dir = kind == EntryKind::Directory;
    Attr {
        ino,
        size,
        blocks,
        times,
        kind,
        perm: if dir {
            0o755
        } else {
            0o644
        },
        nlink: if dir {
            2
        } else {
            1
        },
        blksize: BLOCK_SIZE,
    }
}

/// The attributes that an entry's metadata give.
pub fn meta_to_attr(ino: u64, meta: &FileMetadata) -> (r: Attr)
    ensures
        r == attr_of(ino, meta@),
        tells(
            r,
            ino,
            meta.kind,
            meta.size_bytes,
            Times::At {
                created: meta.created_at as u64,
                modified: meta.modified_at as u64,
                accessed: meta.accessed_at as u64,
            },
        ),
{
    let times = Times::At {
        created: #[verifier::truncate]
        (meta.created_at as u64),
        modified: #[verifier::truncate]
        (meta.modified_at as u64),
        accessed: #[verifier::truncate]
        (meta.accessed_at as u64),
    };
    make_attr(ino, meta.kind, meta.size_bytes, times)
}

/// The attributes of the root directory.
pub fn root_attr() -> (r: Attr)
    ensures
        r == attr(ROOT_INO, EntryKind::Directory, 0, Times::Now),
        tells(r, 1, EntryKind::Directory, 0, Times::Now),
{
    make_attr(ROOT_INO, EntryKind::Directory, 0, Times::Now)
}

/// The path of an inode number.
pub fn inode_path(table: &InodeTable, ino: u64) -> (r: Result<VfsPath, Errno>)
    ensures
        match r {
            Ok(p) => table@.paths.contains_key(ino) && p@ == table@.paths[ino],
            Err(e) => !table@.paths.contains_key(ino) && e == Errno::NoEntry,
        },
{
    match table.path(ino) {
        Some(p) => Ok(p.clone()),
        None => Err(Errno::NoEntry),
    }
}

/// The path that a name has below a directory, or why it has none. A name that is not
/// text, or that holds a null, is invalid.
pub open spec fn child_of(t: InodesView, parent: u64, name: Option<Seq<char>>) -> Result<Seq<char>, Errno> {
    if !t.paths.contains_key(parent) {
        Err(Errno::NoEntry)
    } else {
        match name {
            Some(n) => if n.contains('\0') {
                Err(Errno::Invalid)
            } else {
                Ok(normal_form(below(t.paths[parent], n)))
            },
            None => Err(Errno::Invalid),
        }
    }
}

/// The value of an optional name.
pub open spec fn opt_name(n: Option<&str>) -> Option<Seq<char>> {
    match n {
        Some(s) => Some(s@),
        None => None,
    }
}

/// The value of a path or an error number.
pub open spec fn path_result(r: Result<VfsPath, Errno>) -> Result<Seq<char>, Errno> {
    match r {
        Ok(p) => Ok(p@),
        Err(e) => Err(e),
    }
}

/// The path that a name has below a directory.
pub fn child_path(table: &InodeTable, parent: u64, name: Option<&str>) -> (r: Result<VfsPath, Errno>)
    ensures
        path_result(r) == child_of(table@, parent, opt_name(name)),
        !table@.paths.contains_key(parent) ==> (r matches Err(e) && e == Errno::NoEntry),
        table@.paths.contains_key(parent) ==> (match name {
            Some(n) => if n@.contains('\0') {
                r matches Err(e) && e == Errno::Invalid
            } else {
                r matches Ok(p) && p@ == normal_form(below(table@.paths[parent], n@))
            },
            None => r matches Err(e) && e == Errno::Invalid,
        }),
{
    let dir = match table.path(parent) {
        Some(p) => p,
        None => {
            return Err(Errno::NoEntry);
        },
    };
    match name {
        Some(n) => match dir.join(n) {
            Ok(p) => Ok(p),
            Err(_) => Err(Errno::Invalid),
        },
        None => Err(Errno::Invalid),
    }
}

/// The part of a file that a read asks for: from `offset` on, `size` bytes, as far as
/// there are any.
pub open spec fn slice_at(data: Seq<u8>, offset: i64, size: u32) -> Seq<u8> {
    let start = if 0 <= offset < data.len() {
        offset as int
    } else {
        data.len() as int
    };
    let end = if start + size < data.len() {
        start + size
    } else {
        data.len() as int
    };
    data.subrange(start, end)
}

/// The bytes are those of the content from `offset` on, `size` of them or as many as there
/// are. There are none before the start and behind the end.
pub open spec fn is_part(part: Seq<u8>, content: Seq<u8>, offset: int, size: int) -> bool {
    &&& part.len() == (if offset < 0 || offset >= content.len() {
        0
    } else if content.len() - offset < size {
        content.len() - offset
    } else {
        size
    })
    &&& forall|i: int| 0 <= i < part.len() ==> #[trigger] part[i] == content[offset + i]
}

/// The part of a file that a read asks for.
pub fn read_slice(data: &Vec<u8>, offset: i64, size: u32) -> (r: Vec<u8>)
    ensures
        r@ == slice_at(data@, offset, size),
        is_part(r@, data@, offset as int, size as int),
{
    let len: usize = data.len();
    let start: usize = if offset >= 0 && (offset as u64) < len as u64 {
        offset as usize
    } else {
        len
    };
    let left: usize = len - start;
    let end: usize = if (size as u64) < left as u64 {
        start + size as usize
    } else {
        len
    };
    let mut out: Vec<u8> = Vec::new();
    let mut i: usize = start;
    while i < end
        invariant
            start <= i <= end,
            end <= data@.len(),
            out@ == data@.subrange(start as int, i as int),
        decreases end - i,
    {
        out.push(data[i]);
        i += 1;
        assert(out@ =~= data@.subrange(start as int, i as int));
    }
    assert(out@ =~= slice_at(data@, offset, size));
    out
}

/// The content of a file once `data` are written at `offset`: what was there stays
/// around them, and a gap is filled with zeros.
pub open spec fn spliced(existing: Seq<u8>, offset: int, data: Seq<u8>) -> Seq<u8> {
    let end = offset + data.len();
    let len = if existing.len() < end {
        end
    } else {
        existing.len() as int
    };
    Seq::new(
        len as nat,
        |i: int|
            if offset <= i < end {
                data[i - offset]
            } else if i < existing.len() {
                existing[i]
            } else {
                0u8
            },
    )
}

/// From `before` to `after` the data were written at `offset`: they are there, every other
/// byte that there was is as it was, what lies between the old end and the data is zero,
/// and the file is no longer than all that.
pub open spec fn overwritten(before: Seq<u8>, after: Seq<u8>, offset: int, data: Seq<u8>) -> bool {
    &&& after.len() == (if before.len() < offset + data.len() {
        offset + data.len()
    } else {
        before.len() as int
    })
    &&& forall|i: int| 0 <= i < data.len() ==> after[offset + i] == #[trigger] data[i]
    &&& forall|i: int|
        0 <= i < before.len() && (i < offset || offset + data.len() <= i) ==> after[i] == #[trigger] before[i]
    &&& forall|i: int| before.len() <= i < offset ==> #[trigger] after[i] == 0
}

/// Writes `data` into the content of a file at `offset`.
pub fn splice(existing: Vec<u8>, offset: usize, data: &[u8]) -> (r: Vec<u8>)
    requires
        offset + data@.len() <= usize::MAX,
    ensures
        r@ == spliced(existing@, offset as int, data@),
        overwritten(existing@, r@, offset as int, data@),
{
    let mut buf = existing;
    let end: usize = offset + data.len();
    if buf.len() < end {
        buf.resize(end, 0);
    }
    let ghost whole = buf@;
    let mut i: usize = 0;
    while i < data.len()
        invariant
            i <= data@.len(),
            offset + data@.len() == end,
            end <= buf@.len(),
            buf@.len() == whole.len(),
            forall|k: int|
                0 <= k < buf@.len() ==> #[trigger] buf@[k] == if offset <= k < offset + i {
                    data@[k - offset]
                } else {
                    whole[k]
                },
        decreases data.len() - i,
    {
        buf.set(offset + i, data[i]);
        i += 1;
    }
    assert(buf@ =~= spliced(existing@, offset as int, data@));
    proof {
        law_splice_overwrites(existing@, offset as int, data@);
    }
    buf
}

/// What a write starts from: the content of the file, or nothing if it cannot be read.
pub open spec fn base_of(r: Result<Seq<u8>, ErrorView>) -> Seq<u8> {
    match r {
        Ok(d) => d,
        Err(_) => Seq::empty(),
    }
}

/// What a write starts from.
pub fn base_content(result: Result<Vec<u8>, FvfsError>) -> (r: Vec<u8>)
    ensures
        r@ == base_of(data_result(result)),
        result matches Ok(d) ==> r@ == d@,
        result is Err ==> r@.len() == 0,
{
    match result {
        Ok(d) => d,
        Err(_) => Vec::new(),
    }
}

/// The answer to a read: the part that was asked for, or why there is none.
pub open spec fn read_answer(r: Result<Seq<u8>, ErrorView>, offset: i64, size: u32) -> Result<Seq<u8>, Errno> {
    match r {
        Ok(data) => Ok(slice_at(data, offset, size)),
        Err(ErrorView::NotFound(_)) => Err(Errno::NoEntry),
        Err(ErrorView::IsADirectory(_)) => Err(Errno::IsDir),
        Err(_) => Err(Errno::Io),
    }
}

/// The value of a read's result.
pub open spec fn data_result(r: Result<Vec<u8>, FvfsError>) -> Result<Seq<u8>, ErrorView> {
    match r {
        Ok(d) => Ok(d@),
        Err(e) => Err(e@),
    }
}

/// The value of bytes or an error number.
pub open spec fn bytes_result(r: Result<Vec<u8>, Errno>) -> Result<Seq<u8>, Errno> {
    match r {
        Ok(d) => Ok(d@),
        Err(e) => Err(e),
    }
}

/// The answer to a read whose result is at hand.
pub fn read_reply(result: Result<Vec<u8>, FvfsError>, offset: i64, size: u32) -> (r: Result<Vec<u8>, Errno>)
    ensures
        bytes_result(r) == read_answer(data_result(result), offset, size),
        match result {
            Ok(data) => r matches Ok(part) && is_part(part@, data@, offset as int, size as int),
            Err(FvfsError::NotFound { .. }) => r matches Err(e) && e == Errno::NoEntry,
            Err(FvfsError::IsADirectory { .. }) => r matches Err(e) && e == Errno::IsDir,
            Err(_) => r matches Err(e) && e == Errno::Io,
        },
{
    match result {
        Ok(data) => Ok(read_slice(&data, offset, size)),
        Err(FvfsError::NotFound { .. }) => Err(Errno::NoEntry),
        Err(FvfsError::IsADirectory { .. }) => Err(Errno::IsDir),
        Err(_) => Err(Errno::Io),
    }
}

/// The answer to a write of `len` bytes.
pub fn write_reply(result: Result<(), FvfsError>, len: usize) -> (r: Result<u32, Errno>)
    ensures
        r == (match result {
            Ok(_) => Ok::<u32, Errno>(len as u32),
            Err(_) => Err(Errno::Io),
        }),
{
    match result {
        Ok(_) => Ok(
            #[verifier::truncate]
            (len as u32),
        ),
        Err(_) => Err(Errno::Io),
    }
}

/// The answer to the creation of a file or directory: the attributes of the new entry,
/// which gets a number.
pub fn create_reply(table: &mut InodeTable, path: VfsPath, kind: EntryKind, result: Result<(), FvfsError>) -> (r: Result<Attr, Errno>)
    requires
        has_number(old(table)@),
    ensures
        match result {
            Ok(_) => {
                &&& r == Ok::<Attr, Errno>(
                    attr(ino_for(old(table)@, path@, None), kind, 0, Times::Now),
                )
                &&& final(table)@ == with_path(old(table)@, path@, None)
                &&& r matches Ok(a) && tells(a, a.ino, kind, 0, Times::Now)
            },
            Err(_) => r == Err::<Attr, Errno>(Errno::Io) && final(table)@ == old(table)@,
        },
{
    match result {
        Ok(_) => {
            let ino = table.get_or_alloc(path, None);
            Ok(make_attr(ino, kind, 0, Times::Now))
        },
        Err(_) => Err(Errno::Io),
    }
}

// ---------------------------------------------------------------------------
// Directory streams

/// An item of a directory stream.
#[derive(Debug, PartialEq, Eq)]
pub struct DirItem {
    pub ino: u64,
    /// Where the stream goes on after the item.
    pub offset: i64,
    pub kind: EntryKind,
    pub name: String,
}

/// The mathematical value of a [`DirItem`].
pub struct DirItemView {
    pub ino: u64,
    pub offset: int,
    pub kind: EntryKind,
    pub name: Seq<char>,
}

impl View for DirItem {
    type V = DirItemView;

    open spec fn view(&self) -> DirItemView {
        DirItemView { ino: self.ino, offset: self.offset as int, kind: self.kind, name: self.name@ }
    }
}

/// The number that is proposed for the entry at position `i`: its id, if it is known.
pub open spec fn hint_at(ids: Seq<u64>, i: int) -> Option<u64> {
    if 0 <= i < ids.len() {
        Some(ids[i])
    } else {
        None
    }
}

/// The item at position `idx` of a directory's stream: the directory itself, then the
/// one above it, then its entries. The one above is always shown as the root.
pub open spec fn dir_item(t: InodesView, ino: u64, entries: Seq<EntryView>, ids: Seq<u64>, idx: int) -> DirItemView {
    if idx == 0 {
        DirItemView { ino, offset: 1, kind: EntryKind::Directory, name: "."@ }
    } else if idx == 1 {
        DirItemView { ino: 1, offset: 2, kind: EntryKind::Directory, name: ".."@ }
    } else {
        let e = entries[idx - 2];
        DirItemView {
            ino: ino_for(t, e.path, hint_at(ids, idx - 2)),
            offset: idx + 1,
            kind: e.kind,
            name: file_name_of(e.path),
        }
    }
}

/// The table once the item at position `idx` was shown.
pub open spec fn shown(t: InodesView, entries: Seq<EntryView>, ids: Seq<u64>, idx: int) -> InodesView {
    if idx < 2 {
        t
    } else {
        with_path(t, entries[idx - 2].path, hint_at(ids, idx - 2))
    }
}

/// A directory stream in progress.
#[derive(Debug, PartialEq, Eq)]
pub struct DirStream {
    ino: u64,
    entries: Vec<FileEntry>,
    ids: Vec<u64>,
    idx: u64,
}

/// The mathematical value of a [`DirStream`].
pub struct DirStreamView {
    pub ino: u64,
    pub entries: Seq<EntryView>,
    pub ids: Seq<u64>,
    pub idx: int,
}

impl View for DirStream {
    type V = DirStreamView;

    closed spec fn view(&self) -> DirStreamView {
        DirStreamView {
            ino: self.ino,
            entries: crate::router::listed(self.entries@),
            ids: self.ids@,
            idx: self.idx as int,
        }
    }
}

/// A directory with this many entries has offsets for all of them.
pub open spec fn streamable(n: nat) -> bool {
    n <= i64::MAX - 3
}

/// The stream of a directory from `offset` on.
pub open spec fn stream_from(ino: u64, entries: Seq<EntryView>, ids: Seq<u64>, offset: i64) -> DirStreamView {
    DirStreamView {
        ino,
        entries,
        ids,
        idx: if offset <= 0 {
            0
        } else if offset <= entries.len() + 2 {
            offset as int
        } else {
            entries.len() as int + 2
        },
    }
}

impl DirStream {
    /// The positions of the entries fit in an offset.
    #[verifier::type_invariant]
    spec fn bounded(self) -> bool {
        streamable(self.entries@.len()) && self.idx <= self.entries@.len() + 2
    }

    /// A stream of the directory from `offset` on. `ids` are those of the entries, as far
    /// as they are known.
    pub fn open(ino: u64, entries: Vec<FileEntry>, ids: Vec<u64>, offset: i64) -> (r: DirStream)
        requires
            streamable(entries@.len()),
        ensures
            r@ == stream_from(ino, crate::router::listed(entries@), ids@, offset),
    {
        let last: u64 = entries.len() as u64 + 2;
        let idx: u64 = if offset <= 0 {
            0
        } else if offset as u64 <= last {
            offset as u64
        } else {
            last
        };
        DirStream { ino, entries, ids, idx }
    }

    /// The next item of the stream, if there is one.
    pub fn next(self, table: &mut InodeTable) -> (r: Option<(DirItem, DirStream)>)
        requires
            has_number(old(table)@),
        ensures
            match r {
                Some((item, rest)) => {
                    &&& self@.idx < self@.entries.len() + 2
                    &&& item@ == dir_item(
                        old(table)@,
                        self@.ino,
                        self@.entries,
                        self@.ids,
                        self@.idx,
                    )
                    &&& final(table)@ == shown(
                        old(table)@,
                        self@.entries,
                        self@.ids,
                        self@.idx,
                    )
                    &&& rest@ == (DirStreamView { idx: self@.idx + 1, ..self@ })
                },
                None => self@.idx >= self@.entries.len() + 2 && final(table)@ == old(table)@,
            },
    {
        proof {
            use_type_invariant(&self);
        }
        let DirStream { ino, entries, ids, idx } = self;
        assert(crate::router::listed(entries@).len() == entries@.len());
        if idx == 0 {
            let item = DirItem {
                ino,
                offset: 1,
                kind: EntryKind::Directory,
                name: ".".to_owned(),
            };
            return Some((item, DirStream { ino, entries, ids, idx: 1 }));
        }
        if idx == 1 {
            let item = DirItem {
                ino: ROOT_INO,
                offset: 2,
                kind: EntryKind::Directory,
                name: "..".to_owned(),
            };
            return Some((item, DirStream { ino, entries, ids, idx: 2 }));
        }
        if idx - 2 >= entries.len() as u64 {
            return None;
        }
        let at: usize = (idx - 2) as usize;
        let name = entries[at].path.file_name().to_owned();
        let hint = if at < ids.len() {
            Some(ids[at])
        } else {
            None
        };
        let child = table.get_or_alloc(entries[at].path.clone(), hint);
        let item = DirItem { ino: child, offset: idx as i64 + 1, kind: entries[at].kind, name };
        Some((item, DirStream { ino, entries, ids, idx: idx + 1 }))
    }
}

// ---------------------------------------------------------------------------
// The client's mount

/// What the client's mount remembers.
pub struct VfscFuse {
    pub inodes: InodeTable,
}

impl VfscFuse {
    /// A new mount.
    pub fn new() -> (r: VfscFuse)
        ensures
            r.inodes@ == fresh_table(),
    {
        VfscFuse { inodes: InodeTable::new() }
    }

    /// The answer to a lookup of the path, of which the daemon has told this.
    pub fn lookup(&mut self, path: VfsPath, told: &Result<FileMetadata, FvfsError>) -> (r: Result<Attr, Errno>)
        requires
            has_number(old(self).inodes@),
        ensures
            match told {
                Ok(m) => {
                    &&& r == Ok::<Attr, Errno>(
                        attr_of(ino_for(old(self).inodes@, path@, None), m@),
                    )
                    &&& final(self).inodes@ == with_path(old(self).inodes@, path@, None)
                    &&& r matches Ok(a) && tells(
                        a,
                        a.ino,
                        m.kind,
                        m.size_bytes,
                        Times::At {
                            created: m.created_at as u64,
                            modified: m.modified_at as u64,
                            accessed: m.accessed_at as u64,
                        },
                    )
                },
                Err(e) => r == Err::<Attr, Errno>(stat_errno(e@)) && final(self).inodes@ == old(
                    self,
                ).inodes@,
            },
    {
        match told {
            Ok(m) => {
                let ino = self.inodes.get_or_alloc(path, None);
                Ok(meta_to_attr(ino, m))
            },
            Err(FvfsError::NotFound { .. }) => Err(Errno::NoEntry),
            Err(_) => Err(Errno::Io),
        }
    }

    /// The answer to a request for attributes, of which the daemon has told this. The
    /// root needs nothing told.
    pub fn getattr(&self, ino: u64, told: &Option<Result<FileMetadata, FvfsError>>) -> (r: Result<Attr, Errno>)
        requires
            ino == ROOT_INO || *told is Some,
        ensures
            ino == ROOT_INO ==> r == Ok::<Attr, Errno>(
                attr(ROOT_INO, EntryKind::Directory, 0, Times::Now),
            ),
            ino != ROOT_INO ==> (match *told {
                Some(Ok(m)) => r == Ok::<Attr, Errno>(attr_of(ino, m@)) && (r matches Ok(a) && tells(
                    a,
                    ino,
                    m.kind,
                    m.size_bytes,
                    Times::At {
                        created: m.created_at as u64,
                        modified: m.modified_at as u64,
                        accessed: m.accessed_at as u64,
                    },
                )),
                Some(Err(e)) => r == Err::<Attr, Errno>(stat_errno(e@)),
                None => false,
            }),
    {
        if ino == ROOT_INO {
            return Ok(root_attr());
        }
        match told {
            Some(Ok(m)) => Ok(meta_to_attr(ino, m)),
            Some(Err(FvfsError::NotFound { .. })) => Err(Errno::NoEntry),
            _ => Err(Errno::Io),
        }
    }

    /// The answer to the deletion of the path, whose number is forgotten.
    pub fn unlink(&mut self, path: &VfsPath, result: Result<(), FvfsError>) -> (r: Result<(), Errno>)
        ensures
            match result {
                Ok(_) => r == Ok::<(), Errno>(()) && final(self).inodes@ == without_path(
                    old(self).inodes@,
                    path@,
                ),
                Err(_) => r == Err::<(), Errno>(Errno::Io) && final(self).inodes@ == old(
                    self,
                ).inodes@,
            },
    {
        match result {
            Ok(_) => {
                self.inodes.remove(path);
                Ok(())
            },
            Err(_) => Err(Errno::Io),
        }
    }
}

/// The error number for a failed request for metadata.
pub open spec fn stat_errno(e: ErrorView) -> Errno {
    match e {
        ErrorView::NotFound(_) => Errno::NoEntry,
        _ => Errno::Io,
    }
}

/// What a read by the client asks for.
#[derive(Debug, PartialEq, Eq)]
pub enum ClientAction {
    /// The metadata of the path, from the daemon.
    Stat { path: VfsPath },
    /// The content with this hash, from the cache.
    Cached { sha256: String },
    /// The content of the path, from the daemon.
    Fetch { path: VfsPath },
}

/// What a read by the client is told.
#[derive(Debug, PartialEq, Eq)]
pub enum ClientEvent {
    /// The metadata.
    Stat(Result<FileMetadata, FvfsError>),
    /// The content in the cache, if it has it.
    Cached(Option<Vec<u8>>),
    /// The content.
    Fetched(Result<Vec<u8>, FvfsError>),
}

/// The mathematical value of a [`ClientAction`].
pub enum ClientActionView {
    Stat(Seq<char>),
    Cached(Seq<char>),
    Fetch(Seq<char>),
}

/// The mathematical value of a [`ClientEvent`].
pub enum ClientEventView {
    Stat(Result<MetaView, ErrorView>),
    Cached(Option<Seq<u8>>),
    Fetched(Result<Seq<u8>, ErrorView>),
}

impl View for ClientAction {
    type V = ClientActionView;

    open spec fn view(&self) -> ClientActionView {
        match self {
            ClientAction::Stat { path } => ClientActionView::Stat(path@),
            ClientAction::Cached { sha256 } => ClientActionView::Cached(sha256@),
            ClientAction::Fetch { path } => ClientActionView::Fetch(path@),
        }
    }
}

impl View for ClientEvent {
    type V = ClientEventView;

    open spec fn view(&self) -> ClientEventView {
        match self {
            ClientEvent::Stat(r) => ClientEventView::Stat(
                match r {
                    Ok(m) => Ok(m@),
                    Err(e) => Err(e@),
                },
            ),
            ClientEvent::Cached(d) => ClientEventView::Cached(
                match d {
                    Some(x) => Some(x@),
                    None => None,
                },
            ),
            ClientEvent::Fetched(r) => ClientEventView::Fetched(data_result(*r)),
        }
    }
}

/// Where a read by the client stands.
#[derive(Debug, Clone, Copy, PartialEq, Eq, Structural)]
pub enum ClientPhase {
    Stat,
    Cached,
    Fetch,
}

/// The outcome of one step of a read by the client: a next request, or the content, and
/// whether the cache is to store it.
pub enum ClientStepView {
    Next(ClientPhase, ClientActionView),
    Done { result: Result<Seq<u8>, ErrorView>, store: bool },
}

/// What a read by the client does with an answer. A file whose hash is known is looked
/// up in the cache, and fetched if it is not there.
pub open spec fn client_step(path: Seq<char>, phase: ClientPhase, e: ClientEventView) -> ClientStepView {
    match (phase, e) {
        (ClientPhase::Stat, ClientEventView::Stat(Ok(m))) if m.sha256.len() > 0 => {
            ClientStepView::Next(ClientPhase::Cached, ClientActionView::Cached(m.sha256))
        },
        (ClientPhase::Cached, ClientEventView::Cached(Some(data))) => ClientStepView::Done {
            result: Ok(data),
            store: false,
        },
        (ClientPhase::Fetch, ClientEventView::Fetched(r)) => ClientStepView::Done {
            result: r,
            store: r is Ok,
        },
        _ => ClientStepView::Next(ClientPhase::Fetch, ClientActionView::Fetch(path)),
    }
}

/// A read by the client in progress.
#[derive(Debug, PartialEq, Eq)]
pub struct ClientRead {
    pub path: VfsPath,
    pub phase: ClientPhase,
}

/// The outcome of one step of a read by the client.
#[derive(Debug, PartialEq, Eq)]
pub enum ClientStep {
    /// The read goes on, and waits for the answer to the action.
    Next(ClientRead, ClientAction),
    /// The read is over; `store` says whether the cache is to store the content.
    Done { result: Result<Vec<u8>, FvfsError>, store: bool },
}

impl View for ClientStep {
    type V = ClientStepView;

    open spec fn view(&self) -> ClientStepView {
        match self {
            ClientStep::Next(s, a) => ClientStepView::Next(s.phase, a@),
            ClientStep::Done { result, store } => ClientStepView::Done {
                result: data_result(*result),
                store: *store,
            },
        }
    }
}

impl ClientRead {
    /// Starts a read: the daemon is asked for the metadata first.
    pub fn start(path: VfsPath) -> (r: (ClientRead, ClientAction))
        ensures
            r.0.path == path,
            r.0.phase == ClientPhase::Stat,
            r.1@ == ClientActionView::Stat(path@),
    {
        let asked = path.clone();
        (ClientRead { path, phase: ClientPhase::Stat }, ClientAction::Stat { path: asked })
    }

    /// Takes the answer to the last action.
    pub fn step(self, event: ClientEvent) -> (r: ClientStep)
        ensures
            r@ == client_step(self.path@, self.phase, event@),
            r matches ClientStep::Next(s, _) ==> s.path == self.path,
    {
        let ClientRead { path, phase } = self;
        match (phase, event) {
            (ClientPhase::Stat, ClientEvent::Stat(Ok(m))) => {
                let known = crate::text::chars_of(m.sha256.as_str()).len() > 0;
                if known {
                    ClientStep::Next(
                        ClientRead { path, phase: ClientPhase::Cached },
                        ClientAction::Cached { sha256: m.sha256 },
                    )
                } else {
                    let asked = path.clone();
                    ClientStep::Next(
                        ClientRead { path, phase: ClientPhase::Fetch },
                        ClientAction::Fetch { path: asked },
                    )
                }
            },
            (ClientPhase::Cached, ClientEvent::Cached(Some(data))) => ClientStep::Done {
                result: Ok(data),
                store: false,
            },
            (ClientPhase::Fetch, ClientEvent::Fetched(r)) => {
                let store = match &r {
                    Ok(_) => true,
                    Err(_) => false,
                };
                ClientStep::Done { result: r, store }
            },
            (_, _) => {
                let asked = path.clone();
                ClientStep::Next(
                    ClientRead { path, phase: ClientPhase::Fetch },
                    ClientAction::Fetch { path: asked },
                )
            },
        }
    }
}

// ---------------------------------------------------------------------------
// Laws of the inode table and of file contents

/// Numbers and paths go together one to one.
pub open spec fn bijective(t: InodesView) -> bool {
    &&& forall|p: Seq<char>|
        #[trigger] t.inos.contains_key(p) ==> t.paths.contains_key(t.inos[p]) && t.paths[t.inos[p]] == p
    &&& forall|i: u64|
        #[trigger] t.paths.contains_key(i) ==> t.inos.contains_key(t.paths[i]) && t.inos[t.paths[i]] == i
}

/// Every number in use is below the next one.
pub open spec fn counted(t: InodesView) -> bool {
    forall|i: u64| #[trigger] t.paths.contains_key(i) ==> i < t.next
}

/// The path of a plain name in a directory lies directly below the directory, and its last
/// segment is the name.
pub proof fn law_child_is_one_below(t: InodesView, parent: u64, name: Seq<char>)
    requires
        t.paths.contains_key(parent),
        crate::path::valid_path(t.paths[parent]),
        crate::path::valid_component(name),
    ensures
        child_of(t, parent, Some(name)) matches Ok(p) && {
            &&& crate::path::valid_path(p)
            &&& crate::path::parent_of(p) == Some(t.paths[parent])
            &&& file_name_of(p) == name
        },
{
    crate::path::law_join_goes_down(t.paths[parent], name);
}

/// A number that is counted out is the first one that is not in use.
pub proof fn law_counted_number_is_the_first_free(t: InodesView, path: Seq<char>)
    requires
        !t.inos.contains_key(path),
        has_number(t),
    ensures
        ino_for(t, path, None) >= t.next,
        !t.paths.contains_key(ino_for(t, path, None)),
        forall|i: u64| t.next <= i < ino_for(t, path, None) ==> #[trigger] t.paths.contains_key(i),
{
    lemma_next_free(t.paths, t.next);
    lemma_none_skipped(t.paths, t.next);
}

proof fn lemma_none_skipped(paths: Map<u64, Seq<char>>, from: u64)
    ensures
        forall|i: u64| from <= i < next_free(paths, from) ==> #[trigger] paths.contains_key(i),
    decreases u64::MAX - from,
{
    if from < u64::MAX && paths.contains_key(from) {
        lemma_none_skipped(paths, (from + 1) as u64);
    }
}

/// A new table has numbers and paths one to one.
pub proof fn law_fresh_table()
    ensures
        bijective(fresh_table()),
        counted(fresh_table()),
        fresh_table().paths[ROOT_INO] == seq!['/'],
{
}

/// A number that is counted out is not in use.
proof fn lemma_next_free(paths: Map<u64, Seq<char>>, from: u64)
    ensures
        next_free(paths, from) >= from,
        next_free(paths, from) < u64::MAX ==> !paths.contains_key(next_free(paths, from)),
    decreases u64::MAX - from,
{
    if from < u64::MAX && paths.contains_key(from) {
        lemma_next_free(paths, (from + 1) as u64);
    }
}

/// Numbers and paths stay one to one, whatever is hinted: a path keeps its number, the
/// number leads back to the path, and no other path loses its number to it.
pub proof fn law_alloc_keeps_bijection(t: InodesView, path: Seq<char>, hint: Option<u64>)
    requires
        bijective(t),
        numberable(t, path, hint),
    ensures
        bijective(with_path(t, path, hint)),
        !t.inos.contains_key(path) ==> !t.paths.contains_key(ino_for(t, path, hint)),
        with_path(t, path, hint).inos[path] == ino_for(t, path, hint),
        with_path(t, path, hint).paths[ino_for(t, path, hint)] == path,
        forall|p: Seq<char>|
            #[trigger] t.inos.contains_key(p) ==> with_path(t, path, hint).inos[p] == t.inos[p],
        forall|i: u64|
            #[trigger] t.paths.contains_key(i) ==> with_path(t, path, hint).paths[i] == t.paths[i],
        with_path(with_path(t, path, hint), path, hint) == with_path(t, path, hint),
{
    lemma_next_free(t.paths, t.next);
}

/// Without hints the numbers are counted out one after the other.
pub proof fn law_unhinted_numbers_count_up(t: InodesView, path: Seq<char>)
    requires
        bijective(t),
        counted(t),
        t.next < u64::MAX,
    ensures
        numberable(t, path, None),
        !t.inos.contains_key(path) ==> ino_for(t, path, None) == t.next && with_path(
            t,
            path,
            None,
        ).next == t.next + 1,
        counted(with_path(t, path, None)),
{
    assert(!t.paths.contains_key(t.next));
}

/// What a directory stream shows gets numbers, and they stay one to one.
pub proof fn law_stream_keeps_bijection(t: InodesView, entries: Seq<EntryView>, ids: Seq<u64>, idx: int)
    requires
        bijective(t),
        has_number(t),
    ensures
        bijective(shown(t, entries, ids, idx)),
{
    if idx >= 2 {
        law_alloc_keeps_bijection(t, entries[idx - 2].path, hint_at(ids, idx - 2));
    }
}

/// The number that a directory stream shows for an entry is the one that its path has from
/// then on, and the one that it had if it had one; no other path's number is touched.
pub proof fn law_stream_shows_numbers(t: InodesView, ino: u64, entries: Seq<EntryView>, ids: Seq<u64>, i: int)
    requires
        bijective(t),
        has_number(t),
        0 <= i < entries.len(),
    ensures
        ({
            let t2 = shown(t, entries, ids, i + 2);
            let item = dir_item(t, ino, entries, ids, i + 2);
            let path = entries[i].path;
            &&& t2.inos.contains_key(path) && t2.inos[path] == item.ino
            &&& t2.paths.contains_key(item.ino) && t2.paths[item.ino] == path
            &&& t.inos.contains_key(path) ==> item.ino == t.inos[path]
            &&& forall|p: Seq<char>|
                p != path ==> #[trigger] t2.inos.contains_key(p) == t.inos.contains_key(p) && t2.inos[p]
                    == t.inos[p]
        }),
{
    law_alloc_keeps_bijection(t, entries[i].path, hint_at(ids, i));
}

/// Forgetting a path keeps the rest one to one, and undoes its numbering.
pub proof fn law_remove_keeps_bijection(t: InodesView, path: Seq<char>)
    requires
        bijective(t),
    ensures
        bijective(without_path(t, path)),
        !without_path(t, path).inos.contains_key(path),
        t.inos.contains_key(path) ==> !without_path(t, path).paths.contains_key(t.inos[path]),
        forall|p: Seq<char>|
            p != path ==> #[trigger] without_path(t, path).inos.contains_key(p) == t.inos.contains_key(p)
                && without_path(t, path).inos[p] == t.inos[p],
        forall|i: u64|
            #[trigger] t.paths.contains_key(i) && t.paths[i] != path ==> without_path(t, path).paths.contains_key(
                i,
            ) && without_path(t, path).paths[i] == t.paths[i],
        counted(t) ==> counted(without_path(t, path)),
{
}

/// What was written is what is read, at the same place.
pub proof fn law_splice_then_read(existing: Seq<u8>, offset: i64, data: Seq<u8>)
    requires
        0 <= offset,
        data.len() <= u32::MAX,
        offset + data.len() <= i64::MAX,
    ensures
        slice_at(spliced(existing, offset as int, data), offset, data.len() as u32) == data,
{
    let whole = spliced(existing, offset as int, data);
    if data.len() > 0 {
        assert(slice_at(whole, offset, data.len() as u32) =~= data);
    } else {
        assert(slice_at(whole, offset, 0u32) =~= data);
    }
}

/// A write puts the data where they belong, leaves every other byte as it was, fills a gap
/// with zeros, and makes the file no longer than that.
pub proof fn law_splice_overwrites(existing: Seq<u8>, offset: int, data: Seq<u8>)
    requires
        0 <= offset,
    ensures
        overwritten(existing, spliced(existing, offset, data), offset, data),
{
    let whole = spliced(existing, offset, data);
    assert forall|i: int| 0 <= i < data.len() implies whole[offset + i] == #[trigger] data[i] by {}
}

/// A read gives the bytes from the offset on, as many as were asked for and there are.
pub proof fn law_slice_is_part(data: Seq<u8>, offset: i64, size: u32)
    ensures
        is_part(slice_at(data, offset, size), data, offset as int, size as int),
{
}

/// A write leaves what is outside of it as it was, and never shortens a file.
pub proof fn law_splice_keeps_the_rest(existing: Seq<u8>, offset: int, data: Seq<u8>, i: int)
    requires
        0 <= offset,
        0 <= i < existing.len(),
        i < offset || offset + data.len() <= i,
    ensures
        spliced(existing, offset, data).len() >= existing.len(),
        spliced(existing, offset, data)[i] == existing[i],
{
}

/// Reading a file piece after piece gives all of it.
pub proof fn law_slices_join(data: Seq<u8>, offset: i64, size: u32)
    requires
        0 <= offset,
        offset + size <= i64::MAX,
        offset <= data.len(),
    ensures
        data.take(offset as int) + slice_at(data, offset, size) == data.take(
            if offset + size < data.len() {
                offset + size
            } else {
                data.len() as int
            },
        ),
{
    assert(data.take(offset as int) + slice_at(data, offset, size) =~= data.take(
        if offset + size < data.len() {
            offset + size
        } else {
            data.len() as int
        },
    ));
}

/// Attributes tell the number, the kind, the size and the times that they are made of, and
/// as many blocks as the size takes up.
pub proof fn law_attributes_tell_the_entry(ino: u64, kind: EntryKind, size: u64, times: Times, m: MetaView)
    ensures
        tells(attr(ino, kind, size, times), ino, kind, size, times),
        tells(
            attr_of(ino, m),
            ino,
            m.kind,
            m.size_bytes,
            Times::At {
                created: m.created_at as u64,
                modified: m.modified_at as u64,
                accessed: m.accessed_at as u64,
            },
        ),
{
}

/// The next `n` items of a stream that stands at `idx`, or all that are left.
pub open spec fn taken(t: InodesView, ino: u64, entries: Seq<EntryView>, ids: Seq<u64>, idx: int, n: nat) -> Seq<DirItemView>
    decreases n,
{
    if n == 0 || idx >= entries.len() + 2 {
        Seq::empty()
    } else {
        seq![dir_item(t, ino, entries, ids, idx)] + taken(
            shown(t, entries, ids, idx),
            ino,
            entries,
            ids,
            idx + 1,
            (n - 1) as nat,
        )
    }
}

/// The table once they were shown.
pub open spec fn table_after(t: InodesView, entries: Seq<EntryView>, ids: Seq<u64>, idx: int, n: nat) -> InodesView
    decreases n,
{
    if n == 0 || idx >= entries.len() + 2 {
        t
    } else {
        table_after(shown(t, entries, ids, idx), entries, ids, idx + 1, (n - 1) as nat)
    }
}

proof fn lemma_taken(t: InodesView, ino: u64, entries: Seq<EntryView>, ids: Seq<u64>, idx: int, n: nat)
    requires
        0 <= idx,
        idx + n <= entries.len() + 2,
    ensures
        taken(t, ino, entries, ids, idx, n).len() == n,
        forall|i: int|
            0 <= i < n ==> {
                let item = #[trigger] taken(t, ino, entries, ids, idx, n)[i];
                &&& item.offset == idx + i + 1
                &&& idx + i == 0 ==> item.ino == ino
                &&& idx + i == 1 ==> item.ino == ROOT_INO
                &&& item.name == (if idx + i == 0 {
                    "."@
                } else if idx + i == 1 {
                    ".."@
                } else {
                    file_name_of(entries[idx + i - 2].path)
                })
                &&& item.kind == (if idx + i < 2 {
                    EntryKind::Directory
                } else {
                    entries[idx + i - 2].kind
                })
            },
    decreases n,
{
    if n > 0 {
        let rest = taken(shown(t, entries, ids, idx), ino, entries, ids, idx + 1, (n - 1) as nat);
        lemma_taken(shown(t, entries, ids, idx), ino, entries, ids, idx + 1, (n - 1) as nat);
        assert forall|i: int| 0 <= i < n implies #[trigger] taken(t, ino, entries, ids, idx, n)[i] == (if i == 0 {
            dir_item(t, ino, entries, ids, idx)
        } else {
            rest[i - 1]
        }) by {}
    }
}

proof fn lemma_taken_splits(t: InodesView, ino: u64, entries: Seq<EntryView>, ids: Seq<u64>, idx: int, n: nat, m: nat)
    requires
        0 <= idx,
        idx + n <= entries.len() + 2,
    ensures
        taken(t, ino, entries, ids, idx, n + m) == taken(t, ino, entries, ids, idx, n) + taken(
            table_after(t, entries, ids, idx, n),
            ino,
            entries,
            ids,
            idx + n,
            m,
        ),
    decreases n,
{
    if n == 0 {
        assert(taken(t, ino, entries, ids, idx, 0) =~= Seq::empty());
        assert(taken(t, ino, entries, ids, idx, m) =~= Seq::empty() + taken(t, ino, entries, ids, idx, m));
    } else {
        let t2 = shown(t, entries, ids, idx);
        lemma_taken_splits(t2, ino, entries, ids, idx + 1, (n - 1) as nat, m);
        assert((n + m - 1) as nat == (n - 1) as nat + m);
        assert(taken(t, ino, entries, ids, idx, n + m) =~= taken(t, ino, entries, ids, idx, n) + taken(
            table_after(t, entries, ids, idx, n),
            ino,
            entries,
            ids,
            idx + n,
            m,
        ));
    }
}

/// A stream that is taken up again at the offset of the last item goes on with the next
/// one, so that however it is cut every item is listed exactly once: the directory, the
/// one above it, and then the entries with their names and kinds, each in its place.
pub proof fn law_stream_resumes(t: InodesView, ino: u64, entries: Seq<EntryView>, ids: Seq<u64>, n: nat, m: nat)
    requires
        streamable(entries.len()),
        0 < n,
        n + m == entries.len() + 2,
    ensures
        ({
            let first = taken(t, ino, entries, ids, 0, n);
            let again = stream_from(ino, entries, ids, first.last().offset as i64);
            let all = first + taken(table_after(t, entries, ids, 0, n), ino, entries, ids, again.idx, m);
            &&& stream_from(ino, entries, ids, 0).idx == 0
            &&& first.len() == n
            &&& again.idx == n
            &&& all == taken(t, ino, entries, ids, 0, n + m)
            &&& all.len() == entries.len() + 2
            &&& all[0].name == "."@ && all[1].name == ".."@
            &&& all[0].ino == ino && all[1].ino == ROOT_INO
            &&& all[0].kind == EntryKind::Directory && all[1].kind == EntryKind::Directory
            &&& forall|i: int|
                0 <= i < entries.len() ==> all[i + 2].name == file_name_of(
                    (#[trigger] entries[i]).path,
                ) && all[i + 2].kind == entries[i].kind
        }),
{
    lemma_taken(t, ino, entries, ids, 0, n);
    lemma_taken(t, ino, entries, ids, 0, n + m);
    lemma_taken_splits(t, ino, entries, ids, 0, n, m);
    let first = taken(t, ino, entries, ids, 0, n);
    assert(first[n - 1].offset == n);
    let whole = taken(t, ino, entries, ids, 0, n + m);
    assert(whole[0].name == "."@ && whole[1].name == ".."@);
    assert(whole[0].ino == ino && whole[1].ino == ROOT_INO);
    assert(whole[0].kind == EntryKind::Directory && whole[1].kind == EntryKind::Directory);
    assert forall|i: int| 0 <= i < entries.len() implies whole[i + 2].name == file_name_of(
        (#[trigger] entries[i]).path,
    ) && whole[i + 2].kind == entries[i].kind by {
        assert(whole[i + 2].offset == i + 3);
    }
}

// ---------------------------------------------------------------------------
// How a read by the client runs

/// What answers the client: what the daemon says of a path and gives for it, and what the
/// cache has for a hash.
pub struct ClientWorld {
    pub stat: spec_fn(Seq<char>) -> Result<MetaView, ErrorView>,
    pub content: spec_fn(Seq<char>) -> Result<Seq<u8>, ErrorView>,
    pub cache: spec_fn(Seq<char>) -> Option<Seq<u8>>,
}

/// The answer to a request of the client.
pub open spec fn client_answer(c: ClientWorld, a: ClientActionView) -> ClientEventView {
    match a {
        ClientActionView::Stat(path) => ClientEventView::Stat((c.stat)(path)),
        ClientActionView::Cached(sha256) => ClientEventView::Cached((c.cache)(sha256)),
        ClientActionView::Fetch(path) => ClientEventView::Fetched((c.content)(path)),
    }
}

/// How a read by the client ends: the result, whether the cache is to store it, and the
/// requests that were made.
pub struct ClientEnd {
    pub result: Result<Seq<u8>, ErrorView>,
    pub store: bool,
    pub asked: Seq<ClientActionView>,
}

/// How a read by the client that has come to `phase`, makes the request `a` and made those
/// in `asked` before, ends within `fuel` requests.
pub open spec fn run_client(
    c: ClientWorld,
    path: Seq<char>,
    phase: ClientPhase,
    a: ClientActionView,
    asked: Seq<ClientActionView>,
    fuel: nat,
) -> Option<ClientEnd>
    decreases fuel,
{
    if fuel == 0 {
        None
    } else {
        match client_step(path, phase, client_answer(c, a)) {
            ClientStepView::Next(phase2, a2) => run_client(
                c,
                path,
                phase2,
                a2,
                asked.push(a),
                (fuel - 1) as nat,
            ),
            ClientStepView::Done { result, store } => Some(
                ClientEnd { result, store, asked: asked.push(a) },
            ),
        }
    }
}

/// How a read of the path by the client ends.
pub open spec fn run_client_read(c: ClientWorld, path: Seq<char>, fuel: nat) -> Option<ClientEnd> {
    run_client(c, path, ClientPhase::Stat, ClientActionView::Stat(path), Seq::empty(), fuel)
}

/// What the cache has of the file, by the hash that the daemon tells; nothing where it
/// tells none.
pub open spec fn cached_copy(c: ClientWorld, path: Seq<char>) -> Option<Seq<u8>> {
    match (c.stat)(path) {
        Ok(m) => if m.sha256.len() == 0 {
            None
        } else {
            (c.cache)(m.sha256)
        },
        Err(_) => None,
    }
}

/// A read by the client ends within three requests, whatever the daemon says and the cache
/// has. What the cache has under the hash of the file is given as it is, and is not
/// fetched. Anything else, a failed request for metadata, an unknown hash or a cache that
/// has nothing, is answered by what the daemon gives for the path, which is the last thing
/// that is asked for; and just what was got from there is to be stored.
pub proof fn law_client_read(c: ClientWorld, path: Seq<char>, fuel: nat)
    requires
        fuel >= 3,
    ensures
        run_client_read(c, path, fuel) matches Some(end) && {
            &&& end.asked[0] == ClientActionView::Stat(path)
            &&& match cached_copy(c, path) {
                Some(data) => {
                    &&& end.result == Ok::<Seq<u8>, ErrorView>(data)
                    &&& !end.store
                    &&& !end.asked.contains(ClientActionView::Fetch(path))
                },
                None => {
                    &&& end.result == (c.content)(path)
                    &&& end.store == ((c.content)(path) is Ok)
                    &&& end.asked.last() == ClientActionView::Fetch(path)
                },
            }
        },
{
    reveal_with_fuel(run_client, 4);
    let end = run_client_read(c, path, fuel)->0;
    if let Some(data) = cached_copy(c, path) {
        let m = (c.stat)(path)->Ok_0;
        assert(end.asked =~= seq![ClientActionView::Stat(path), ClientActionView::Cached(m.sha256)]);
    }
}

/// The client reads what the file holds: if the daemon gives the content for the path, and
/// the cache has nothing else under the hash that it tells, the read gives the content.
pub proof fn law_client_reads_the_content(c: ClientWorld, path: Seq<char>, content: Seq<u8>, fuel: nat)
    requires
        fuel >= 3,
        (c.content)(path) == Ok::<Seq<u8>, ErrorView>(content),
        (c.stat)(path) matches Ok(m) ==> (m.sha256.len() > 0 ==> ((c.cache)(m.sha256) matches Some(data)
            ==> data == content)),
    ensures
        run_client_read(c, path, fuel) matches Some(end) && end.result == Ok::<Seq<u8>, ErrorView>(
            content,
        ),
{
    law_client_read(c, path, fuel);
}

/// A cache that has under each hash nothing, or a content with that hash, never misleads:
/// what the client reads of a file whose hash the daemon tells has that hash, and a cache
/// that has nothing is as good as none.
pub proof fn law_client_reads_by_hash(c: ClientWorld, path: Seq<char>, content: Seq<u8>, m: MetaView, fuel: nat)
    requires
        fuel >= 3,
        forall|h: Seq<char>|
            (#[trigger] (c.cache)(h)) matches Some(data) ==> crate::digest::content_hash(data) == h,
        (c.stat)(path) == Ok::<MetaView, ErrorView>(m),
        (c.content)(path) == Ok::<Seq<u8>, ErrorView>(content),
        m.sha256 == crate::digest::content_hash(content),
    ensures
        run_client_read(c, path, fuel) matches Some(end) && {
            &&& end.result matches Ok(data) && crate::digest::content_hash(data) == m.sha256
            &&& (c.cache)(m.sha256) is None ==> end.result == Ok::<Seq<u8>, ErrorView>(content)
        },
{
    law_client_read(c, path, fuel);
}

} // verus!
