//! The daemon's FUSE mount: system calls turned into operations on the tiers.
//!
//! A call is started by the function of its name; [`VfsdFuse::step`] takes the answers
//! to the requests that it makes, until the call has its reply.

use crate::action::Action;
use crate::action::ActionView;
use crate::action::Event;
use crate::action::EventView;
use crate::action::Shape;
use crate::error::ErrorView;
use crate::error::FvfsError;
use crate::fuse::attr;
use crate::fuse::attr_of;
use crate::fuse::bijective;
use crate::fuse::child_of;
use crate::fuse::child_path;
use crate::fuse::dir_item;
use crate::fuse::fresh_table;
use crate::fuse::has_number;
use crate::fuse::ino_for;
use crate::fuse::inode_path;
use crate::fuse::make_attr;
use crate::fuse::meta_to_attr;
use crate::fuse::opt_name;
use crate::fuse::root_attr;
use crate::fuse::shown;
use crate::fuse::slice_at;
use crate::fuse::spliced;
use crate::fuse::stream_from;
use crate::fuse::streamable;
use crate::fuse::with_path;
use crate::fuse::without_path;
use crate::fuse::Attr;
use crate::fuse::DirStream;
use crate::fuse::DirStreamView;
use crate::fuse::Errno;
use crate::fuse::InodeTable;
use crate::fuse::InodesView;
use crate::fuse::Times;
use crate::fuse::ROOT_INO;
use crate::path::VfsPath;
use crate::router::is_read;
use crate::router::Reply;
use crate::router::ReplyView;
use crate::router::RouterView;
use crate::router::Step;
use crate::router::StepView;
use crate::router::TierRouter;
use crate::tier::Tier;
use crate::types::EntryKind;
use crate::types::MetaView;
use crate::world::perform;
use crate::world::run;
use crate::world::Env;
use crate::world::Outcome;
use crate::world::World;
use vstd::prelude::*;

verus! {

/// Where a call stands.
pub enum CallView {
    Lookup { path: Seq<char> },
    Getattr { ino: u64 },
    Reading { offset: i64, size: u32, op: RouterView },
    WriteRead { path: Seq<char>, at: int, data: Seq<u8>, op: RouterView },
    WriteBack { len: int, op: RouterView },
    Creating { path: Seq<char>, kind: EntryKind, id: Option<i64>, op: RouterView },
    Unlinking { path: Seq<char>, op: RouterView },
    Listing { ino: u64, offset: i64, op: RouterView },
    Truncating { ino: u64, path: Seq<char>, op: RouterView },
}

/// What a call gives when it succeeds.
pub enum CallReplyView {
    Attr(Attr),
    Data(Seq<u8>),
    Written(u32),
    Gone,
    Stream(DirStreamView),
}

/// The outcome of one step of a call.
pub enum CallStepView {
    Next(CallView, ActionView),
    Done(Result<CallReplyView, Errno>),
}

/// The shape of the answer that a call waits for.
pub open spec fn call_awaits(s: CallView) -> Shape {
    match s {
        CallView::Lookup { .. } => Shape::Meta,
        CallView::Getattr { .. } => Shape::Meta,
        CallView::Reading { op, .. } => crate::router::awaited(op),
        CallView::WriteRead { op, .. } => crate::router::awaited(op),
        CallView::WriteBack { op, .. } => crate::router::awaited(op),
        CallView::Creating { op, .. } => crate::router::awaited(op),
        CallView::Unlinking { op, .. } => crate::router::awaited(op),
        CallView::Listing { op, .. } => crate::router::awaited(op),
        CallView::Truncating { op, .. } => crate::router::awaited(op),
    }
}

/// The number that is proposed for an entry: its id.
pub open spec fn hinted(m: MetaView) -> Option<u64> {
    Some(m.id as u64)
}

/// The number that is proposed for an entry that was made, once its id is known.
pub open spec fn made_hint(id: Option<i64>) -> Option<u64> {
    match id {
        Some(i) => Some(i as u64),
        None => None,
    }
}

/// The id of the entry that is being made, as far as the answers so far have told it.
pub open spec fn told_id(id: Option<i64>, op: RouterView, e: EventView) -> Option<i64> {
    match (crate::router::makes_entry(op), e) {
        (true, EventView::Id(Ok(i))) => Some(i),
        _ => id,
    }
}

/// The ids of the entries of a listing.
pub open spec fn ids_of(e: EventView) -> Seq<u64> {
    match e {
        EventView::Listing(Ok(ms)) => ms.map_values(|m: MetaView| m.id as u64),
        _ => Seq::empty(),
    }
}

/// The first state of a write of the data at the path.
pub open spec fn write_op(path: Seq<char>, data: Seq<u8>) -> RouterView {
    RouterView::WritePut {
        path,
        sha256: crate::digest::content_hash(data),
        size_bytes: data.len() as u64,
    }
}

/// The error number of a failed read.
pub open spec fn read_errno(x: ErrorView) -> Errno {
    match x {
        ErrorView::NotFound(_) => Errno::NoEntry,
        ErrorView::IsADirectory(_) => Errno::IsDir,
        _ => Errno::Io,
    }
}

/// The error number of a failed deletion.
pub open spec fn unlink_errno(x: ErrorView) -> Errno {
    match x {
        ErrorView::NotFound(_) => Errno::NoEntry,
        _ => Errno::Io,
    }
}

/// The step that asks for the attributes of a number: the root has its own.
pub open spec fn ask_attr(t: InodesView, ino: u64) -> CallStepView {
    if ino == ROOT_INO {
        CallStepView::Done(
            Ok(CallReplyView::Attr(attr(ROOT_INO, EntryKind::Directory, 0, Times::Now))),
        )
    } else if t.paths.contains_key(ino) {
        CallStepView::Next(CallView::Getattr { ino }, ActionView::Lookup { path: t.paths[ino] })
    } else {
        CallStepView::Done(Err(Errno::NoEntry))
    }
}

/// The step that writes a file back, with the data in it. A file that is too long to be
/// hashed is refused.
pub open spec fn write_back(path: Seq<char>, base: Seq<u8>, offset: int, data: Seq<u8>) -> CallStepView {
    let whole = spliced(base, offset, data);
    if crate::digest::hashable(whole.len()) {
        CallStepView::Next(
            CallView::WriteBack { len: data.len() as int, op: write_op(path, whole) },
            ActionView::Put { tier: Tier::Local, path, data: whole },
        )
    } else {
        CallStepView::Done(Err(Errno::Io))
    }
}

/// What a call does with an answer, with the table `t`.
pub open spec fn call_step(t: InodesView, s: CallView, e: EventView, now: i64) -> CallStepView {
    match s {
        CallView::Lookup { path } => match e {
            EventView::Meta(Ok(Some(m))) => CallStepView::Done(
                Ok(CallReplyView::Attr(attr_of(ino_for(t, path, hinted(m)), m))),
            ),
            _ => CallStepView::Done(Err(Errno::NoEntry)),
        },
        CallView::Getattr { ino } => match e {
            EventView::Meta(Ok(Some(m))) => CallStepView::Done(
                Ok(CallReplyView::Attr(attr_of(ino, m))),
            ),
            _ => CallStepView::Done(Err(Errno::NoEntry)),
        },
        CallView::Reading { offset, size, op } => match crate::router::router_step(op, e, now) {
            StepView::Next(op2, a) => CallStepView::Next(
                CallView::Reading { offset, size, op: op2 },
                a,
            ),
            StepView::Done(Ok(ReplyView::Data(data))) => CallStepView::Done(
                Ok(CallReplyView::Data(slice_at(data, offset, size))),
            ),
            StepView::Done(Ok(_)) => arbitrary(),
            StepView::Done(Err(x)) => CallStepView::Done(Err(read_errno(x))),
        },
        CallView::WriteRead { path, at, data, op } => match crate::router::router_step(
            op,
            e,
            now,
        ) {
            StepView::Next(op2, a) => CallStepView::Next(
                CallView::WriteRead { path, at, data, op: op2 },
                a,
            ),
            StepView::Done(Ok(ReplyView::Data(base))) => write_back(path, base, at, data),
            StepView::Done(Ok(_)) => arbitrary(),
            StepView::Done(Err(_)) => write_back(path, Seq::empty(), at, data),
        },
        CallView::WriteBack { len, op } => match crate::router::router_step(op, e, now) {
            StepView::Next(op2, a) => CallStepView::Next(CallView::WriteBack { len, op: op2 }, a),
            StepView::Done(Ok(_)) => CallStepView::Done(Ok(CallReplyView::Written(len as u32))),
            StepView::Done(Err(_)) => CallStepView::Done(Err(Errno::Io)),
        },
        CallView::Creating { path, kind, id, op } => match crate::router::router_step(op, e, now) {
            StepView::Next(op2, a) => CallStepView::Next(
                CallView::Creating { path, kind, id: told_id(id, op, e), op: op2 },
                a,
            ),
            StepView::Done(Ok(_)) => CallStepView::Done(
                Ok(
                    CallReplyView::Attr(
                        attr(
                            ino_for(t, path, made_hint(told_id(id, op, e))),
                            kind,
                            0,
                            Times::Now,
                        ),
                    ),
                ),
            ),
            StepView::Done(Err(_)) => CallStepView::Done(Err(Errno::Io)),
        },
        CallView::Unlinking { path, op } => match crate::router::router_step(op, e, now) {
            StepView::Next(op2, a) => CallStepView::Next(CallView::Unlinking { path, op: op2 }, a),
            StepView::Done(Ok(_)) => CallStepView::Done(Ok(CallReplyView::Gone)),
            StepView::Done(Err(x)) => CallStepView::Done(Err(unlink_errno(x))),
        },
        CallView::Listing { ino, offset, op } => match crate::router::router_step(op, e, now) {
            StepView::Next(op2, a) => CallStepView::Next(
                CallView::Listing { ino, offset, op: op2 },
                a,
            ),
            StepView::Done(Ok(ReplyView::Entries(es))) => if streamable(es.len()) {
                CallStepView::Done(Ok(CallReplyView::Stream(stream_from(ino, es, ids_of(e), offset))))
            } else {
                CallStepView::Done(Err(Errno::Io))
            },
            StepView::Done(_) => CallStepView::Done(Err(Errno::Io)),
        },
        CallView::Truncating { ino, path, op } => match crate::router::router_step(op, e, now) {
            StepView::Next(op2, a) => CallStepView::Next(
                CallView::Truncating { ino, path, op: op2 },
                a,
            ),
            StepView::Done(_) => ask_attr(t, ino),
        },
    }
}

/// The table after a call has taken an answer: an entry that is found or made gets a
/// number, and one that is deleted loses its.
pub open spec fn call_table(t: InodesView, s: CallView, e: EventView, now: i64) -> InodesView {
    match s {
        CallView::Lookup { path } => match e {
            EventView::Meta(Ok(Some(m))) => with_path(t, path, hinted(m)),
            _ => t,
        },
        CallView::Creating { path, id, op, .. } => match crate::router::router_step(op, e, now) {
            StepView::Done(Ok(_)) => with_path(t, path, made_hint(told_id(id, op, e))),
            _ => t,
        },
        CallView::Unlinking { path, op } => match crate::router::router_step(op, e, now) {
            StepView::Done(Ok(_)) => without_path(t, path),
            _ => t,
        },
        _ => t,
    }
}

#[derive(Debug, PartialEq, Eq)]
enum State {
    Lookup { path: VfsPath },
    Getattr { ino: u64 },
    Reading { offset: i64, size: u32, op: TierRouter },
    WriteRead { path: VfsPath, at: usize, data: Vec<u8>, op: TierRouter },
    WriteBack { len: usize, op: TierRouter },
    Creating { path: VfsPath, kind: EntryKind, id: Option<i64>, op: TierRouter },
    Unlinking { path: VfsPath, op: TierRouter },
    Listing { ino: u64, offset: i64, op: TierRouter },
    Truncating { ino: u64, path: VfsPath, op: TierRouter },
}

/// A call in progress.
#[derive(Debug, PartialEq, Eq)]
pub struct FuseCall {
    state: State,
}

impl View for FuseCall {
    type V = CallView;

    closed spec fn view(&self) -> CallView {
        match self.state {
            State::Lookup { path } => CallView::Lookup { path: path@ },
            State::Getattr { ino } => CallView::Getattr { ino },
            State::Reading { offset, size, op } => CallView::Reading { offset, size, op: op@ },
            State::WriteRead { path, at, data, op } => CallView::WriteRead {
                path: path@,
                at: at as int,
                data: data@,
                op: op@,
            },
            State::WriteBack { len, op } => CallView::WriteBack { len: len as int, op: op@ },
            State::Creating { path, kind, id, op } => CallView::Creating {
                path: path@,
                kind,
                id,
                op: op@,
            },
            State::Unlinking { path, op } => CallView::Unlinking { path: path@, op: op@ },
            State::Listing { ino, offset, op } => CallView::Listing { ino, offset, op: op@ },
            State::Truncating { ino, path, op } => CallView::Truncating { ino, path: path@, op: op@ },
        }
    }
}

/// What a call gives when it succeeds.
#[derive(Debug, PartialEq, Eq)]
pub enum CallReply {
    /// Attributes.
    Attr(Attr),
    /// A part of a file.
    Data(Vec<u8>),
    /// How many bytes were written.
    Written(u32),
    /// The path is gone.
    Gone,
    /// A directory stream.
    Stream(DirStream),
}

impl View for CallReply {
    type V = CallReplyView;

    open spec fn view(&self) -> CallReplyView {
        match self {
            CallReply::Attr(a) => CallReplyView::Attr(*a),
            CallReply::Data(d) => CallReplyView::Data(d@),
            CallReply::Written(n) => CallReplyView::Written(*n),
            CallReply::Gone => CallReplyView::Gone,
            CallReply::Stream(s) => CallReplyView::Stream(s@),
        }
    }
}

/// The outcome of one step of a call.
#[derive(Debug, PartialEq, Eq)]
pub enum CallStep {
    /// The call goes on, and waits for the answer to the action.
    Next(FuseCall, Action),
    /// The call has its reply.
    Done(Result<CallReply, Errno>),
}

impl View for CallStep {
    type V = CallStepView;

    open spec fn view(&self) -> CallStepView {
        match self {
            CallStep::Next(s, a) => CallStepView::Next(s@, a@),
            CallStep::Done(r) => CallStepView::Done(
                match r {
                    Ok(x) => Ok(x@),
                    Err(e) => Err(*e),
                },
            ),
        }
    }
}

impl FuseCall {
    /// What is read is read by a read, and what is written fits behind its offset.
    #[verifier::type_invariant]
    spec fn fits(self) -> bool {
        match self.state {
            State::Reading { op, .. } => is_read(op@),
            State::WriteRead { at, data, op, .. } => is_read(op@) && at + data@.len()
                <= usize::MAX,
            _ => true,
        }
    }

    /// Whether the call waits for an answer of this shape.
    pub fn expects(&self, event: &Event) -> (r: bool)
        ensures
            r == (crate::action::event_shape(event@) == call_awaits(self@)),
    {
        match &self.state {
            State::Lookup { .. } => event.shape() == Shape::Meta,
            State::Getattr { .. } => event.shape() == Shape::Meta,
            State::Reading { op, .. } => op.expects(event),
            State::WriteRead { op, .. } => op.expects(event),
            State::WriteBack { op, .. } => op.expects(event),
            State::Creating { op, .. } => op.expects(event),
            State::Unlinking { op, .. } => op.expects(event),
            State::Listing { op, .. } => op.expects(event),
            State::Truncating { op, .. } => op.expects(event),
        }
    }
}

fn goes_on(state: State, action: Action) -> (r: CallStep)
    requires
        (FuseCall { state }).fits(),
    ensures
        r@ == CallStepView::Next((FuseCall { state })@, action@),
{
    CallStep::Next(FuseCall { state }, action)
}

/// Writes a file back, with the data in it.
fn put_back(path: VfsPath, base: Vec<u8>, offset: usize, data: Vec<u8>) -> (r: CallStep)
    requires
        offset + data@.len() <= usize::MAX,
    ensures
        r@ == write_back(path@, base@, offset as int, data@),
{
    let len: usize = data.len();
    let whole = crate::fuse::splice(base, offset, data.as_slice());
    if (whole.len() as u64) < 0x2000_0000_0000_0000u64 {
        let (op, a) = TierRouter::write(&path, whole);
        goes_on(State::WriteBack { len, op }, a)
    } else {
        CallStep::Done(Err(Errno::Io))
    }
}

/// The number that an id is.
fn as_number(id: i64) -> (r: u64)
    ensures
        r == id as u64,
{
    #[verifier::truncate]
    (id as u64)
}

/// The ids of the entries of a listing.
fn listed_ids(event: &Event) -> (r: Vec<u64>)
    ensures
        r@ == ids_of(event@),
{
    let mut ids: Vec<u64> = Vec::new();
    if let Event::Listing(Ok(entries)) = event {
        let mut i: usize = 0;
        while i < entries.len()
            invariant
                i <= entries@.len(),
                ids@.len() == i,
                forall|k: int| 0 <= k < i ==> #[trigger] ids@[k] == entries@[k]@.id as u64,
            decreases entries.len() - i,
        {
            ids.push(as_number(entries[i].id));
            i += 1;
        }
    }
    assert(ids@ =~= ids_of(event@));
    ids
}

/// What the daemon's mount remembers.
pub struct VfsdFuse {
    pub inodes: InodeTable,
}

impl VfsdFuse {
    /// A new mount.
    pub fn new() -> (r: VfsdFuse)
        ensures
            r.inodes@ == fresh_table(),
    {
        VfsdFuse { inodes: InodeTable::new() }
    }

    /// Looks up a name in a directory.
    pub fn lookup(&self, parent: u64, name: Option<&str>) -> (r: CallStep)
        ensures
            r@ == (match child_of(self.inodes@, parent, opt_name(name)) {
                Ok(path) => CallStepView::Next(
                    CallView::Lookup { path },
                    ActionView::Lookup { path },
                ),
                Err(e) => CallStepView::Done(Err(e)),
            }),
    {
        match child_path(&self.inodes, parent, name) {
            Ok(path) => {
                let asked = path.clone();
                goes_on(State::Lookup { path }, Action::Lookup { path: asked })
            },
            Err(e) => CallStep::Done(Err(e)),
        }
    }

    /// Asks for attributes.
    pub fn getattr(&self, ino: u64) -> (r: CallStep)
        ensures
            r@ == ask_attr(self.inodes@, ino),
    {
        if ino == ROOT_INO {
            return CallStep::Done(Ok(CallReply::Attr(root_attr())));
        }
        match inode_path(&self.inodes, ino) {
            Ok(path) => goes_on(State::Getattr { ino }, Action::Lookup { path }),
            Err(e) => CallStep::Done(Err(e)),
        }
    }

    /// Reads `size` bytes of a file from `offset` on.
    pub fn read(&self, ino: u64, offset: i64, size: u32) -> (r: CallStep)
        ensures
            r@ == (if self.inodes@.paths.contains_key(ino) {
                let path = self.inodes@.paths[ino];
                CallStepView::Next(
                    CallView::Reading { offset, size, op: RouterView::ReadMeta { path } },
                    ActionView::Lookup { path },
                )
            } else {
                CallStepView::Done(Err(Errno::NoEntry))
            }),
    {
        match inode_path(&self.inodes, ino) {
            Ok(path) => {
                let (op, a) = TierRouter::read(&path);
                goes_on(State::Reading { offset, size, op }, a)
            },
            Err(e) => CallStep::Done(Err(e)),
        }
    }

    /// Writes data into a file at `offset`: what it holds is read first.
    pub fn write(&self, ino: u64, offset: i64, data: Vec<u8>) -> (r: CallStep)
        requires
            self.inodes@.paths.contains_key(ino) ==> 0 <= offset && offset + data@.len() <= usize::MAX,
        ensures
            r@ == (if self.inodes@.paths.contains_key(ino) {
                let path = self.inodes@.paths[ino];
                CallStepView::Next(
                    CallView::WriteRead {
                        path,
                        at: offset as int,
                        data: data@,
                        op: RouterView::ReadMeta { path },
                    },
                    ActionView::Lookup { path },
                )
            } else {
                CallStepView::Done(Err(Errno::NoEntry))
            }),
    {
        match inode_path(&self.inodes, ino) {
            Ok(path) => {
                let (op, a) = TierRouter::read(&path);
                goes_on(State::WriteRead { path, at: offset as usize, data, op }, a)
            },
            Err(e) => CallStep::Done(Err(e)),
        }
    }

    /// Creates an empty file.
    pub fn create(&self, parent: u64, name: Option<&str>) -> (r: CallStep)
        ensures
            r@ == (match child_of(self.inodes@, parent, opt_name(name)) {
                Ok(path) => CallStepView::Next(
                    CallView::Creating {
                        path,
                        kind: EntryKind::File,
                        id: None,
                        op: write_op(path, Seq::empty()),
                    },
                    ActionView::Put { tier: Tier::Local, path, data: Seq::empty() },
                ),
                Err(e) => CallStepView::Done(Err(e)),
            }),
    {
        match child_path(&self.inodes, parent, name) {
            Ok(path) => {
                let empty: Vec<u8> = Vec::new();
                assert(empty@ =~= Seq::empty());
                let (op, a) = TierRouter::write(&path, empty);
                goes_on(State::Creating { path, kind: EntryKind::File, id: None, op }, a)
            },
            Err(e) => CallStep::Done(Err(e)),
        }
    }

    /// Creates a directory.
    pub fn mkdir(&self, parent: u64, name: Option<&str>, now: i64) -> (r: CallStep)
        ensures
            r@ == (match child_of(self.inodes@, parent, opt_name(name)) {
                Ok(path) => CallStepView::Next(
                    CallView::Creating {
                        path,
                        kind: EntryKind::Directory,
                        id: None,
                        op: RouterView::MkdirUpsert { path },
                    },
                    ActionView::Upsert { meta: crate::types::fresh_dir(path, now) },
                ),
                Err(e) => CallStepView::Done(Err(e)),
            }),
    {
        match child_path(&self.inodes, parent, name) {
            Ok(path) => {
                let (op, a) = TierRouter::mkdir(&path, now);
                goes_on(State::Creating { path, kind: EntryKind::Directory, id: None, op }, a)
            },
            Err(e) => CallStep::Done(Err(e)),
        }
    }

    /// Deletes a file.
    pub fn unlink(&self, parent: u64, name: Option<&str>) -> (r: CallStep)
        ensures
            r@ == (match child_of(self.inodes@, parent, opt_name(name)) {
                Ok(path) => CallStepView::Next(
                    CallView::Unlinking { path, op: RouterView::DeleteMeta { path } },
                    ActionView::Lookup { path },
                ),
                Err(e) => CallStepView::Done(Err(e)),
            }),
    {
        match child_path(&self.inodes, parent, name) {
            Ok(path) => {
                let (op, a) = TierRouter::delete(&path);
                goes_on(State::Unlinking { path, op }, a)
            },
            Err(e) => CallStep::Done(Err(e)),
        }
    }

    /// Deletes a directory, as a file is deleted.
    pub fn rmdir(&self, parent: u64, name: Option<&str>) -> (r: CallStep)
        ensures
            r@ == (match child_of(self.inodes@, parent, opt_name(name)) {
                Ok(path) => CallStepView::Next(
                    CallView::Unlinking { path, op: RouterView::DeleteMeta { path } },
                    ActionView::Lookup { path },
                ),
                Err(e) => CallStepView::Done(Err(e)),
            }),
    {
        self.unlink(parent, name)
    }

    /// Lists a directory from `offset` on.
    pub fn readdir(&self, ino: u64, offset: i64) -> (r: CallStep)
        ensures
            r@ == (if self.inodes@.paths.contains_key(ino) {
                CallStepView::Next(
                    CallView::Listing { ino, offset, op: RouterView::ListMeta },
                    ActionView::ListDir { path: self.inodes@.paths[ino] },
                )
            } else {
                CallStepView::Done(Err(Errno::NoEntry))
            }),
    {
        match inode_path(&self.inodes, ino) {
            Ok(path) => {
                let (op, a) = TierRouter::list(&path);
                goes_on(State::Listing { ino, offset, op }, a)
            },
            Err(e) => CallStep::Done(Err(e)),
        }
    }

    /// Changes attributes. A new size of zero empties the file; nothing else is written.
    /// The reply has the attributes as they are then.
    pub fn setattr(&self, ino: u64, size: Option<u64>) -> (r: CallStep)
        ensures
            r@ == (if size is Some && !self.inodes@.paths.contains_key(ino) {
                CallStepView::Done(Err(Errno::NoEntry))
            } else if size == Some(0u64) {
                let path = self.inodes@.paths[ino];
                CallStepView::Next(
                    CallView::Truncating { ino, path, op: write_op(path, Seq::empty()) },
                    ActionView::Put { tier: Tier::Local, path, data: Seq::empty() },
                )
            } else {
                ask_attr(self.inodes@, ino)
            }),
    {
        match size {
            None => self.getattr(ino),
            Some(n) => match inode_path(&self.inodes, ino) {
                Err(e) => CallStep::Done(Err(e)),
                Ok(path) => {
                    if n == 0 {
                        let empty: Vec<u8> = Vec::new();
                        assert(empty@ =~= Seq::empty());
                        let (op, a) = TierRouter::write(&path, empty);
                        goes_on(State::Truncating { ino, path, op }, a)
                    } else {
                        self.getattr(ino)
                    }
                },
            },
        }
    }

    /// Takes the answer to the last action of a call, which arrives at the time `now`.
    pub fn step(&mut self, call: FuseCall, event: Event, now: i64) -> (r: CallStep)
        requires
            has_number(old(self).inodes@),
            crate::action::event_shape(event@) == call_awaits(call@),
        ensures
            r@ == call_step(old(self).inodes@, call@, event@, now),
            final(self).inodes@ == call_table(old(self).inodes@, call@, event@, now),
    {
        proof {
            use_type_invariant(&call);
        }
        match call.state {
            State::Lookup { path } => match event {
                Event::Meta(Ok(Some(m))) => {
                    let ino = self.inodes.get_or_alloc(path, Some(as_number(m.id)));
                    CallStep::Done(Ok(CallReply::Attr(meta_to_attr(ino, &m))))
                },
                _ => CallStep::Done(Err(Errno::NoEntry)),
            },
            State::Getattr { ino } => match event {
                Event::Meta(Ok(Some(m))) => CallStep::Done(
                    Ok(CallReply::Attr(meta_to_attr(ino, &m))),
                ),
                _ => CallStep::Done(Err(Errno::NoEntry)),
            },
            State::Reading { offset, size, op } => {
                proof {
                    crate::router::lemma_read_step(op@, event@, now);
                }
                match op.step(event, now) {
                    Step::Next(op, a) => goes_on(State::Reading { offset, size, op }, a),
                    Step::Done(Ok(Reply::Data(data))) => CallStep::Done(
                        Ok(CallReply::Data(crate::fuse::read_slice(&data, offset, size))),
                    ),
                    Step::Done(Err(FvfsError::NotFound { .. })) => CallStep::Done(
                        Err(Errno::NoEntry),
                    ),
                    Step::Done(Err(FvfsError::IsADirectory { .. })) => CallStep::Done(
                        Err(Errno::IsDir),
                    ),
                    Step::Done(_) => CallStep::Done(Err(Errno::Io)),
                }
            },
            State::WriteRead { path, at, data, op } => {
                proof {
                    crate::router::lemma_read_step(op@, event@, now);
                }
                match op.step(event, now) {
                    Step::Next(op, a) => goes_on(State::WriteRead { path, at, data, op }, a),
                    Step::Done(Ok(Reply::Data(base))) => put_back(path, base, at, data),
                    Step::Done(_) => {
                        let base: Vec<u8> = Vec::new();
                        assert(base@ =~= Seq::empty());
                        put_back(path, base, at, data)
                    },
                }
            },
            State::WriteBack { len, op } => match op.step(event, now) {
                Step::Next(op, a) => goes_on(State::WriteBack { len, op }, a),
                Step::Done(Ok(_)) => CallStep::Done(
                    Ok(
                        CallReply::Written(
                            #[verifier::truncate]
                            (len as u32),
                        ),
                    ),
                ),
                Step::Done(Err(_)) => CallStep::Done(Err(Errno::Io)),
            },
            State::Creating { path, kind, id, op } => {
                let id = match (&event, op.makes_an_entry()) {
                    (Event::Id(Ok(i)), true) => Some(*i),
                    _ => id,
                };
                match op.step(event, now) {
                    Step::Next(op, a) => goes_on(State::Creating { path, kind, id, op }, a),
                    Step::Done(Ok(_)) => {
                        let hint = match id {
                            Some(i) => Some(as_number(i)),
                            None => None,
                        };
                        let ino = self.inodes.get_or_alloc(path, hint);
                        CallStep::Done(Ok(CallReply::Attr(make_attr(ino, kind, 0, Times::Now))))
                    },
                    Step::Done(Err(_)) => CallStep::Done(Err(Errno::Io)),
                }
            },
            State::Unlinking { path, op } => match op.step(event, now) {
                Step::Next(op, a) => goes_on(State::Unlinking { path, op }, a),
                Step::Done(Ok(_)) => {
                    self.inodes.remove(&path);
                    CallStep::Done(Ok(CallReply::Gone))
                },
                Step::Done(Err(FvfsError::NotFound { .. })) => CallStep::Done(Err(Errno::NoEntry)),
                Step::Done(Err(_)) => CallStep::Done(Err(Errno::Io)),
            },
            State::Listing { ino, offset, op } => {
                let ids = listed_ids(&event);
                match op.step(event, now) {
                    Step::Next(op, a) => goes_on(State::Listing { ino, offset, op }, a),
                    Step::Done(Ok(Reply::Entries(entries))) => {
                        assert(crate::router::listed(entries@).len() == entries@.len());
                        if entries.len() as u64 <= 0x7fff_ffff_ffff_fffcu64 {
                            CallStep::Done(
                                Ok(CallReply::Stream(DirStream::open(ino, entries, ids, offset))),
                            )
                        } else {
                            CallStep::Done(Err(Errno::Io))
                        }
                    },
                    Step::Done(_) => CallStep::Done(Err(Errno::Io)),
                }
            },
            State::Truncating { ino, path, op } => match op.step(event, now) {
                Step::Next(op, a) => goes_on(State::Truncating { ino, path, op }, a),
                Step::Done(_) => self.getattr(ino),
            },
        }
    }
}

// ---------------------------------------------------------------------------
// Laws of the mount

/// Whatever answers the calls get, the mount's numbers and paths stay one to one.
pub proof fn law_calls_keep_bijection(t: InodesView, s: CallView, e: EventView, now: i64)
    requires
        bijective(t),
        has_number(t),
    ensures
        bijective(call_table(t, s, e, now)),
{
    match s {
        CallView::Lookup { path } => {
            if let EventView::Meta(Ok(Some(m))) = e {
                crate::fuse::law_alloc_keeps_bijection(t, path, hinted(m));
            }
        },
        CallView::Creating { path, id, op, .. } => {
            crate::fuse::law_alloc_keeps_bijection(t, path, made_hint(told_id(id, op, e)));
        },
        CallView::Unlinking { path, .. } => {
            crate::fuse::law_remove_keeps_bijection(t, path);
        },
        _ => {},
    }
}

/// The number proposed is the one that is given, unless it is the root's or in use; and a
/// path that has a number keeps it.
pub proof fn law_proposed_number(t: InodesView, path: Seq<char>, id: i64)
    ensures
        !t.inos.contains_key(path) && id as u64 != ROOT_INO && !t.paths.contains_key(id as u64)
            ==> ino_for(t, path, Some(id as u64)) == id as u64,
        t.inos.contains_key(path) ==> ino_for(t, path, Some(id as u64)) == t.inos[path],
{
}

/// An entry that is looked up has its id proposed for its number.
pub proof fn law_found_numbers_are_ids(t: InodesView, path: Seq<char>, m: MetaView, now: i64)
    ensures
        call_step(t, CallView::Lookup { path }, EventView::Meta(Ok(Some(m))), now)
            == CallStepView::Done(
            Ok(CallReplyView::Attr(attr_of(ino_for(t, path, Some(m.id as u64)), m))),
        ),
        call_table(t, CallView::Lookup { path }, EventView::Meta(Ok(Some(m))), now) == with_path(
            t,
            path,
            Some(m.id as u64),
        ),
{
}

/// An entry that a directory stream shows has its id proposed for its number: the stream of
/// a listing shows each listed entry in its place, whatever numbers were given before.
pub proof fn law_listed_numbers_are_ids(
    t: InodesView,
    ino: u64,
    offset: i64,
    ms: Seq<MetaView>,
    now: i64,
    later: InodesView,
    i: int,
)
    requires
        streamable(ms.len()),
        0 <= i < ms.len(),
    ensures
        call_step(
            t,
            CallView::Listing { ino, offset, op: RouterView::ListMeta },
            EventView::Listing(Ok(ms)),
            now,
        ) matches CallStepView::Done(Ok(CallReplyView::Stream(s))) && {
            &&& s.entries == crate::router::entries_of(ms)
            &&& dir_item(later, ino, s.entries, s.ids, i + 2).ino == ino_for(
                later,
                ms[i].path,
                Some(ms[i].id as u64),
            )
            &&& shown(later, s.entries, s.ids, i + 2) == with_path(
                later,
                ms[i].path,
                Some(ms[i].id as u64),
            )
        },
{
    let es = crate::router::entries_of(ms);
    let ids = ids_of(EventView::Listing(Ok(ms)));
    assert(es.len() == ms.len());
    assert(ids[i] == ms[i].id as u64);
    assert(es[i] == crate::types::entry_of(ms[i]));
}

// ---------------------------------------------------------------------------
// How a creation runs

/// How a call ends: the world and the table then, and the reply.
pub struct CallOutcome {
    pub world: World,
    pub table: InodesView,
    pub result: Result<CallReplyView, Errno>,
}

/// How a call that has come to `s`, and makes the request `a` as the `k`-th, ends within
/// `fuel` requests.
pub open spec fn run_call(env: Env, k: nat, w: World, t: InodesView, s: CallView, a: ActionView, fuel: nat) -> Option<
    CallOutcome,
>
    decreases fuel,
{
    if fuel == 0 {
        None
    } else {
        let (w2, e) = perform(env, k, w, a);
        let t2 = call_table(t, s, e, (env.clock)(k));
        match call_step(t, s, e, (env.clock)(k)) {
            CallStepView::Done(r) => Some(CallOutcome { world: w2, table: t2, result: r }),
            CallStepView::Next(s2, a2) => run_call(env, k + 1, w2, t2, s2, a2, (fuel - 1) as nat),
        }
    }
}

/// What a creation replies, and does to the table, once the operation has ended so.
spec fn created(t: InodesView, path: Seq<char>, kind: EntryKind, id: Option<i64>, end: Outcome) -> CallOutcome {
    let hint = made_hint(id);
    if end.result is Ok {
        CallOutcome {
            world: end.world,
            table: with_path(t, path, hint),
            result: Ok(CallReplyView::Attr(attr(ino_for(t, path, hint), kind, 0, Times::Now))),
        }
    } else {
        CallOutcome { world: end.world, table: t, result: Err(Errno::Io) }
    }
}

/// The entry is made, and what is above it and behind it is at work.
spec fn past_entry(s: RouterView, a: ActionView) -> bool {
    ||| s is FindDir && a is Lookup
    ||| s is MakeDir && a is Upsert
    ||| s is EnqueueNas && a is WalEnqueue
    ||| s is EnqueueS3 && a is WalEnqueue
}

/// Once the entry is made, a creation goes as the operation does by itself, and knows the id.
proof fn lemma_creation_ends(
    env: Env,
    k: nat,
    w: World,
    t: InodesView,
    path: Seq<char>,
    kind: EntryKind,
    id: Option<i64>,
    op: RouterView,
    a: ActionView,
    fuel: nat,
)
    requires
        past_entry(op, a),
    ensures
        run_call(env, k, w, t, CallView::Creating { path, kind, id, op }, a, fuel) == (match run(
            env,
            k,
            w,
            op,
            a,
            fuel,
        ) {
            Some(end) => Some(created(t, path, kind, id, end)),
            None => None,
        }),
    decreases fuel,
{
    if fuel > 0 {
        let (w2, e) = perform(env, k, w, a);
        assert((env.faults)(k) is None || (env.faults)(k) is Some);
        if let StepView::Next(op2, a2) = crate::router::router_step(op, e, (env.clock)(k)) {
            assert(past_entry(op2, a2));
            lemma_creation_ends(env, k + 1, w2, t, path, kind, id, op2, a2, (fuel - 1) as nat);
        }
    }
}

/// From the step to the directories above on.
proof fn lemma_creation_climbs(
    env: Env,
    k: nat,
    w: World,
    t: InodesView,
    path: Seq<char>,
    kind: EntryKind,
    id: i64,
    after: crate::router::After,
    fuel: nat,
)
    ensures
        crate::router::climb(path, after) matches StepView::Next(op, a) ==> run_call(
            env,
            k,
            w,
            t,
            CallView::Creating { path, kind, id: Some(id), op },
            a,
            fuel,
        ) == (match crate::guarantees::run_step(env, k, w, crate::router::climb(path, after), fuel) {
            Some(end) => Some(created(t, path, kind, Some(id), end)),
            None => None,
        }),
{
    if let StepView::Next(op, a) = crate::router::climb(path, after) {
        lemma_creation_ends(env, k, w, t, path, kind, Some(id), op, a, fuel);
    }
}

/// A file that is created has the id of its entry proposed for its number. If the call
/// succeeds, an empty file was written, and the reply and the table have that number.
pub proof fn law_created_numbers_are_ids(env: Env, w: World, t: InodesView, path: Seq<char>, fuel: nat)
    requires
        crate::path::valid_path(path),
        fuel >= 2 * crate::path::components(path).len() + 4,
    ensures
        run_call(
            env,
            0,
            w,
            t,
            CallView::Creating {
                path,
                kind: EntryKind::File,
                id: None,
                op: write_op(path, Seq::empty()),
            },
            ActionView::Put { tier: Tier::Local, path, data: Seq::empty() },
            fuel,
        ) matches Some(end) && {
            let number = Some(end.world.files[path].id as u64);
            &&& crate::world::healthy(env) ==> end.result is Ok
            &&& end.result is Ok ==> {
                &&& crate::guarantees::written(w, end.world, path, Seq::empty())
                &&& end.result == Ok::<CallReplyView, Errno>(
                    CallReplyView::Attr(
                        attr(ino_for(t, path, number), EntryKind::File, 0, Times::Now),
                    ),
                )
                &&& end.table == with_path(t, path, number)
            }
            &&& end.result is Err ==> end.table == t && end.result == Err::<CallReplyView, Errno>(Errno::Io)
        },
{
    let data = Seq::<u8>::empty();
    let op = write_op(path, data);
    let put = ActionView::Put { tier: Tier::Local, path, data };
    let kind = EntryKind::File;
    let s0 = CallView::Creating { path, kind, id: None, op };
    crate::guarantees::law_write(env, w, path, data, fuel);
    assert((env.faults)(0) is None || (env.faults)(0) is Some);
    assert((env.faults)(1) is None || (env.faults)(1) is Some);
    let now = (env.clock)(0);
    let meta = crate::router::written_file(path, 0, crate::digest::content_hash(data), now);
    let w1 = World { local: w.local.insert(path, data), ..w };
    let s1 = CallView::Creating { path, kind, id: None, op: RouterView::WriteUpsert { path } };
    let store = ActionView::Upsert { meta };
    if (env.faults)(0) is None {
        let less = (fuel - 1) as nat;
        assert(run_call(env, 0, w, t, s0, put, fuel) == run_call(env, 1, w1, t, s1, store, less));
        assert(crate::guarantees::run_write(env, w, path, data, fuel) == run(
            env,
            1,
            w1,
            RouterView::WriteUpsert { path },
            store,
            less,
        ));
        if (env.faults)(1) is None {
            let id = crate::world::upserted(w1, meta).id;
            let w2 = crate::world::after_upsert(w1, meta);
            let after = crate::router::After::Replicate(id);
            lemma_creation_climbs(env, 2, w2, t, path, kind, id, after, (fuel - 2) as nat);
        }
    }
}

/// A directory that is created has the id of its entry proposed for its number.
pub proof fn law_made_dir_numbers_are_ids(env: Env, w: World, t: InodesView, path: Seq<char>, now: i64, fuel: nat)
    requires
        crate::path::valid_path(path),
        fuel >= 2 * crate::path::components(path).len() + 3,
    ensures
        run_call(
            env,
            0,
            w,
            t,
            CallView::Creating {
                path,
                kind: EntryKind::Directory,
                id: None,
                op: RouterView::MkdirUpsert { path },
            },
            ActionView::Upsert { meta: crate::types::fresh_dir(path, now) },
            fuel,
        ) matches Some(end) && {
            let number = Some(end.world.files[path].id as u64);
            &&& crate::world::healthy(env) ==> end.result is Ok
            &&& end.result is Ok ==> {
                &&& end.world.files.contains_key(path)
                &&& end.world.files[path].kind == EntryKind::Directory
                &&& end.world.files[path].modified_at == now
                &&& forall|q: Seq<char>|
                    crate::path::valid_path(q) && #[trigger] crate::path::path_prefix(q, path)
                        ==> end.world.files.contains_key(q)
                &&& end.result == Ok::<CallReplyView, Errno>(
                    CallReplyView::Attr(
                        attr(ino_for(t, path, number), EntryKind::Directory, 0, Times::Now),
                    ),
                )
                &&& end.table == with_path(t, path, number)
            }
            &&& end.result is Err ==> end.table == t && end.result == Err::<CallReplyView, Errno>(Errno::Io)
        },
{
    let kind = EntryKind::Directory;
    let meta = crate::types::fresh_dir(path, now);
    crate::guarantees::law_mkdir(env, w, path, now, fuel);
    assert((env.faults)(0) is None || (env.faults)(0) is Some);
    if (env.faults)(0) is None {
        let id = crate::world::upserted(w, meta).id;
        let w1 = crate::world::after_upsert(w, meta);
        let after = crate::router::After::Finish;
        lemma_creation_climbs(env, 1, w1, t, path, kind, id, after, (fuel - 1) as nat);
    }
}

} // verus!
