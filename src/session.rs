//! The adapter's session: parent hints, open handles and the decisions that
//! each kernel operation takes. Store work stays with the caller: an operation
//! that needs the store takes what the store answered as an argument, or
//! returns what should be asked of it.
use vstd::prelude::*;
use crate::attrs::{GenericAttrs, FileKind, attrs_of, kind_of, root_attrs, root_attrs_spec, to_generic_attrs};
use crate::handles::HandleTable;
use crate::ino_cache::{CacheEntry, INOCache, parent_in, recorded};
use crate::node::{Node, ROOT_INO, is_dot_entry, is_dot_name};

verus! {

/// The open flag that asks for truncation on open (`O_TRUNC` on Linux).
pub const OPEN_TRUNC: i32 = 0o1000;

/// Mask of the access-mode bits echoed back when a file is created.
pub const CREATE_MODE_MASK: u32 = 0b111;

/// Why an operation failed.
#[derive(Clone, Copy, Debug, PartialEq, Eq, Structural)]
pub enum FsError {
    /// A name or identifier does not resolve.
    NotFound,
    /// The operation needs a parent hint for the inode and none is recorded.
    Io,
    /// An open flag that is not supported, or a negative offset.
    InvalidArgument,
    /// The operation is not implemented.
    NotSupported,
}

/// One entry of a directory listing as the kernel gets it.
#[derive(Clone, Debug, PartialEq, Eq)]
pub struct DirEntry {
    pub ino: u64,
    pub kind: FileKind,
    pub name: String,
}

/// A rewrite of an entity's header that the store should perform.
#[derive(Debug)]
pub struct HeaderRewrite {
    pub parent: u64,
    pub old_entity: Node,
    pub new_entity: Node,
}

/// Answer to `setattr`: the record to reply with, and the header rewrite that
/// the store should perform first, if any.
#[derive(Debug)]
pub struct SetattrOutcome {
    pub attrs: GenericAttrs,
    pub rewrite: Option<HeaderRewrite>,
}

/// A handle handed out by `open`, `opendir` or `create`, with the flags to echo.
#[derive(Clone, Copy, Debug, PartialEq, Eq, Structural)]
pub struct Opened {
    pub fh: u64,
    pub flags: u32,
}

/// Answer to `create`.
#[derive(Clone, Copy, Debug, PartialEq, Eq, Structural)]
pub struct Created {
    pub attrs: GenericAttrs,
    pub fh: u64,
    pub flags: u32,
}

/// A read that the store should perform: `len` bytes of `entity` from `offset`.
#[derive(Debug)]
pub struct ReadRequest {
    pub entity: Node,
    pub offset: u64,
    pub len: usize,
}

/// A write that the store should perform: the data at `offset` of `entity`,
/// which lies in the directory `parent`; `written` is the count to reply with.
#[derive(Debug)]
pub struct WriteRequest {
    pub parent: u64,
    pub entity: Node,
    pub offset: u64,
    pub written: u32,
}

/// Filesystem statistics: the adapter reports no usage.
#[derive(Clone, Copy, Debug, PartialEq, Eq, Structural)]
pub struct StatfsReply {
    pub blocks: u64,
    pub bfree: u64,
    pub bavail: u64,
    pub files: u64,
    pub ffree: u64,
    pub bsize: u32,
    pub namelen: u32,
    pub frsize: u32,
}

/// Operations that touch no session state and no store.
#[derive(Clone, Copy, Debug, PartialEq, Eq, Structural)]
pub enum PlainOp {
    Init,
    Destroy,
    Forget,
    Flush,
    Fsync,
    Releasedir,
    Fsyncdir,
    Readlink,
    Mknod,
    Rmdir,
    Symlink,
    Rename,
    Link,
    Readdirplus,
    Setxattr,
    Getxattr,
    Listxattr,
    Removexattr,
    Getlk,
    Setlk,
    Bmap,
    Ioctl,
    Fallocate,
    Lseek,
    CopyFileRange,
}

/// The operations that succeed without doing anything.
pub open spec fn is_no_op(op: PlainOp) -> bool {
    match op {
        PlainOp::Init | PlainOp::Destroy | PlainOp::Forget | PlainOp::Flush | PlainOp::Fsync
        | PlainOp::Releasedir | PlainOp::Fsyncdir => true,
        _ => false,
    }
}

/// Index of the first child named `name`.
pub open spec fn first_named(children: Seq<Node>, name: Seq<char>) -> Option<int>
    decreases children.len(),
{
    if children.len() == 0 {
        None
    } else if children[0].name@ == name {
        Some(0)
    } else {
        match first_named(children.drop_first(), name) {
            Some(i) => Some(i + 1),
            None => None,
        }
    }
}

pub proof fn lemma_first_named(children: Seq<Node>, name: Seq<char>)
    ensures
        match first_named(children, name) {
            Some(i) => 0 <= i < children.len() && children[i].name@ == name
                && forall|j: int| 0 <= j < i ==> #[trigger] children[j].name@ != name,
            None => forall|j: int| 0 <= j < children.len() ==> #[trigger] children[j].name@ != name,
        },
    decreases children.len(),
{
    if children.len() > 0 {
        lemma_first_named(children.drop_first(), name);
        if children[0].name@ != name {
            assert forall|j: int| 0 < j < children.len() implies #[trigger] children[j] == children.drop_first()[j - 1] by {}
        }
    }
}

proof fn lemma_first_named_at(children: Seq<Node>, name: Seq<char>, i: int)
    requires
        0 <= i < children.len(),
        children[i].name@ == name,
        forall|j: int| 0 <= j < i ==> #[trigger] children[j].name@ != name,
    ensures
        first_named(children, name) == Some(i),
{
    lemma_first_named(children, name);
    match first_named(children, name) {
        Some(k) => {
            if k < i {
            } else if k > i {
            }
        },
        None => {},
    }
}

/// The child named `name`, if the listing holds one.
pub open spec fn named_child(children: Seq<Node>, name: Seq<char>) -> Option<Node> {
    match first_named(children, name) {
        Some(i) => Some(children[i]),
        None => None,
    }
}

/// The parent to use for a data operation on `ino`, from the hints alone.
pub open spec fn data_parent(cache: Seq<CacheEntry>, ino: u64) -> Result<u64, FsError> {
    match parent_in(cache, ino) {
        Some(p) => Ok(p),
        None => Err(FsError::Io),
    }
}

/// The listing the kernel gets for the children of a directory.
pub open spec fn entry_of(c: Node) -> DirEntry {
    DirEntry { ino: c.id, kind: kind_of(c.is_dir), name: c.name }
}

/// The children of a listing other than `.` and `..`, in order.
pub open spec fn shown_children(children: Seq<Node>) -> Seq<Node> {
    children.filter(|c: Node| !is_dot_name(c.name@))
}

/// What `readdir` replies on handle `fh` with the open handles `open`, given
/// the directory's listing: every child but `.` and `..` if the handle is
/// open, else nothing.
pub open spec fn readdir_result(open: Map<u64, u64>, fh: u64, children: Seq<Node>) -> Seq<DirEntry> {
    if open.contains_key(fh) {
        shown_children(children).map_values(|c: Node| entry_of(c))
    } else {
        Seq::empty()
    }
}

/// The first child of a listing named `name`.
pub fn search_by_filename(children: &Vec<Node>, name: &String) -> (r: Option<Node>)
    ensures
        r == named_child(children@, name@),
{
    let mut i: usize = 0;
    while i < children.len()
        invariant
            i <= children@.len(),
            forall|j: int| 0 <= j < i ==> #[trigger] children@[j].name@ != name@,
        decreases children@.len() - i,
    {
        if children[i].name == *name {
            proof {
                lemma_first_named_at(children@, name@, i as int);
            }
            return Some(children[i].duplicate());
        }
        i += 1;
    }
    proof {
        lemma_first_named(children@, name@);
    }
    None
}

/// The session of one mount: hints, handles and the store's block size.
pub struct NoctFSFused {
    handles: HandleTable,
    ino_cache: INOCache,
    block_size: u64,
}

impl NoctFSFused {
    pub closed spec fn cache(&self) -> Seq<CacheEntry> {
        self.ino_cache@
    }

    pub closed spec fn open_handles(&self) -> Map<u64, u64> {
        self.handles@
    }

    /// The id that the next handle gets.
    pub closed spec fn next_handle(&self) -> u64 {
        self.handles.counter()
    }

    pub closed spec fn block_size(&self) -> u64 {
        self.block_size
    }

    pub closed spec fn wf(&self) -> bool {
        self.handles.wf() && self.ino_cache.wf()
    }

    /// The session a mount starts with, on a store whose blocks have
    /// `block_size` bytes.
    pub fn new(block_size: u64) -> (r: NoctFSFused)
        ensures
            r.wf(),
            r.cache() == Seq::<CacheEntry>::empty(),
            r.open_handles() == Map::<u64, u64>::empty(),
            r.next_handle() == 0,
            r.block_size() == block_size,
    {
        NoctFSFused { handles: HandleTable::new(), ino_cache: INOCache::new(), block_size }
    }

    /// Whether the handle counter can still hand out an id.
    pub fn can_open(&self) -> (r: bool)
        ensures
            r == (self.next_handle() < u64::MAX),
    {
        self.handles.current_fh() < u64::MAX
    }

    fn open_handle(&mut self, ino: u64) -> (fh: u64)
        requires
            old(self).wf(),
            old(self).next_handle() < u64::MAX,
        ensures
            final(self).wf(),
            fh == old(self).next_handle(),
            final(self).next_handle() == old(self).next_handle() + 1,
            final(self).open_handles() == old(self).open_handles().insert(fh, ino),
            final(self).cache() == old(self).cache(),
            final(self).block_size() == old(self).block_size(),
    {
        proof {
            crate::handles::lemma_handle_lifecycle(self.handles, 0);
        }
        let fh = self.handles.next_fh();
        self.handles.allocate_fh(fh, ino);
        fh
    }

    /// Resolves `name` in the listing of `parent`. On a hit, records `parent`
    /// as the child's parent hint and answers with the child's record.
    pub fn lookup(&mut self, parent: u64, name: &String, children: &Vec<Node>) -> (r: Result<GenericAttrs, FsError>)
        requires
            old(self).wf(),
        ensures
            final(self).wf(),
            final(self).open_handles() == old(self).open_handles(),
            final(self).next_handle() == old(self).next_handle(),
            final(self).block_size() == old(self).block_size(),
            match named_child(children@, name@) {
                Some(c) => r == Ok::<GenericAttrs, FsError>(attrs_of(c, old(self).block_size()))
                    && final(self).cache() == recorded(old(self).cache(), parent, c.id),
                None => r == Err::<GenericAttrs, FsError>(FsError::NotFound)
                    && final(self).cache() == old(self).cache(),
            },
    {
        match search_by_filename(children, name) {
            Some(c) => {
                self.ino_cache.add(parent, c.id);
                Ok(to_generic_attrs(&c, self.block_size))
            },
            None => Err(FsError::NotFound),
        }
    }

    /// The record of `ino`: fixed for the mount root, else that of `resolved`,
    /// the entity that the tree search found for it.
    pub fn getattr(&self, ino: u64, resolved: Option<Node>) -> (r: Result<GenericAttrs, FsError>)
        ensures
            r == (if ino == ROOT_INO {
                Ok(root_attrs_spec(self.block_size()))
            } else {
                match resolved {
                    Some(e) => Ok(attrs_of(e, self.block_size())),
                    None => Err(FsError::NotFound),
                }
            }),
    {
        if ino == ROOT_INO {
            Ok(root_attrs(self.block_size))
        } else {
            match resolved {
                Some(e) => Ok(to_generic_attrs(&e, self.block_size)),
                None => Err(FsError::NotFound),
            }
        }
    }

    /// Changes the size of `ino`, the entity `resolved` that the tree search
    /// found. Growing is not supported: a larger size leaves the entity as it
    /// is and succeeds. A smaller or equal size rewrites the header through the
    /// parent hint, and fails with `Io` where no hint is recorded.
    pub fn setattr(&mut self, ino: u64, size: Option<u64>, resolved: Option<Node>) -> (r: Result<SetattrOutcome, FsError>)
        requires
            old(self).wf(),
        ensures
            *final(self) == *old(self),
            match resolved {
                None => r == Err::<SetattrOutcome, FsError>(FsError::NotFound),
                Some(e) => match size {
                    Some(n) if n <= e.size => match parent_in(old(self).cache(), ino) {
                        Some(p) => r == Ok::<SetattrOutcome, FsError>(SetattrOutcome {
                            attrs: attrs_of(Node { size: n, ..e }, old(self).block_size()),
                            rewrite: Some(HeaderRewrite { parent: p, old_entity: e, new_entity: Node { size: n, ..e } }),
                        }),
                        None => r == Err::<SetattrOutcome, FsError>(FsError::Io),
                    },
                    _ => r == Ok::<SetattrOutcome, FsError>(SetattrOutcome {
                        attrs: attrs_of(e, old(self).block_size()),
                        rewrite: None,
                    }),
                },
            },
    {
        let e = match resolved {
            Some(e) => e,
            None => {
                return Err(FsError::NotFound);
            },
        };
        match size {
            Some(n) => {
                if n <= e.size {
                    match self.ino_cache.find_parent(ino) {
                        Some(p) => {
                            let new_entity = Node { id: e.id, name: e.name.clone(), size: n, is_dir: e.is_dir };
                            let attrs = to_generic_attrs(&new_entity, self.block_size);
                            Ok(SetattrOutcome {
                                attrs,
                                rewrite: Some(HeaderRewrite { parent: p, old_entity: e, new_entity }),
                            })
                        },
                        None => Err(FsError::Io),
                    }
                } else {
                    Ok(SetattrOutcome { attrs: to_generic_attrs(&e, self.block_size), rewrite: None })
                }
            },
            None => Ok(SetattrOutcome { attrs: to_generic_attrs(&e, self.block_size), rewrite: None }),
        }
    }

    /// Takes the directory that the store created in `parent`: records the
    /// parent hint and answers with its record.
    pub fn mkdir(&mut self, parent: u64, created: &Node) -> (r: GenericAttrs)
        requires
            old(self).wf(),
        ensures
            final(self).wf(),
            r == attrs_of(*created, old(self).block_size()),
            final(self).cache() == recorded(old(self).cache(), parent, created.id),
            final(self).open_handles() == old(self).open_handles(),
            final(self).next_handle() == old(self).next_handle(),
            final(self).block_size() == old(self).block_size(),
    {
        let attrs = to_generic_attrs(created, self.block_size);
        self.ino_cache.add(parent, created.id);
        attrs
    }

    /// Takes the file that the store created in `parent`: opens a handle on it,
    /// records the parent hint, and answers with its record, the handle and the
    /// access-mode bits of `flags`.
    pub fn create(&mut self, parent: u64, created: &Node, flags: i32) -> (r: Created)
        requires
            old(self).wf(),
            old(self).next_handle() < u64::MAX,
        ensures
            final(self).wf(),
            r == (Created {
                attrs: attrs_of(*created, old(self).block_size()),
                fh: old(self).next_handle(),
                flags: flags as u32 & CREATE_MODE_MASK,
            }),
            final(self).next_handle() == old(self).next_handle() + 1,
            final(self).open_handles() == old(self).open_handles().insert(r.fh, created.id),
            final(self).cache() == recorded(old(self).cache(), parent, created.id),
            final(self).block_size() == old(self).block_size(),
    {
        let fh = self.open_handle(created.id);
        self.ino_cache.add(parent, created.id);
        Created { attrs: to_generic_attrs(created, self.block_size), fh, flags: flags as u32 & CREATE_MODE_MASK }
    }

    /// The entity to delete for `unlink` of `name`, from the listing of its
    /// directory.
    pub fn unlink(&self, name: &String, children: &Vec<Node>) -> (r: Result<Node, FsError>)
        ensures
            r == (match named_child(children@, name@) {
                Some(c) => Ok(c),
                None => Err(FsError::NotFound),
            }),
    {
        match search_by_filename(children, name) {
            Some(c) => Ok(c),
            None => Err(FsError::NotFound),
        }
    }

    /// Opens `ino` with `flags`: truncation on open is refused; otherwise a new
    /// handle is bound to `ino` and the flags are echoed back.
    pub fn open(&mut self, ino: u64, flags: i32) -> (r: Result<Opened, FsError>)
        requires
            old(self).wf(),
            old(self).next_handle() < u64::MAX,
        ensures
            final(self).wf(),
            final(self).cache() == old(self).cache(),
            final(self).block_size() == old(self).block_size(),
            if flags & OPEN_TRUNC != 0 {
                r == Err::<Opened, FsError>(FsError::InvalidArgument) && *final(self) == *old(self)
            } else {
                r == Ok::<Opened, FsError>(Opened { fh: old(self).next_handle(), flags: flags as u32 })
                    && final(self).next_handle() == old(self).next_handle() + 1
                    && final(self).open_handles() == old(self).open_handles().insert(old(self).next_handle(), ino)
            },
    {
        if flags & OPEN_TRUNC != 0 {
            return Err(FsError::InvalidArgument);
        }
        let fh = self.open_handle(ino);
        Ok(Opened { fh, flags: flags as u32 })
    }

    /// The parent directory of `ino` for a read or a write, from the hints
    /// alone: with no hint recorded the operation fails with `Io`, and the tree
    /// is not searched.
    pub fn data_parent(&mut self, ino: u64) -> (r: Result<u64, FsError>)
        ensures
            *final(self) == *old(self),
            r == data_parent(old(self).cache(), ino),
    {
        match self.ino_cache.find_parent(ino) {
            Some(p) => Ok(p),
            None => Err(FsError::Io),
        }
    }

    /// The read to perform once the store resolved the entity in its parent:
    /// `size` bytes from `offset`, or `NotFound` where the store has no such
    /// entity.
    pub fn read_request(&self, entity: Option<Node>, offset: i64, size: u32) -> (r: Result<ReadRequest, FsError>)
        ensures
            match entity {
                None => r == Err::<ReadRequest, FsError>(FsError::NotFound),
                Some(e) => r == Ok::<ReadRequest, FsError>(ReadRequest { entity: e, offset: offset as u64, len: size as usize }),
            },
    {
        match entity {
            None => Err(FsError::NotFound),
            Some(e) => Ok(ReadRequest { entity: e, offset: offset as u64, len: size as usize }),
        }
    }

    /// The write to perform once the store resolved the entity in `parent`.
    /// A negative offset is refused; the reply counts every byte of the data.
    pub fn write_request(&self, parent: u64, entity: Option<Node>, offset: i64, data_len: usize) -> (r: Result<WriteRequest, FsError>)
        ensures
            match entity {
                None => r == Err::<WriteRequest, FsError>(FsError::NotFound),
                Some(e) => if offset < 0 {
                    r == Err::<WriteRequest, FsError>(FsError::InvalidArgument)
                } else {
                    r == Ok::<WriteRequest, FsError>(WriteRequest { parent, entity: e, offset: offset as u64, written: data_len as u32 })
                },
            },
    {
        match entity {
            None => Err(FsError::NotFound),
            Some(e) => {
                if offset < 0 {
                    Err(FsError::InvalidArgument)
                } else {
                    Ok(WriteRequest { parent, entity: e, offset: offset as u64, written: data_len as u32 })
                }
            },
        }
    }

    /// Opens the directory `ino`: the mount root always, any other inode when
    /// the tree search found it (`resolved`) and it is a directory.
    pub fn opendir(&mut self, ino: u64, flags: i32, resolved: Option<Node>) -> (r: Result<Opened, FsError>)
        requires
            old(self).wf(),
            old(self).next_handle() < u64::MAX,
        ensures
            final(self).wf(),
            final(self).cache() == old(self).cache(),
            final(self).block_size() == old(self).block_size(),
            if ino == ROOT_INO || (resolved is Some && resolved->Some_0.is_dir) {
                r == Ok::<Opened, FsError>(Opened { fh: old(self).next_handle(), flags: flags as u32 })
                    && final(self).next_handle() == old(self).next_handle() + 1
                    && final(self).open_handles() == old(self).open_handles().insert(old(self).next_handle(), ino)
            } else {
                r == Err::<Opened, FsError>(FsError::NotFound) && *final(self) == *old(self)
            },
    {
        if ino != ROOT_INO {
            match resolved {
                Some(e) => {
                    if !e.is_dir {
                        return Err(FsError::NotFound);
                    }
                },
                None => {
                    return Err(FsError::NotFound);
                },
            }
        }
        let fh = self.open_handle(ino);
        Ok(Opened { fh, flags: flags as u32 })
    }

    /// Whether a `readdir` on `fh` needs the directory's listing: only while
    /// the handle is open.
    pub fn readdir_needs_listing(&self, fh: u64) -> (r: bool)
        requires
            self.wf(),
        ensures
            r == self.open_handles().contains_key(fh),
    {
        self.handles.is_fh_allocated(fh)
    }

    /// Lists a directory once per handle: with `fh` open, every child of the
    /// listing but `.` and `..` is replied and the handle is released; otherwise the reply is
    /// empty and nothing changes.
    pub fn readdir(&mut self, fh: u64, children: &Vec<Node>) -> (r: Vec<DirEntry>)
        requires
            old(self).wf(),
        ensures
            final(self).wf(),
            r@ == readdir_result(old(self).open_handles(), fh, children@),
            final(self).open_handles() == old(self).open_handles().remove(fh),
            final(self).next_handle() == old(self).next_handle(),
            final(self).cache() == old(self).cache(),
            final(self).block_size() == old(self).block_size(),
    {
        if !self.handles.is_fh_allocated(fh) {
            proof {
                assert(self.handles@.remove(fh) =~= self.handles@);
            }
            return Vec::new();
        }
        let mut out: Vec<DirEntry> = Vec::new();
        let mut i: usize = 0;
        while i < children.len()
            invariant
                i <= children@.len(),
                out@ == shown_children(children@.subrange(0, i as int)).map_values(|c: Node| entry_of(c)),
            decreases children@.len() - i,
        {
            let c = &children[i];
            let ghost before = shown_children(children@.subrange(0, i as int));
            proof {
                let s1 = children@.subrange(0, i + 1);
                assert(s1.drop_last() =~= children@.subrange(0, i as int));
                assert(s1.last() == children@[i as int]);
                reveal(Seq::filter);
                assert(shown_children(s1) == (if is_dot_name(c.name@) { before } else { before.push(*c) }));
            }
            if !is_dot_entry(&c.name) {
                out.push(DirEntry {
                    ino: c.id,
                    kind: if c.is_dir { FileKind::Directory } else { FileKind::RegularFile },
                    name: c.name.clone(),
                });
                proof {
                    assert(out@ =~= before.push(*c).map_values(|c: Node| entry_of(c)));
                }
            }
            i += 1;
        }
        proof {
            assert(children@.subrange(0, children@.len() as int) =~= children@);
        }
        self.handles.free_fh(fh);
        out
    }

    /// Releases a file handle; releasing one that is not open changes nothing.
    pub fn release(&mut self, fh: u64) -> (r: Result<(), FsError>)
        requires
            old(self).wf(),
        ensures
            final(self).wf(),
            r is Ok,
            final(self).open_handles() == old(self).open_handles().remove(fh),
            final(self).next_handle() == old(self).next_handle(),
            final(self).cache() == old(self).cache(),
            final(self).block_size() == old(self).block_size(),
    {
        self.handles.free_fh(fh);
        Ok(())
    }

    /// `access` succeeds exactly when the tree search found the inode.
    pub fn access(&self, resolved: Option<Node>) -> (r: Result<(), FsError>)
        ensures
            r == (if resolved is Some { Ok::<(), FsError>(()) } else { Err(FsError::NotFound) }),
    {
        match resolved {
            Some(_) => Ok(()),
            None => Err(FsError::NotFound),
        }
    }

    /// Statistics of the filesystem: no usage, 512-byte blocks, names of up to
    /// 255 bytes.
    pub fn statfs(&self) -> (r: StatfsReply)
        ensures
            r == (StatfsReply { blocks: 0, bfree: 0, bavail: 0, files: 0, ffree: 0, bsize: 512, namelen: 255, frsize: 0 }),
    {
        StatfsReply { blocks: 0, bfree: 0, bavail: 0, files: 0, ffree: 0, bsize: 512, namelen: 255, frsize: 0 }
    }

    /// The answer to an operation that needs neither the session nor the
    /// store: flushes, syncs and directory release succeed, the rest are not
    /// supported.
    pub fn plain(&self, op: PlainOp) -> (r: Result<(), FsError>)
        ensures
            r == (if is_no_op(op) { Ok::<(), FsError>(()) } else { Err(FsError::NotSupported) }),
    {
        match op {
            PlainOp::Init | PlainOp::Destroy | PlainOp::Forget | PlainOp::Flush | PlainOp::Fsync
            | PlainOp::Releasedir | PlainOp::Fsyncdir => Ok(()),
            _ => Err(FsError::NotSupported),
        }
    }
}

/// A read or write right after a lookup or create recorded `(parent, ino)`
/// finds a parent for `ino`; on an inode that no hint names it fails with `Io`.
pub proof fn lemma_lookup_then_read(cache: Seq<CacheEntry>, parent: u64, ino: u64)
    ensures
        data_parent(recorded(cache, parent, ino), ino) is Ok,
        (forall|j: int| 0 <= j < cache.len() ==> #[trigger] cache[j].ino != ino)
            ==> data_parent(cache, ino) == Err::<u64, FsError>(FsError::Io),
{
    crate::ino_cache::lemma_record_then_resolve(cache, parent, ino);
    crate::ino_cache::lemma_first_index(cache, ino);
    if forall|j: int| 0 <= j < cache.len() ==> #[trigger] cache[j].ino != ino {
        match crate::ino_cache::first_index(cache, ino) {
            Some(i) => {
                assert(cache[i].ino != ino);
            },
            None => {},
        }
    }
}

/// A directory handle serves one listing: the first `readdir` on an open
/// handle replies every child but `.` and `..`, in order, and releases the
/// handle, so a second `readdir` on it replies nothing.
pub proof fn lemma_readdir_single_shot(open: Map<u64, u64>, fh: u64, first: Seq<Node>, second: Seq<Node>)
    requires
        open.contains_key(fh),
    ensures
        readdir_result(open, fh, first).len() == shown_children(first).len(),
        forall|i: int|
            0 <= i < shown_children(first).len() ==> #[trigger] readdir_result(open, fh, first)[i]
                == entry_of(shown_children(first)[i]) && !is_dot_name(readdir_result(open, fh, first)[i].name@),
        forall|j: int|
            0 <= j < first.len() && !is_dot_name(#[trigger] first[j].name@) ==> shown_children(first).contains(first[j]),
        readdir_result(open.remove(fh), fh, second) == Seq::<DirEntry>::empty(),
{
    let pred = |c: Node| !is_dot_name(c.name@);
    assert forall|i: int| 0 <= i < shown_children(first).len() implies !is_dot_name(
        #[trigger] shown_children(first)[i].name@,
    ) by {
        first.lemma_filter_pred(pred, i);
    }
    assert forall|j: int| 0 <= j < first.len() && !is_dot_name(#[trigger] first[j].name@) implies shown_children(first).contains(first[j]) by {
        first.lemma_filter_contains(pred, j);
    }
}

proof fn lemma_shown_from(children: Seq<Node>)
    ensures
        forall|i: int| 0 <= i < shown_children(children).len() ==> children.contains(#[trigger] shown_children(children)[i]),
    decreases children.len(),
{
    reveal(Seq::filter);
    if children.len() > 0 {
        let rest = children.drop_last();
        lemma_shown_from(rest);
        assert forall|i: int| 0 <= i < shown_children(children).len() implies children.contains(
            #[trigger] shown_children(children)[i],
        ) by {
            let x = shown_children(children)[i];
            if i < shown_children(rest).len() {
                assert(x == shown_children(rest)[i]);
                let k = choose|k: int| 0 <= k < rest.len() && rest[k] == x;
                assert(children[k] == x);
            } else {
                assert(x == children[children.len() - 1]);
            }
        }
    }
}

/// A listing shows what the store lists: a created entity (say, from `create`,
/// whose record carries the entity's identifier) that the directory's listing
/// holds appears in `readdir` under its identifier and kind, and an identifier
/// that the listing no longer holds (say, after `unlink`) appears in no entry.
pub proof fn lemma_listing_follows_store(open: Map<u64, u64>, fh: u64, children: Seq<Node>, n: Node, gone: u64)
    requires
        open.contains_key(fh),
    ensures
        children.contains(n) && !is_dot_name(n.name@) ==> readdir_result(open, fh, children).contains(entry_of(n)),
        (forall|j: int| 0 <= j < children.len() ==> #[trigger] children[j].id != gone) ==> forall|i: int|
            0 <= i < readdir_result(open, fh, children).len() ==> #[trigger] readdir_result(open, fh, children)[i].ino
                != gone,
{
    let pred = |c: Node| !is_dot_name(c.name@);
    let shown = shown_children(children);
    let r = readdir_result(open, fh, children);
    if children.contains(n) && !is_dot_name(n.name@) {
        let j = choose|j: int| 0 <= j < children.len() && children[j] == n;
        children.lemma_filter_contains(pred, j);
        let k = choose|k: int| 0 <= k < shown.len() && shown[k] == n;
        assert(r[k] == entry_of(n));
    }
    lemma_shown_from(children);
    if forall|j: int| 0 <= j < children.len() ==> #[trigger] children[j].id != gone {
        assert forall|i: int| 0 <= i < r.len() implies #[trigger] r[i].ino != gone by {
            assert(children.contains(shown[i]));
            let k = choose|k: int| 0 <= k < children.len() && children[k] == shown[i];
            assert(children[k].id != gone);
        }
    }
}

/// Handle ids are never reused: every open handle lies below the id that the
/// next `open`, `opendir` or `create` hands out, and each of them hands out
/// that id and advances it by one, while no other operation changes it.
pub proof fn lemma_next_handle_is_fresh(s: NoctFSFused)
    requires
        s.wf(),
    ensures
        forall|h: u64| #[trigger] s.open_handles().contains_key(h) ==> h < s.next_handle(),
{
    crate::handles::lemma_handle_lifecycle(s.handles, 0);
}

} // verus!
