//! Mapping of entities to the stat record that the kernel is given.
use vstd::prelude::*;
use crate::node::{Node, ROOT_INO};

verus! {

/// Permission bits of every inode: the store has no permission model.
pub const DEFAULT_PERM: u16 = 0o644;

/// Size reported for the mount root.
pub const ROOT_SIZE: u64 = 4096;

#[derive(Clone, Copy, Debug, PartialEq, Eq, Structural)]
pub enum FileKind {
    Directory,
    RegularFile,
}

/// A stat record. Timestamps are not held: all of them are the epoch but the
/// last access, which is the moment the record is handed to the kernel.
/// Owner, group, device, flags and link count are always zero.
#[derive(Clone, Copy, Debug, PartialEq, Eq, Structural)]
pub struct GenericAttrs {
    pub ino: u64,
    pub size: u64,
    pub blocks: u64,
    pub kind: FileKind,
    pub perm: u16,
    pub nlink: u32,
    pub uid: u32,
    pub gid: u32,
    pub rdev: u32,
    pub flags: u32,
    pub blksize: u32,
}

pub open spec fn kind_of(is_dir: bool) -> FileKind {
    if is_dir { FileKind::Directory } else { FileKind::RegularFile }
}

/// The record of an entity on a store with blocks of `block_size` bytes. The
/// block count is the size times the block size, wrapped to 64 bits.
pub open spec fn attrs_of(e: Node, block_size: u64) -> GenericAttrs {
    GenericAttrs {
        ino: e.id,
        size: e.size,
        blocks: ((e.size as int * block_size as int) % 0x1_0000_0000_0000_0000) as u64,
        kind: kind_of(e.is_dir),
        perm: DEFAULT_PERM,
        nlink: 0,
        uid: 0,
        gid: 0,
        rdev: 0,
        flags: 0,
        blksize: block_size as u32,
    }
}

/// The fixed record of the mount root.
pub open spec fn root_attrs_spec(block_size: u64) -> GenericAttrs {
    GenericAttrs {
        ino: ROOT_INO,
        size: ROOT_SIZE,
        blocks: 1,
        kind: FileKind::Directory,
        perm: DEFAULT_PERM,
        nlink: 0,
        uid: 0,
        gid: 0,
        rdev: 0,
        flags: 0,
        blksize: block_size as u32,
    }
}

pub fn to_generic_attrs(entity: &Node, block_size: u64) -> (r: GenericAttrs)
    ensures
        r == attrs_of(*entity, block_size),
{
    GenericAttrs {
        ino: entity.id,
        size: entity.size,
        blocks: entity.size.wrapping_mul(block_size),
        kind: if entity.is_dir { FileKind::Directory } else { FileKind::RegularFile },
        perm: DEFAULT_PERM,
        nlink: 0,
        uid: 0,
        gid: 0,
        rdev: 0,
        flags: 0,
        blksize: block_size as u32,
    }
}

pub fn root_attrs(block_size: u64) -> (r: GenericAttrs)
    ensures
        r == root_attrs_spec(block_size),
{
    GenericAttrs {
        ino: ROOT_INO,
        size: ROOT_SIZE,
        blocks: 1,
        kind: FileKind::Directory,
        perm: DEFAULT_PERM,
        nlink: 0,
        uid: 0,
        gid: 0,
        rdev: 0,
        flags: 0,
        blksize: block_size as u32,
    }
}

/// The kind in a record depends on the entity's directory flag alone: two
/// mappings of entities that agree on it agree on the kind, whatever else
/// differs and in whatever order they are made; size and inode are carried over.
pub proof fn lemma_kind_deterministic(a: Node, b: Node, bs1: u64, bs2: u64)
    requires
        a.is_dir == b.is_dir,
    ensures
        attrs_of(a, bs1).kind == attrs_of(b, bs2).kind,
        a.is_dir ==> attrs_of(a, bs1).kind == FileKind::Directory,
        !a.is_dir ==> attrs_of(a, bs1).kind == FileKind::RegularFile,
        attrs_of(a, bs1).size == a.size,
        attrs_of(a, bs1).ino == a.id,
{
}

} // verus!
