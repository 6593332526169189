use noctfs_fused::attrs::FileKind;
use noctfs_fused::node::Node;
use noctfs_fused::session::{
    search_by_filename, DirEntry, FsError, NoctFSFused, PlainOp, CREATE_MODE_MASK, OPEN_TRUNC,
};

fn node(id: u64, name: &str, size: u64, is_dir: bool) -> Node {
    Node { id, name: name.to_string(), size, is_dir }
}

/// A stand-in store: one flat root directory (block 2), new blocks from 100.
struct Store {
    root_children: Vec<Node>,
    next_block: u64,
}

impl Store {
    fn new() -> Store {
        Store { root_children: vec![node(10, "a", 3, false)], next_block: 100 }
    }

    fn list(&self, _dir: u64) -> Vec<Node> {
        self.root_children.clone()
    }

    fn create_file(&mut self, name: &str) -> Node {
        let n = node(self.next_block, name, 0, false);
        self.next_block += 1;
        self.root_children.push(n.clone());
        n
    }

    fn delete(&mut self, e: &Node) {
        self.root_children.retain(|c| c.id != e.id);
    }

    fn entity_in(&self, _parent: u64, ino: u64) -> Option<Node> {
        self.root_children.iter().find(|c| c.id == ino).cloned()
    }
}

fn listing(s: &mut NoctFSFused, store: &Store, ino: u64, fh: u64) -> Vec<DirEntry> {
    let children = if s.readdir_needs_listing(fh) { store.list(ino) } else { Vec::new() };
    s.readdir(fh, &children)
}

#[test]
fn lookup_then_read_succeeds() {
    let store = Store::new();
    let mut s = NoctFSFused::new(512);
    let attrs = s.lookup(1, &"a".to_string(), &store.list(1)).unwrap();
    assert_eq!(attrs.ino, 10);
    assert_eq!(attrs.size, 3);
    let fh = s.open(10, 0).unwrap().fh;
    let parent = s.data_parent(10).unwrap();
    assert_eq!(parent, 1);
    let req = s.read_request(store.entity_in(parent, 10), 0, 8).unwrap();
    assert_eq!(req.entity.id, 10);
    assert_eq!(req.len, 8);
    assert_eq!(req.offset, 0);
    assert_eq!(fh, 0);
}

#[test]
fn read_without_lookup_is_io_error() {
    let mut s = NoctFSFused::new(512);
    assert_eq!(s.data_parent(10), Err(FsError::Io));
}

#[test]
fn lookup_miss_is_not_found() {
    let store = Store::new();
    let mut s = NoctFSFused::new(512);
    assert_eq!(s.lookup(1, &"zz".to_string(), &store.list(1)), Err(FsError::NotFound));
    assert_eq!(s.data_parent(10), Err(FsError::Io));
}

#[test]
fn read_of_vanished_entity_is_not_found() {
    let s = NoctFSFused::new(512);
    assert!(matches!(s.read_request(None, 0, 4), Err(FsError::NotFound)));
}

#[test]
fn handles_increase_from_zero() {
    let mut s = NoctFSFused::new(512);
    assert_eq!(s.open(10, 0).unwrap().fh, 0);
    assert_eq!(s.opendir(1, 0, None).unwrap().fh, 1);
    assert_eq!(s.open(10, 2).unwrap().fh, 2);
    assert_eq!(s.release(1), Ok(()));
    assert_eq!(s.release(1), Ok(()));
    assert_eq!(s.open(10, 0).unwrap().fh, 3);
}

#[test]
fn open_echoes_flags() {
    let mut s = NoctFSFused::new(512);
    let o = s.open(10, 0o2).unwrap();
    assert_eq!(o.flags, 0o2);
}

#[test]
fn open_with_truncate_is_invalid() {
    let mut s = NoctFSFused::new(512);
    assert_eq!(s.open(10, OPEN_TRUNC | 0o2), Err(FsError::InvalidArgument));
    assert_eq!(s.open(10, 0).unwrap().fh, 0);
}

#[test]
fn truncate_flag_is_the_platform_one() {
    assert_eq!(OPEN_TRUNC, libc::O_TRUNC);
}

#[test]
fn readdir_lists_once_per_handle() {
    let store = Store::new();
    let mut s = NoctFSFused::new(512);
    let fh = s.opendir(1, 0, None).unwrap().fh;
    let first = listing(&mut s, &store, 1, fh);
    assert_eq!(first.len(), 1);
    assert_eq!(first[0], DirEntry { ino: 10, kind: FileKind::RegularFile, name: "a".to_string() });
    let second = listing(&mut s, &store, 1, fh);
    assert!(second.is_empty());
}

#[test]
fn create_then_readdir_then_unlink() {
    let mut store = Store::new();
    let mut s = NoctFSFused::new(512);
    let created_node = store.create_file("f.txt");
    let created = s.create(1, &created_node, 0o102);
    assert_eq!(created.fh, 0);
    assert_eq!(created.flags, 0o2);
    assert_eq!(created.flags, 0o102 & CREATE_MODE_MASK);
    assert_eq!(created.attrs.kind, FileKind::RegularFile);
    assert_eq!(s.data_parent(created.attrs.ino), Ok(1));

    let fh = s.opendir(1, 0, None).unwrap().fh;
    let entries = listing(&mut s, &store, 1, fh);
    assert!(entries.iter().any(|e| e.ino == created.attrs.ino && e.name == "f.txt"));

    let victim = s.unlink(&"f.txt".to_string(), &store.list(1)).unwrap();
    assert_eq!(victim.id, created.attrs.ino);
    store.delete(&victim);

    let fh = s.opendir(1, 0, None).unwrap().fh;
    let entries = listing(&mut s, &store, 1, fh);
    assert!(!entries.iter().any(|e| e.name == "f.txt"));
    assert_eq!(entries.len(), 1);
}

#[test]
fn unlink_missing_is_not_found() {
    let store = Store::new();
    let s = NoctFSFused::new(512);
    assert_eq!(s.unlink(&"nope".to_string(), &store.list(1)), Err(FsError::NotFound));
}

#[test]
fn getattr_root_and_resolved() {
    let s = NoctFSFused::new(512);
    let root = s.getattr(1, None).unwrap();
    assert_eq!((root.ino, root.size, root.blocks, root.kind), (1, 4096, 1, FileKind::Directory));
    let f = s.getattr(10, Some(node(10, "a", 3, false))).unwrap();
    assert_eq!((f.ino, f.size, f.blocks, f.kind), (10, 3, 1536, FileKind::RegularFile));
    assert_eq!(s.getattr(10, None), Err(FsError::NotFound));
}

#[test]
fn opendir_rejects_files_and_unknown() {
    let mut s = NoctFSFused::new(512);
    assert_eq!(s.opendir(10, 0, Some(node(10, "a", 3, false))), Err(FsError::NotFound));
    assert_eq!(s.opendir(11, 0, None), Err(FsError::NotFound));
    assert_eq!(s.opendir(12, 0, Some(node(12, "d", 0, true))).unwrap().fh, 0);
}

#[test]
fn setattr_shrinks_through_parent_hint() {
    let store = Store::new();
    let mut s = NoctFSFused::new(512);
    s.lookup(1, &"a".to_string(), &store.list(1)).unwrap();
    let out = s.setattr(10, Some(1), Some(node(10, "a", 3, false))).unwrap();
    assert_eq!(out.attrs.size, 1);
    let rw = out.rewrite.unwrap();
    assert_eq!(rw.parent, 1);
    assert_eq!(rw.old_entity.size, 3);
    assert_eq!(rw.new_entity.size, 1);
    assert_eq!(rw.new_entity.name, "a");
}

#[test]
fn setattr_without_hint_is_io_error() {
    let mut s = NoctFSFused::new(512);
    assert!(matches!(s.setattr(10, Some(1), Some(node(10, "a", 3, false))), Err(FsError::Io)));
    assert!(matches!(s.setattr(10, Some(1), None), Err(FsError::NotFound)));
}

#[test]
fn setattr_growth_leaves_entity() {
    let mut s = NoctFSFused::new(512);
    let out = s.setattr(10, Some(50), Some(node(10, "a", 3, false))).unwrap();
    assert_eq!(out.attrs.size, 3);
    assert!(out.rewrite.is_none());
}

#[test]
fn write_request_counts_bytes_and_rejects_negative_offset() {
    let s = NoctFSFused::new(512);
    let w = s.write_request(1, Some(node(10, "a", 3, false)), 4, 6).unwrap();
    assert_eq!((w.parent, w.offset, w.written), (1, 4, 6));
    assert!(matches!(s.write_request(1, Some(node(10, "a", 3, false)), -1, 6), Err(FsError::InvalidArgument)));
    assert!(matches!(s.write_request(1, None, 0, 6), Err(FsError::NotFound)));
}

#[test]
fn mkdir_records_parent() {
    let mut s = NoctFSFused::new(512);
    let a = s.mkdir(1, &node(40, "d", 0, true));
    assert_eq!(a.kind, FileKind::Directory);
    assert_eq!(a.ino, 40);
    assert_eq!(s.data_parent(40), Ok(1));
}

#[test]
fn access_follows_resolution() {
    let s = NoctFSFused::new(512);
    assert_eq!(s.access(Some(node(10, "a", 3, false))), Ok(()));
    assert_eq!(s.access(None), Err(FsError::NotFound));
}

#[test]
fn plain_operations() {
    let s = NoctFSFused::new(512);
    assert_eq!(s.plain(PlainOp::Flush), Ok(()));
    assert_eq!(s.plain(PlainOp::Fsyncdir), Ok(()));
    assert_eq!(s.plain(PlainOp::Rename), Err(FsError::NotSupported));
    assert_eq!(s.plain(PlainOp::Symlink), Err(FsError::NotSupported));
    let st = s.statfs();
    assert_eq!((st.bsize, st.namelen, st.blocks), (512, 255, 0));
}

#[test]
fn search_by_filename_takes_first_match() {
    let children = vec![node(3, "x", 0, false), node(4, "x", 0, true)];
    assert_eq!(search_by_filename(&children, &"x".to_string()).unwrap().id, 3);
    assert_eq!(search_by_filename(&children, &"y".to_string()), None);
}

#[test]
fn readdir_leaves_out_dot_entries() {
    let mut s = NoctFSFused::new(512);
    let fh = s.opendir(1, 0, None).unwrap().fh;
    let children = vec![
        node(2, ".", 0, true),
        node(2, "..", 0, true),
        node(7, "x", 4, false),
        node(8, "...", 0, true),
        node(9, ".h", 1, false),
    ];
    assert!(s.readdir_needs_listing(fh));
    let entries = s.readdir(fh, &children);
    assert_eq!(
        entries,
        vec![
            DirEntry { ino: 7, kind: FileKind::RegularFile, name: "x".to_string() },
            DirEntry { ino: 8, kind: FileKind::Directory, name: "...".to_string() },
            DirEntry { ino: 9, kind: FileKind::RegularFile, name: ".h".to_string() },
        ]
    );
    assert!(!s.readdir_needs_listing(fh));
    assert!(s.readdir(fh, &children).is_empty());
}

#[test]
fn readdir_of_only_dot_entries_is_empty() {
    let mut s = NoctFSFused::new(512);
    let fh = s.opendir(1, 0, None).unwrap().fh;
    let children = vec![node(2, ".", 0, true), node(2, "..", 0, true)];
    assert!(s.readdir(fh, &children).is_empty());
}
