use noctfs_fused::node::Node;
use noctfs_fused::resolver::{ResolveStep, Resolver};

fn node(id: u64, name: &str, is_dir: bool) -> Node {
    Node { id, name: name.to_string(), size: 0, is_dir }
}

/// A store's tree as listings by directory; a directory with no listing is empty.
struct Tree {
    root: Option<Node>,
    listings: Vec<(u64, Vec<Node>)>,
    asked: Vec<u64>,
}

impl Tree {
    fn list(&mut self, dir: u64) -> Vec<Node> {
        self.asked.push(dir);
        for (d, children) in &self.listings {
            if *d == dir {
                return children.clone();
            }
        }
        Vec::new()
    }

    fn find(&mut self, target: u64) -> Option<Node> {
        let mut r = Resolver::new(target);
        let mut step = r.first_step();
        loop {
            step = match step {
                ResolveStep::NeedRoot => r.on_root(self.root.clone()),
                ResolveStep::NeedChildren(d) => {
                    let children = self.list(d);
                    r.on_children(&children)
                }
                ResolveStep::Found(n) => return Some(n),
                ResolveStep::NotFound => return None,
            };
        }
    }
}

/// Root (block 2) holds directory `sub` (block 5) and file `top` (block 6);
/// `sub` holds file `deep` (block 9).
fn nested() -> Tree {
    Tree {
        root: Some(node(2, "/", true)),
        listings: vec![
            (2, vec![node(2, ".", true), node(2, "..", true), node(5, "sub", true), node(6, "top", false)]),
            (5, vec![node(5, ".", true), node(2, "..", true), node(9, "deep", false)]),
        ],
        asked: Vec::new(),
    }
}

#[test]
fn finds_file_two_levels_deep() {
    let mut t = nested();
    let found = t.find(9).unwrap();
    assert_eq!(found.id, 9);
    assert_eq!(found.name, "deep");
}

#[test]
fn unknown_identifier_is_not_found() {
    let mut t = nested();
    assert_eq!(t.find(1234), None);
    assert_eq!(t.asked, vec![2, 5]);
}

#[test]
fn siblings_after_a_directory_are_checked() {
    let mut t = nested();
    let found = t.find(6).unwrap();
    assert_eq!(found.name, "top");
    assert_eq!(t.asked, vec![2]);
}

#[test]
fn reserved_root_inode_gives_root_entity() {
    let mut t = nested();
    let found = t.find(1).unwrap();
    assert_eq!(found.id, 2);
    assert!(t.asked.is_empty());
}

#[test]
fn missing_root_is_not_found() {
    let mut t = nested();
    t.root = None;
    assert_eq!(t.find(9), None);
}

#[test]
fn dot_entries_do_not_match() {
    let mut t = nested();
    // Block 2 is the root's own block: it appears only as `.` and `..`.
    assert_eq!(t.find(2), None);
}

#[test]
fn cycle_in_a_malformed_tree_ends() {
    let mut t = Tree {
        root: Some(node(2, "/", true)),
        listings: vec![
            (2, vec![node(5, "a", true)]),
            (5, vec![node(7, "b", true)]),
            (7, vec![node(5, "loop", true), node(2, "up", true)]),
        ],
        asked: Vec::new(),
    };
    assert_eq!(t.find(99), None);
    assert_eq!(t.asked, vec![2, 5, 7]);
}

#[test]
fn target_after_subdirectory_in_same_listing_is_found_first() {
    let mut t = Tree {
        root: Some(node(2, "/", true)),
        listings: vec![
            (2, vec![node(5, "d", true), node(6, "f", false)]),
            (5, vec![node(11, "inner", false)]),
        ],
        asked: Vec::new(),
    };
    assert_eq!(t.find(6).unwrap().name, "f");
    assert_eq!(t.asked, vec![2]);
}

#[test]
fn each_directory_is_listed_once() {
    let mut t = Tree {
        root: Some(node(2, "/", true)),
        listings: vec![
            (2, vec![node(5, "a", true), node(6, "b", true), node(5, "again", true)]),
            (5, vec![node(6, "b2", true), node(7, "c", true)]),
            (6, vec![node(7, "c2", true)]),
        ],
        asked: Vec::new(),
    };
    assert_eq!(t.find(42), None);
    let mut asked = t.asked.clone();
    asked.sort();
    assert_eq!(asked, vec![2, 5, 6, 7]);
}
