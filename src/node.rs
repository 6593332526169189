//! What the adapter knows of an entity of the store.
use vstd::prelude::*;

verus! {

/// The inode number reserved for the mount root; no store block has it.
pub const ROOT_INO: u64 = 1;

/// A file or directory of the store, as a plain value. Its identifier is the
/// entity's start block, which is also the inode number the kernel sees.
#[derive(Clone, Debug, PartialEq, Eq)]
pub struct Node {
    pub id: u64,
    pub name: String,
    pub size: u64,
    pub is_dir: bool,
}

/// Whether a listing entry is the directory's own `.` or its parent's `..`.
pub open spec fn is_dot_name(name: Seq<char>) -> bool {
    name == seq!['.'] || name == seq!['.', '.']
}

/// Whether `name` is `.` or `..`.
pub fn is_dot_entry(name: &String) -> (r: bool)
    ensures
        r == is_dot_name(name@),
{
    let text = name.as_str();
    let n = text.unicode_len();
    proof {
        assert(seq!['.'].len() == 1 && seq!['.'][0] == '.');
        assert(seq!['.', '.'].len() == 2 && seq!['.', '.'][0] == '.' && seq!['.', '.'][1] == '.');
    }
    if n == 1 {
        let c = text.get_char(0);
        proof {
            if c == '.' {
                assert(name@ =~= seq!['.']);
            }
        }
        c == '.'
    } else if n == 2 {
        let c0 = text.get_char(0);
        let c1 = text.get_char(1);
        proof {
            if c0 == '.' && c1 == '.' {
                assert(name@ =~= seq!['.', '.']);
            }
        }
        c0 == '.' && c1 == '.'
    } else {
        false
    }
}

impl Node {
    /// A copy of this node, equal to it field by field.
    pub fn duplicate(&self) -> (r: Node)
        ensures
            r == *self,
    {
        Node { id: self.id, name: self.name.clone(), size: self.size, is_dir: self.is_dir }
    }
}

} // verus!
