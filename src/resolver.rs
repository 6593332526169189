//! Finds an entity anywhere in the tree by its identifier, for inodes that
//! reach the adapter with no parent hint.
//!
//! The search is a state machine: each step says which listing it needs next
//! (the root entity, or the children of one directory), and the caller hands
//! back what the store answered. Directories wait on an explicit stack, and a
//! directory is queued at most once, so a malformed tree with cycles still
//! ends the search.
use vstd::prelude::*;
use crate::node::{Node, ROOT_INO, is_dot_name, is_dot_entry};

verus! {

/// What the search needs next, or how it ended.
#[derive(Debug)]
pub enum ResolveStep {
    /// The store's root entity.
    NeedRoot,
    /// The listing of the directory with this identifier.
    NeedChildren(u64),
    Found(Node),
    NotFound,
}

#[derive(Clone, Copy, Debug, PartialEq, Eq, Structural)]
pub enum Phase {
    AwaitingRoot,
    AwaitingChildren(u64),
    Finished,
}

/// No entry of the listings, but `.` and `..`, has the identifier `target`.
pub open spec fn misses(listed: Map<u64, Seq<Node>>, target: u64) -> bool {
    forall|d: u64, i: int|
        #![trigger listed[d][i]]
        listed.contains_key(d) && 0 <= i < listed[d].len() && !is_dot_name(listed[d][i].name@)
            ==> listed[d][i].id != target
}

/// The listings hold the root's and, with every directory they hold, those of
/// its subdirectories (`.` and `..` aside): the whole tree under the root.
pub open spec fn covers(listed: Map<u64, Seq<Node>>, root: u64) -> bool {
    &&& listed.contains_key(root)
    &&& forall|d: u64, i: int|
        #![trigger listed[d][i]]
        listed.contains_key(d) && 0 <= i < listed[d].len() && !is_dot_name(listed[d][i].name@)
            && listed[d][i].is_dir ==> listed.contains_key(listed[d][i].id)
}

/// `d` is the root, or a directory entry (but `.` and `..`) of some listing.
pub open spec fn linked(listed: Map<u64, Seq<Node>>, root: u64, d: u64) -> bool {
    d == root || exists|p: u64, i: int|
        #![trigger listed[p][i]]
        listed.contains_key(p) && 0 <= i < listed[p].len() && !is_dot_name(listed[p][i].name@)
            && listed[p][i].is_dir && listed[p][i].id == d
}

/// Every listed directory is the root or was met as an entry of another
/// listing: the listings hang together from the root down.
pub open spec fn tree_linked(listed: Map<u64, Seq<Node>>, root: u64) -> bool {
    forall|d: u64| #[trigger] listed.contains_key(d) ==> linked(listed, root, d)
}

/// Listing one more directory, not listed before, keeps what was linked.
proof fn lemma_linked_insert(listed: Map<u64, Seq<Node>>, root: u64, a: u64, ch: Seq<Node>, x: u64)
    requires
        !listed.contains_key(a),
        linked(listed, root, x),
    ensures
        linked(listed.insert(a, ch), root, x),
{
    if x != root {
        let (p, i) = choose|p: u64, i: int|
            #![trigger listed[p][i]]
            listed.contains_key(p) && 0 <= i < listed[p].len() && !is_dot_name(listed[p][i].name@)
                && listed[p][i].is_dir && listed[p][i].id == x;
        let l2 = listed.insert(a, ch);
        assert(l2[p] == listed[p]);
        assert(l2[p][i] == listed[p][i]);
    }
}

pub struct Resolver {
    target: u64,
    phase: Phase,
    pending: Vec<u64>,
    queued: Vec<u64>,
    listed: Ghost<Map<u64, Seq<Node>>>,
    root_id: Ghost<u64>,
}

fn contains_id(v: &Vec<u64>, x: u64) -> (r: bool)
    ensures
        r == v@.contains(x),
{
    let mut i: usize = 0;
    while i < v.len()
        invariant
            i <= v@.len(),
            forall|j: int| 0 <= j < i ==> v@[j] != x,
        decreases v@.len() - i,
    {
        if v[i] == x {
            return true;
        }
        i += 1;
    }
    false
}

impl Resolver {
    pub closed spec fn target(&self) -> u64 {
        self.target
    }

    pub closed spec fn phase(&self) -> Phase {
        self.phase
    }

    /// The listings handed to the search so far, by directory.
    pub closed spec fn listed(&self) -> Map<u64, Seq<Node>> {
        self.listed@
    }

    /// Identifier of the root entity, once it was handed in.
    pub closed spec fn root_id(&self) -> u64 {
        self.root_id@
    }

    closed spec fn searching(&self, awaited: Option<u64>) -> bool {
        let l = self.listed@;
        let root = self.root_id@;
        &&& self.queued@.contains(root)
        &&& l.contains_key(root) || awaited == Some(root)
        &&& forall|k: int|
            0 <= k < self.queued@.len() ==> {
                let q = #[trigger] self.queued@[k];
                self.pending@.contains(q) || l.contains_key(q) || awaited == Some(q)
            }
        &&& forall|d: u64, i: int|
            #![trigger l[d][i]]
            l.contains_key(d) && 0 <= i < l[d].len() && !is_dot_name(l[d][i].name@)
                ==> l[d][i].id != self.target && (l[d][i].is_dir ==> self.queued@.contains(l[d][i].id))
        &&& forall|a: int, b: int|
            0 <= a < b < self.pending@.len() ==> #[trigger] self.pending@[a] != #[trigger] self.pending@[b]
        &&& forall|k: int|
            0 <= k < self.pending@.len() ==> {
                let x = #[trigger] self.pending@[k];
                !l.contains_key(x) && self.queued@.contains(x) && awaited != Some(x) && linked(l, root, x)
            }
        &&& forall|d: u64| #[trigger] l.contains_key(d) ==> self.queued@.contains(d) && linked(l, root, d)
        &&& match awaited {
            Some(a) => !l.contains_key(a) && self.queued@.contains(a) && linked(l, root, a),
            None => true,
        }
    }

    pub closed spec fn wf(&self) -> bool {
        match self.phase {
            Phase::AwaitingRoot => self.listed@ == Map::<u64, Seq<Node>>::empty()
                && self.queued@.len() == 0 && self.pending@.len() == 0,
            Phase::AwaitingChildren(d) => self.searching(Some(d)),
            Phase::Finished => true,
        }
    }

    /// A search for the entity whose identifier is `target`.
    pub fn new(target: u64) -> (r: Resolver)
        ensures
            r.wf(),
            r.target() == target,
            r.phase() == Phase::AwaitingRoot,
            r.listed() == Map::<u64, Seq<Node>>::empty(),
    {
        Resolver {
            target,
            phase: Phase::AwaitingRoot,
            pending: Vec::new(),
            queued: Vec::new(),
            listed: Ghost(Map::empty()),
            root_id: Ghost(0),
        }
    }

    /// The first step: the search always starts from the root entity.
    pub fn first_step(&self) -> (r: ResolveStep)
        ensures
            r is NeedRoot,
    {
        ResolveStep::NeedRoot
    }

    /// Takes the root entity, or `None` where the store could not give it.
    /// The reserved root inode resolves to the root entity itself; any other
    /// target starts the walk at the root's listing.
    pub fn on_root(&mut self, root: Option<Node>) -> (r: ResolveStep)
        requires
            old(self).wf(),
            old(self).phase() == Phase::AwaitingRoot,
        ensures
            final(self).wf(),
            final(self).target() == old(self).target(),
            final(self).listed() == old(self).listed(),
            match root {
                None => r is NotFound && final(self).phase() == Phase::Finished,
                Some(e) => if old(self).target() == ROOT_INO {
                    r == ResolveStep::Found(e) && final(self).phase() == Phase::Finished
                } else {
                    r == ResolveStep::NeedChildren(e.id)
                        && final(self).phase() == Phase::AwaitingChildren(e.id)
                        && final(self).root_id() == e.id
                },
            },
    {
        match root {
            None => {
                self.phase = Phase::Finished;
                ResolveStep::NotFound
            },
            Some(e) => {
                if self.target == ROOT_INO {
                    self.phase = Phase::Finished;
                    ResolveStep::Found(e)
                } else {
                    self.queued.push(e.id);
                    self.root_id = Ghost(e.id);
                    self.phase = Phase::AwaitingChildren(e.id);
                    proof {
                        assert(self.queued@[0] == e.id);
                    }
                    ResolveStep::NeedChildren(e.id)
                }
            },
        }
    }

    /// Takes the listing of the directory that the last step asked for. An
    /// entry (but `.` and `..`) with the target identifier ends the search;
    /// each subdirectory not queued before is queued. The search goes on with
    /// the most recently queued directory, one that was met in a listing and
    /// is not listed yet, so no directory is listed twice and the search ends.
    /// It ends unfound when none is left: the listings it was given then cover
    /// the tree and hold no match.
    pub fn on_children(&mut self, children: &Vec<Node>) -> (r: ResolveStep)
        requires
            old(self).wf(),
            old(self).phase() is AwaitingChildren,
        ensures
            final(self).target() == old(self).target(),
            final(self).root_id() == old(self).root_id(),
            final(self).wf(),
            tree_linked(final(self).listed(), final(self).root_id()),
            match r {
                ResolveStep::Found(e) => e.id == old(self).target() && !is_dot_name(e.name@)
                    && (exists|i: int| 0 <= i < children@.len() && children@[i] == e)
                    && linked(old(self).listed(), old(self).root_id(), old(self).phase()->AwaitingChildren_0)
                    && final(self).phase() == Phase::Finished,
                ResolveStep::NeedChildren(d) => final(self).phase() == Phase::AwaitingChildren(d)
                    && final(self).listed() == old(self).listed().insert(
                        old(self).phase()->AwaitingChildren_0,
                        children@,
                    )
                    && misses(final(self).listed(), final(self).target())
                    && (forall|i: int|
                        0 <= i < children@.len() && !is_dot_name(children@[i].name@) ==> #[trigger] children@[i].id
                            != old(self).target())
                    && !final(self).listed().contains_key(d)
                    && final(self).listed().contains_key(final(self).root_id())
                    && linked(final(self).listed(), final(self).root_id(), d),
                ResolveStep::NotFound => final(self).phase() == Phase::Finished
                    && final(self).listed() == old(self).listed().insert(
                        old(self).phase()->AwaitingChildren_0,
                        children@,
                    )
                    && covers(final(self).listed(), final(self).root_id())
                    && misses(final(self).listed(), final(self).target())
                    && (forall|i: int|
                        0 <= i < children@.len() && !is_dot_name(children@[i].name@) ==> #[trigger] children@[i].id
                            != old(self).target()),
                ResolveStep::NeedRoot => false,
            },
    {
        let dir = match self.phase {
            Phase::AwaitingChildren(d) => d,
            _ => 0,
        };
        let ghost q0 = self.queued@;
        let ghost p0 = self.pending@;
        let ghost l0 = self.listed@;
        let ghost root = self.root_id@;
        let mut i: usize = 0;
        while i < children.len()
            invariant
                self.phase == Phase::AwaitingChildren(dir),
                old(self).phase == Phase::AwaitingChildren(dir),
                self.listed == old(self).listed,
                self.root_id == old(self).root_id,
                self.target == old(self).target,
                old(self).searching(Some(dir)),
                q0 == old(self).queued@,
                p0 == old(self).pending@,
                l0 == old(self).listed@,
                root == old(self).root_id@,
                i <= children@.len(),
                forall|x: u64| q0.contains(x) ==> self.queued@.contains(x),
                forall|x: u64| p0.contains(x) ==> self.pending@.contains(x),
                forall|k: int|
                    0 <= k < self.queued@.len() ==> {
                        let q = #[trigger] self.queued@[k];
                        q0.contains(q) || self.pending@.contains(q)
                    },
                forall|j: int|
                    #![trigger children@[j]]
                    0 <= j < i && !is_dot_name(children@[j].name@) ==> children@[j].id
                        != self.target && (children@[j].is_dir ==> self.queued@.contains(
                        children@[j].id,
                    )),
                forall|a: int, b: int|
                    0 <= a < b < self.pending@.len() ==> #[trigger] self.pending@[a] != #[trigger] self.pending@[b],
                forall|k: int|
                    0 <= k < self.pending@.len() ==> {
                        let x = #[trigger] self.pending@[k];
                        !l0.contains_key(x) && x != dir && self.queued@.contains(x) && (p0.contains(x)
                            || exists|j: int|
                            #![trigger children@[j]]
                            0 <= j < i && !is_dot_name(children@[j].name@) && children@[j].is_dir
                                && children@[j].id == x)
                    },
            decreases children@.len() - i,
        {
            let c = &children[i];
            if !is_dot_entry(&c.name) {
                if c.id == self.target {
                    proof {
                        assert(old(self).phase()->AwaitingChildren_0 == dir);
                        assert(linked(l0, root, dir));
                        assert forall|d: u64| #[trigger] self.listed@.contains_key(d) implies linked(self.listed@, root, d) by {
                            assert(l0.contains_key(d));
                        }
                        assert(children@[i as int] == *c);
                    }
                    self.phase = Phase::Finished;
                    return ResolveStep::Found(c.duplicate());
                }
                if c.is_dir && !contains_id(&self.queued, c.id) {
                    let ghost qb = self.queued@;
                    let ghost pb = self.pending@;
                    self.queued.push(c.id);
                    self.pending.push(c.id);
                    proof {
                        assert forall|x: u64| qb.contains(x) implies self.queued@.contains(x) by {
                            let k = choose|k: int| 0 <= k < qb.len() && qb[k] == x;
                            assert(self.queued@[k] == x);
                        }
                        assert forall|x: u64| pb.contains(x) implies self.pending@.contains(x) by {
                            let k = choose|k: int| 0 <= k < pb.len() && pb[k] == x;
                            assert(self.pending@[k] == x);
                        }
                        assert(self.queued@[qb.len() as int] == c.id);
                        assert(self.pending@[pb.len() as int] == c.id);
                        assert forall|k: int| 0 <= k < self.queued@.len() implies {
                            let q = #[trigger] self.queued@[k];
                            q0.contains(q) || self.pending@.contains(q)
                        } by {
                            if k < qb.len() {
                                assert(self.queued@[k] == qb[k]);
                            }
                        }
                        // The new id was not queued: it is neither pending, listed, nor awaited.
                        assert(old(self).queued@.contains(dir));
                        assert(!l0.contains_key(c.id));
                        assert(c.id != dir);
                        assert forall|a: int, b: int|
                            0 <= a < b < self.pending@.len() implies #[trigger] self.pending@[a] != #[trigger] self.pending@[b] by {
                            if b == pb.len() {
                                assert(pb[a] == self.pending@[a]);
                                assert(qb.contains(pb[a]));
                            } else {
                                assert(pb[a] == self.pending@[a] && pb[b] == self.pending@[b]);
                            }
                        }
                        assert forall|k: int| 0 <= k < self.pending@.len() implies {
                            let x = #[trigger] self.pending@[k];
                            !l0.contains_key(x) && x != dir && self.queued@.contains(x) && (p0.contains(x)
                                || exists|j: int|
                                #![trigger children@[j]]
                                0 <= j < i + 1 && !is_dot_name(children@[j].name@) && children@[j].is_dir
                                    && children@[j].id == x)
                        } by {
                            if k == pb.len() {
                                assert(children@[i as int] == *c);
                            } else {
                                assert(self.pending@[k] == pb[k]);
                            }
                        }
                    }
                }
            }
            proof {
                assert forall|k: int| 0 <= k < self.pending@.len() implies {
                    let x = #[trigger] self.pending@[k];
                    p0.contains(x)
                        || exists|j: int|
                        #![trigger children@[j]]
                        0 <= j < i + 1 && !is_dot_name(children@[j].name@) && children@[j].is_dir
                            && children@[j].id == x
                } by {
                    let x = self.pending@[k];
                    if !p0.contains(x) {
                        if exists|j: int|
                            #![trigger children@[j]]
                            0 <= j < i && !is_dot_name(children@[j].name@) && children@[j].is_dir
                                && children@[j].id == x {
                            let j = choose|j: int|
                                #![trigger children@[j]]
                                0 <= j < i && !is_dot_name(children@[j].name@) && children@[j].is_dir
                                    && children@[j].id == x;
                            assert(0 <= j < i + 1);
                        }
                    }
                }
            }
            i += 1;
        }
        assert(forall|j: int|
            0 <= j < children@.len() && !is_dot_name(children@[j].name@) ==> #[trigger] children@[j].id
                != self.target);
        let ghost before = self.listed@;
        self.listed = Ghost(self.listed@.insert(dir, children@));
        proof {
            let l = self.listed@;
            assert forall|d: u64, j: int|
                #![trigger l[d][j]]
                l.contains_key(d) && 0 <= j < l[d].len() && !is_dot_name(l[d][j].name@) implies l[d][j].id
                    != self.target && (l[d][j].is_dir ==> self.queued@.contains(l[d][j].id)) by {
                if d == dir {
                    assert(l[d][j] == children@[j]);
                } else {
                    assert(l[d] == before[d]);
                    assert(before[d][j] == l[d][j]);
                }
            }
            assert forall|k: int| 0 <= k < self.queued@.len() implies {
                let q = #[trigger] self.queued@[k];
                self.pending@.contains(q) || self.listed@.contains_key(q)
            } by {
                let q = self.queued@[k];
                if !self.pending@.contains(q) {
                    assert(q0.contains(q));
                    let k0 = choose|k0: int| 0 <= k0 < q0.len() && q0[k0] == q;
                    assert(old(self).queued@[k0] == q);
                    if p0.contains(q) {
                    }
                }
            }
            assert(self.queued@.contains(self.root_id@));
            assert forall|k: int| 0 <= k < self.pending@.len() implies {
                let x = #[trigger] self.pending@[k];
                !l.contains_key(x) && self.queued@.contains(x) && linked(l, root, x)
            } by {
                let x = self.pending@[k];
                if p0.contains(x) {
                    let k0 = choose|k0: int| 0 <= k0 < p0.len() && p0[k0] == x;
                    assert(old(self).pending@[k0] == x);
                    lemma_linked_insert(l0, root, dir, children@, x);
                } else {
                    let j = choose|j: int|
                        #![trigger children@[j]]
                        0 <= j < i && !is_dot_name(children@[j].name@) && children@[j].is_dir
                            && children@[j].id == x;
                    assert(l[dir][j] == children@[j]);
                }
            }
            assert forall|d: u64| #[trigger] l.contains_key(d) implies self.queued@.contains(d) && linked(l, root, d) by {
                if d == dir {
                    lemma_linked_insert(l0, root, dir, children@, dir);
                } else {
                    assert(l0.contains_key(d));
                    assert(q0.contains(d));
                    lemma_linked_insert(l0, root, dir, children@, d);
                }
            }
        }
        self.advance()
    }

    /// Moves on to the most recently queued directory, or ends the search.
    fn advance(&mut self) -> (r: ResolveStep)
        requires
            old(self).searching(None),
        ensures
            final(self).target() == old(self).target(),
            final(self).root_id() == old(self).root_id(),
            final(self).listed() == old(self).listed(),
            final(self).wf(),
            tree_linked(final(self).listed(), final(self).root_id()),
            misses(final(self).listed(), final(self).target()),
            match r {
                ResolveStep::NeedChildren(d) => final(self).phase() == Phase::AwaitingChildren(d)
                    && !final(self).listed().contains_key(d)
                    && final(self).listed().contains_key(final(self).root_id())
                    && linked(final(self).listed(), final(self).root_id(), d),
                ResolveStep::NotFound => final(self).phase() == Phase::Finished
                    && covers(final(self).listed(), final(self).root_id()),
                _ => false,
            },
    {
        match self.pending.pop() {
            Some(d) => {
                self.phase = Phase::AwaitingChildren(d);
                proof {
                    let p = old(self).pending@;
                    assert(p == self.pending@.push(d));
                    assert(p[p.len() - 1] == d);
                    assert forall|k: int| 0 <= k < self.queued@.len() implies {
                        let q = #[trigger] self.queued@[k];
                        self.pending@.contains(q) || self.listed@.contains_key(q) || Some(d) == Some(q)
                    } by {
                        let q = self.queued@[k];
                        if p.contains(q) && q != d {
                            let k0 = choose|k0: int| 0 <= k0 < p.len() && p[k0] == q;
                            assert(k0 < self.pending@.len());
                            assert(self.pending@[k0] == q);
                        }
                    }
                    assert forall|a: int, b: int|
                        0 <= a < b < self.pending@.len() implies #[trigger] self.pending@[a] != #[trigger] self.pending@[b] by {
                        assert(p[a] == self.pending@[a] && p[b] == self.pending@[b]);
                    }
                    assert forall|k: int| 0 <= k < self.pending@.len() implies {
                        let x = #[trigger] self.pending@[k];
                        !self.listed@.contains_key(x) && self.queued@.contains(x) && Some(d) != Some(x)
                            && linked(self.listed@, self.root_id@, x)
                    } by {
                        assert(p[k] == self.pending@[k]);
                        assert(p[k] != p[p.len() - 1]);
                    }
                }
                ResolveStep::NeedChildren(d)
            },
            None => {
                self.phase = Phase::Finished;
                proof {
                    let l = self.listed@;
                    assert forall|x: u64| self.queued@.contains(x) implies l.contains_key(x) by {
                        let k = choose|k: int| 0 <= k < self.queued@.len() && self.queued@[k] == x;
                        assert(self.queued@[k] == x);
                    }
                    assert forall|d: u64, j: int|
                        #![trigger l[d][j]]
                        l.contains_key(d) && 0 <= j < l[d].len() && !is_dot_name(l[d][j].name@)
                            && l[d][j].is_dir implies l.contains_key(l[d][j].id) by {
                        assert(self.queued@.contains(l[d][j].id));
                    }
                }
                ResolveStep::NotFound
            },
        }
    }
}

} // verus!
