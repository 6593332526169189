//! Bounded FIFO table of parent hints: which directory an inode was last seen in.
use vstd::prelude::*;

verus! {

/// Number of hints kept; recording one more evicts the oldest.
pub const CACHE_CAPACITY: usize = 256;

/// One hint: `ino` was found inside the directory `parent_ino`.
#[derive(Clone, Copy, Debug, PartialEq, Eq, Structural)]
pub struct CacheEntry {
    pub ino: u64,
    pub parent_ino: u64,
}

/// Parent hints in order of insertion, oldest first.
pub struct INOCache {
    container: Vec<CacheEntry>,
}

/// The hints that remain after recording `(parent, ino)` in `entries`.
pub open spec fn recorded(entries: Seq<CacheEntry>, parent: u64, ino: u64) -> Seq<CacheEntry> {
    let kept = if entries.len() >= CACHE_CAPACITY { entries.drop_first() } else { entries };
    kept.push(CacheEntry { ino, parent_ino: parent })
}

/// Index of the first hint for `ino`, if any.
pub open spec fn first_index(entries: Seq<CacheEntry>, ino: u64) -> Option<int>
    decreases entries.len(),
{
    if entries.len() == 0 {
        None
    } else if entries[0].ino == ino {
        Some(0)
    } else {
        match first_index(entries.drop_first(), ino) {
            Some(i) => Some(i + 1),
            None => None,
        }
    }
}

/// The parent given by the first hint for `ino`.
pub open spec fn parent_in(entries: Seq<CacheEntry>, ino: u64) -> Option<u64> {
    match first_index(entries, ino) {
        Some(i) => Some(entries[i].parent_ino),
        None => None,
    }
}

pub proof fn lemma_first_index(entries: Seq<CacheEntry>, ino: u64)
    ensures
        match first_index(entries, ino) {
            Some(i) => 0 <= i < entries.len() && entries[i].ino == ino
                && forall|j: int| 0 <= j < i ==> entries[j].ino != ino,
            None => forall|j: int| 0 <= j < entries.len() ==> entries[j].ino != ino,
        },
    decreases entries.len(),
{
    if entries.len() > 0 {
        lemma_first_index(entries.drop_first(), ino);
        if entries[0].ino != ino {
            match first_index(entries.drop_first(), ino) {
                Some(i) => {
                    assert forall|j: int| 0 <= j < i + 1 implies entries[j].ino != ino by {
                        if j > 0 {
                            assert(entries[j] == entries.drop_first()[j - 1]);
                        }
                    }
                },
                None => {
                    assert forall|j: int| 0 <= j < entries.len() implies entries[j].ino != ino by {
                        if j > 0 {
                            assert(entries[j] == entries.drop_first()[j - 1]);
                        }
                    }
                },
            }
        }
    }
}

/// The first hint for `ino` is the one at the lowest index that names it.
pub proof fn lemma_first_index_at(entries: Seq<CacheEntry>, ino: u64, i: int)
    requires
        0 <= i < entries.len(),
        entries[i].ino == ino,
        forall|j: int| 0 <= j < i ==> entries[j].ino != ino,
    ensures
        first_index(entries, ino) == Some(i),
{
    lemma_first_index(entries, ino);
    match first_index(entries, ino) {
        Some(k) => {
            if k < i {
            } else if k > i {
            }
        },
        None => {},
    }
}

/// A lookup right after recording `(parent, ino)` finds a parent for `ino`, and
/// every parent that a lookup gives was recorded for that inode.
pub proof fn lemma_record_then_resolve(entries: Seq<CacheEntry>, parent: u64, ino: u64)
    ensures
        parent_in(recorded(entries, parent, ino), ino) is Some,
        forall|p: u64| #[trigger] parent_in(recorded(entries, parent, ino), ino) == Some(p)
            ==> exists|j: int| 0 <= j < recorded(entries, parent, ino).len()
                && recorded(entries, parent, ino)[j] == (CacheEntry { ino, parent_ino: p }),
{
    let r = recorded(entries, parent, ino);
    lemma_first_index(r, ino);
    assert(r[r.len() - 1].ino == ino);
}

/// Whatever a lookup gives was recorded: the hint it comes from is in the table.
pub proof fn lemma_resolve_is_recorded(entries: Seq<CacheEntry>, ino: u64)
    ensures
        match parent_in(entries, ino) {
            Some(p) => exists|j: int| 0 <= j < entries.len()
                && entries[j] == (CacheEntry { ino, parent_ino: p }),
            None => forall|j: int| 0 <= j < entries.len() ==> entries[j].ino != ino,
        },
{
    lemma_first_index(entries, ino);
}

/// Hints leave in insertion order: with the table full, recording one more
/// removes exactly the oldest, so an inode that only the oldest hint named is
/// no longer resolved, while every other hint stays.
pub proof fn lemma_fifo_eviction(entries: Seq<CacheEntry>, parent: u64, ino: u64)
    requires
        entries.len() == CACHE_CAPACITY,
        ino != entries[0].ino,
        forall|j: int| 1 <= j < entries.len() ==> #[trigger] entries[j].ino != entries[0].ino,
    ensures
        recorded(entries, parent, ino) == entries.drop_first().push(
            CacheEntry { ino, parent_ino: parent },
        ),
        parent_in(recorded(entries, parent, ino), entries[0].ino) is None,
{
    let r = recorded(entries, parent, ino);
    let gone = entries[0].ino;
    lemma_first_index(r, gone);
    assert forall|j: int| 0 <= j < r.len() implies r[j].ino != gone by {
        if j < r.len() - 1 {
            assert(r[j] == entries[j + 1]);
        }
    }
}

/// The hints after recording each `(parent, ino)` of `adds` in turn.
pub open spec fn record_all(entries: Seq<CacheEntry>, adds: Seq<(u64, u64)>) -> Seq<CacheEntry>
    decreases adds.len(),
{
    if adds.len() == 0 {
        entries
    } else {
        record_all(recorded(entries, adds[0].0, adds[0].1), adds.drop_first())
    }
}

proof fn lemma_survives(entries: Seq<CacheEntry>, adds: Seq<(u64, u64)>, idx: int)
    requires
        entries.len() <= CACHE_CAPACITY,
        0 <= idx < entries.len(),
        entries.len() - 1 - idx + adds.len() < CACHE_CAPACITY,
    ensures
        exists|j: int| 0 <= j < record_all(entries, adds).len() && record_all(entries, adds)[j] == entries[idx],
    decreases adds.len(),
{
    if adds.len() == 0 {
        assert(record_all(entries, adds)[idx] == entries[idx]);
    } else {
        let next = recorded(entries, adds[0].0, adds[0].1);
        let idx2 = if entries.len() >= CACHE_CAPACITY { idx - 1 } else { idx };
        assert(next[idx2] == entries[idx]);
        lemma_survives(next, adds.drop_first(), idx2);
        assert(record_all(entries, adds) == record_all(next, adds.drop_first()));
    }
}

/// A recorded hint stays found until the FIFO bound evicts it: after
/// `(parent, ino)` and fewer than 256 further records, a lookup of `ino` still
/// gives a parent, and that parent comes from a hint that was recorded for `ino`.
pub proof fn lemma_hint_survives(entries: Seq<CacheEntry>, parent: u64, ino: u64, later: Seq<(u64, u64)>)
    requires
        entries.len() <= CACHE_CAPACITY,
        later.len() < CACHE_CAPACITY,
    ensures
        parent_in(record_all(entries, seq![(parent, ino)] + later), ino) is Some,
        exists|j: int|
            0 <= j < record_all(entries, seq![(parent, ino)] + later).len()
                && record_all(entries, seq![(parent, ino)] + later)[j] == (CacheEntry {
                ino,
                parent_ino: parent_in(record_all(entries, seq![(parent, ino)] + later), ino)->Some_0,
            }),
{
    let adds = seq![(parent, ino)] + later;
    assert(adds[0] == (parent, ino));
    assert(adds.drop_first() =~= later);
    let first = recorded(entries, parent, ino);
    assert(record_all(entries, adds) == record_all(first, later));
    lemma_survives(first, later, first.len() - 1);
    let r = record_all(entries, adds);
    let j = choose|j: int| 0 <= j < r.len() && r[j] == first[first.len() - 1];
    lemma_first_index(r, ino);
    assert(r[j].ino == ino);
    lemma_resolve_is_recorded(r, ino);
}

impl INOCache {
    pub closed spec fn view(&self) -> Seq<CacheEntry> {
        self.container@
    }

    pub open spec fn wf(&self) -> bool {
        self@.len() <= CACHE_CAPACITY
    }

    /// The parent that a lookup of `ino` gives.
    pub open spec fn resolve_spec(&self, ino: u64) -> Option<u64> {
        parent_in(self@, ino)
    }

    pub fn new() -> (r: INOCache)
        ensures
            r.wf(),
            r@ == Seq::<CacheEntry>::empty(),
    {
        INOCache { container: Vec::with_capacity(CACHE_CAPACITY) }
    }

    /// Records that `ino` lives in `parent_ino`; evicts the oldest hint when full.
    pub fn add(&mut self, parent_ino: u64, ino: u64)
        requires
            old(self).wf(),
        ensures
            final(self).wf(),
            final(self)@ == recorded(old(self)@, parent_ino, ino),
    {
        if self.container.len() >= CACHE_CAPACITY {
            self.container.remove(0);
        }
        self.container.push(CacheEntry { ino, parent_ino });
        assert(self@ =~= recorded(old(self)@, parent_ino, ino));
    }

    /// The parent of the first hint recorded for `ino`, if one remains.
    pub fn find_parent(&mut self, ino: u64) -> (r: Option<u64>)
        ensures
            *final(self) == *old(self),
            r == old(self).resolve_spec(ino),
    {
        let mut i: usize = 0;
        while i < self.container.len()
            invariant
                i <= self.container@.len(),
                forall|j: int| 0 <= j < i ==> self.container@[j].ino != ino,
            decreases self.container@.len() - i,
        {
            if self.container[i].ino == ino {
                proof {
                    lemma_first_index_at(self@, ino, i as int);
                }
                return Some(self.container[i].parent_ino);
            }
            i += 1;
        }
        proof {
            lemma_first_index(self@, ino);
        }
        None
    }
}

impl Default for INOCache {
    fn default() -> (r: INOCache)
        ensures
            r.wf(),
            r@ == Seq::<CacheEntry>::empty(),
    {
        INOCache::new()
    }
}

} // verus!
