//! The table of open handles: each handle id maps to the inode it was opened on.
use vstd::prelude::*;

verus! {

/// Handle ids come from a counter that starts at zero and only grows, so an id
/// is never handed out twice; the table binds the ids currently open.
pub struct HandleTable {
    global_fh: u64,
    fhs_opened: Vec<(u64, u64)>,
}

impl HandleTable {
    /// The id that the next allocation hands out.
    pub closed spec fn counter(&self) -> u64 {
        self.global_fh
    }

    closed spec fn has(&self, fh: u64) -> bool {
        exists|j: int| 0 <= j < self.fhs_opened@.len() && (#[trigger] self.fhs_opened@[j]).0 == fh
    }

    closed spec fn slot(&self, fh: u64) -> int {
        choose|j: int| 0 <= j < self.fhs_opened@.len() && (#[trigger] self.fhs_opened@[j]).0 == fh
    }

    /// Open handles and the inode each one is bound to.
    pub closed spec fn view(&self) -> Map<u64, u64> {
        Map::new(|fh: u64| self.has(fh), |fh: u64| self.fhs_opened@[self.slot(fh)].1)
    }

    pub closed spec fn wf(&self) -> bool {
        &&& forall|i: int, j: int|
            0 <= i < j < self.fhs_opened@.len() ==> (#[trigger] self.fhs_opened@[i]).0
                != (#[trigger] self.fhs_opened@[j]).0
        &&& forall|j: int|
            0 <= j < self.fhs_opened@.len() ==> (#[trigger] self.fhs_opened@[j]).0
                < self.global_fh
    }

    proof fn lemma_slot(&self, fh: u64, i: int)
        requires
            self.wf(),
            0 <= i < self.fhs_opened@.len(),
            self.fhs_opened@[i].0 == fh,
        ensures
            self@.contains_key(fh),
            self@[fh] == self.fhs_opened@[i].1,
    {
        assert(self.has(fh));
        let k = self.slot(fh);
        if k != i {
            if k < i {
                assert(self.fhs_opened@[k].0 != self.fhs_opened@[i].0);
            } else {
                assert(self.fhs_opened@[i].0 != self.fhs_opened@[k].0);
            }
        }
    }

    pub fn new() -> (r: HandleTable)
        ensures
            r.wf(),
            r.counter() == 0,
            r@ == Map::<u64, u64>::empty(),
    {
        let r = HandleTable { global_fh: 0, fhs_opened: Vec::new() };
        assert(r@ =~= Map::<u64, u64>::empty());
        r
    }

    /// The id that the next allocation hands out.
    pub fn current_fh(&self) -> (r: u64)
        ensures
            r == self.counter(),
    {
        self.global_fh
    }

    /// Hands out the current counter value and advances it by one.
    pub fn next_fh(&mut self) -> (fh: u64)
        requires
            old(self).wf(),
            old(self).counter() < u64::MAX,
        ensures
            final(self).wf(),
            fh == old(self).counter(),
            final(self).counter() == old(self).counter() + 1,
            final(self)@ == old(self)@,
    {
        let fh = self.global_fh;
        self.global_fh = self.global_fh + 1;
        assert(self@ =~= old(self)@);
        fh
    }

    /// Binds a freshly handed-out id to `ino`.
    pub fn allocate_fh(&mut self, fh: u64, ino: u64)
        requires
            old(self).wf(),
            fh < old(self).counter(),
            !old(self)@.contains_key(fh),
        ensures
            final(self).wf(),
            final(self).counter() == old(self).counter(),
            final(self)@ == old(self)@.insert(fh, ino),
    {
        let ghost prev = *self;
        self.fhs_opened.push((fh, ino));
        proof {
            assert forall|j: int| 0 <= j < prev.fhs_opened@.len() implies #[trigger] prev.fhs_opened@[j].0 != fh by {
                if prev.fhs_opened@[j].0 == fh {
                    assert(prev.has(fh));
                }
            }
            assert forall|h: u64| #[trigger] self@.contains_key(h) == prev@.insert(fh, ino).contains_key(h) by {
                if h == fh {
                    assert(self.fhs_opened@[prev.fhs_opened@.len() as int].0 == fh);
                    assert(self.has(h));
                } else if prev.has(h) {
                    let k = prev.slot(h);
                    assert(self.fhs_opened@[k] == prev.fhs_opened@[k]);
                    assert(self.has(h));
                } else if self.has(h) {
                    let k = self.slot(h);
                    assert(prev.fhs_opened@[k] == self.fhs_opened@[k]);
                }
            }
            assert forall|h: u64| #[trigger] self@.contains_key(h) implies self@[h] == prev@.insert(fh, ino)[h] by {
                if h == fh {
                    self.lemma_slot(fh, prev.fhs_opened@.len() as int);
                } else {
                    let k = prev.slot(h);
                    assert(self.fhs_opened@[k] == prev.fhs_opened@[k]);
                    self.lemma_slot(h, k);
                }
            }
            assert(self@ =~= prev@.insert(fh, ino));
        }
    }

    /// Whether `fh` is currently open.
    pub fn is_fh_allocated(&self, fh: u64) -> (r: bool)
        requires
            self.wf(),
        ensures
            r == self@.contains_key(fh),
    {
        let mut i: usize = 0;
        while i < self.fhs_opened.len()
            invariant
                self.wf(),
                i <= self.fhs_opened@.len(),
                forall|j: int| 0 <= j < i ==> (#[trigger] self.fhs_opened@[j]).0 != fh,
            decreases self.fhs_opened@.len() - i,
        {
            if self.fhs_opened[i].0 == fh {
                proof {
                    self.lemma_slot(fh, i as int);
                }
                return true;
            }
            i += 1;
        }
        false
    }

    /// The inode that `fh` is bound to, while it is open.
    pub fn get_ino(&self, fh: u64) -> (r: Option<u64>)
        requires
            self.wf(),
        ensures
            r == (if self@.contains_key(fh) { Some(self@[fh]) } else { None }),
    {
        let mut i: usize = 0;
        while i < self.fhs_opened.len()
            invariant
                self.wf(),
                i <= self.fhs_opened@.len(),
                forall|j: int| 0 <= j < i ==> (#[trigger] self.fhs_opened@[j]).0 != fh,
            decreases self.fhs_opened@.len() - i,
        {
            if self.fhs_opened[i].0 == fh {
                proof {
                    self.lemma_slot(fh, i as int);
                }
                return Some(self.fhs_opened[i].1);
            }
            i += 1;
        }
        None
    }

    /// Unbinds `fh`; an id that is not open is left alone.
    pub fn free_fh(&mut self, fh: u64)
        requires
            old(self).wf(),
        ensures
            final(self).wf(),
            final(self).counter() == old(self).counter(),
            final(self)@ == old(self)@.remove(fh),
    {
        let ghost prev = *self;
        let mut i: usize = 0;
        while i < self.fhs_opened.len()
            invariant
                *self == prev,
                prev.wf(),
                prev == *old(self),
                i <= self.fhs_opened@.len(),
                forall|j: int| 0 <= j < i ==> (#[trigger] self.fhs_opened@[j]).0 != fh,
            decreases self.fhs_opened@.len() - i,
        {
            if self.fhs_opened[i].0 == fh {
                self.fhs_opened.remove(i);
                proof {
                    let s = prev.fhs_opened@;
                    let t = self.fhs_opened@;
                    assert forall|j: int| 0 <= j < t.len() implies #[trigger] t[j] == (if j < i { s[j] } else { s[j + 1] }) by {}
                    assert forall|a: int, b: int| 0 <= a < b < t.len() implies (#[trigger] t[a]).0 != (#[trigger] t[b]).0 by {
                        let a2 = if a < i { a } else { a + 1 };
                        let b2 = if b < i { b } else { b + 1 };
                        assert(s[a2].0 != s[b2].0);
                    }
                    assert forall|j: int| 0 <= j < t.len() implies (#[trigger] t[j]).0 < self.global_fh by {
                        let j2 = if j < i { j } else { j + 1 };
                        assert(s[j2].0 < prev.global_fh);
                    }
                    assert forall|h: u64| #[trigger] self@.contains_key(h) == prev@.remove(fh).contains_key(h) by {
                        if self.has(h) {
                            let k = self.slot(h);
                            let k2 = if k < i { k } else { k + 1 };
                            assert(s[k2].0 == h);
                            assert(prev.has(h));
                            if h == fh {
                                if k2 < i {
                                    assert(s[k2].0 != s[i as int].0);
                                } else {
                                    assert(s[i as int].0 != s[k2].0);
                                }
                            }
                        } else if prev.has(h) && h != fh {
                            let k = prev.slot(h);
                            assert(k != i);
                            let k2 = if k < i { k } else { k - 1 };
                            assert(t[k2].0 == h);
                        }
                    }
                    assert forall|h: u64| #[trigger] self@.contains_key(h) implies self@[h] == prev@.remove(fh)[h] by {
                        let k = self.slot(h);
                        let k2 = if k < i { k } else { k + 1 };
                        assert(s[k2] == t[k]);
                        self.lemma_slot(h, k);
                        prev.lemma_slot(h, k2);
                    }
                    assert(self@ =~= prev@.remove(fh));
                }
                return;
            }
            i += 1;
        }
        proof {
            assert(!prev.has(fh));
            assert(self@ =~= prev@.remove(fh));
        }
    }
}

/// Ids are handed out in strictly increasing order from zero and never reused:
/// every open id lies below the counter, which `next_fh` returns and then
/// advances. Releasing an id twice leaves the table as releasing it once does.
pub proof fn lemma_handle_lifecycle(t: HandleTable, fh: u64)
    requires
        t.wf(),
    ensures
        forall|h: u64| #[trigger] t@.contains_key(h) ==> h < t.counter(),
        t@.remove(fh).remove(fh) == t@.remove(fh),
        !t@.remove(fh).contains_key(fh),
{
    assert forall|h: u64| #[trigger] t@.contains_key(h) implies h < t.counter() by {
        assert(t.has(h));
        let k = t.slot(h);
        assert(t.fhs_opened@[k].0 == h);
    }
    assert(t@.remove(fh).remove(fh) =~= t@.remove(fh));
}

} // verus!
