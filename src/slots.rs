//! A table with at most one slot per thread, each holding one word: the
//! address a thread protects, or the epoch a thread is pinned at.
use vstd::prelude::*;

verus! {

/// Some thread's slot holds `v`.
pub open spec fn holds_value(slots: Map<u64, u64>, v: u64) -> bool {
    exists|t: u64| slots.contains_key(t) && slots[t] == v
}

/// Every slot holds a word greater than `bound`.
pub open spec fn all_values_above(slots: Map<u64, u64>, bound: u64) -> bool {
    forall|t: u64| #[trigger] slots.contains_key(t) ==> slots[t] > bound
}

/// Every slot holds exactly `w`.
pub open spec fn all_values_equal(slots: Map<u64, u64>, w: u64) -> bool {
    forall|t: u64| #[trigger] slots.contains_key(t) ==> slots[t] == w
}

/// The map from thread to address that a list of unique (thread, address) slots describes.
pub open spec fn slot_map(s: Seq<(u64, u64)>) -> Map<u64, u64> {
    Map::new(
        |t: u64| exists|i: int| 0 <= i < s.len() && s[i].0 == t,
        |t: u64| s[choose|i: int| 0 <= i < s.len() && s[i].0 == t].1,
    )
}

pub open spec fn unique_threads(s: Seq<(u64, u64)>) -> bool {
    forall|i: int, j: int| 0 <= i < j < s.len() ==> #[trigger] s[i].0 != #[trigger] s[j].0
}

proof fn lemma_slot_map_at(s: Seq<(u64, u64)>, k: int)
    requires
        unique_threads(s),
        0 <= k < s.len(),
    ensures
        slot_map(s).contains_key(s[k].0),
        slot_map(s)[s[k].0] == s[k].1,
{
    let t = s[k].0;
    assert(slot_map(s).contains_key(t));
    let c = choose|i: int| 0 <= i < s.len() && s[i].0 == t;
    if c != k {
        if c < k {
            assert(s[c].0 != s[k].0);
        } else {
            assert(s[k].0 != s[c].0);
        }
    }
}

/// One (thread, word) slot per thread.
#[derive(Debug)]
pub struct ThreadSlots {
    entries: Vec<(u64, u64)>,
}

impl View for ThreadSlots {
    type V = Map<u64, u64>;

    closed spec fn view(&self) -> Map<u64, u64> {
        slot_map(self.entries@)
    }
}

impl ThreadSlots {
    pub closed spec fn wf(&self) -> bool {
        unique_threads(self.entries@)
    }

    pub fn new() -> (r: ThreadSlots)
        ensures
            r.wf(),
            r@ == Map::<u64, u64>::empty(),
    {
        let r = ThreadSlots { entries: Vec::new() };
        assert(r@ =~= Map::<u64, u64>::empty());
        r
    }

    /// Sets `thread`'s slot to `word`, adding the slot if the thread has none.
    pub fn set(&mut self, thread: u64, word: u64)
        requires
            old(self).wf(),
        ensures
            final(self).wf(),
            final(self)@ == old(self)@.insert(thread, word),
    {
        let ghost before = self.entries@;
        let n = self.entries.len();
        let mut i: usize = 0;
        while i < n
            invariant
                n == self.entries@.len(),
                self.entries@ == before,
                self.wf(),
                old(self).entries@ == before,
                0 <= i <= n,
                forall|k: int| 0 <= k < i ==> #[trigger] before[k].0 != thread,
            decreases n - i,
        {
            if self.entries[i].0 == thread {
                self.entries[i] = (thread, word);
                proof {
                    let after = self.entries@;
                    assert(after =~= before.update(i as int, (thread, word)));
                    assert forall|t: u64| #[trigger] self@.contains_key(t) == old(self)@.insert(thread, word).contains_key(t) by {
                        if t != thread {
                            if old(self)@.contains_key(t) {
                                let k = choose|k: int| 0 <= k < before.len() && before[k].0 == t;
                                assert(after[k].0 == t);
                            }
                            if self@.contains_key(t) {
                                let k = choose|k: int| 0 <= k < after.len() && after[k].0 == t;
                                assert(before[k].0 == t);
                            }
                        } else {
                            assert(after[i as int].0 == t);
                        }
                    }
                    assert forall|t: u64| #[trigger] self@.contains_key(t) implies self@[t] == old(self)@.insert(thread, word)[t] by {
                        let k = choose|k: int| 0 <= k < after.len() && after[k].0 == t;
                        if t == thread {
                            assert(k == i);
                        } else {
                            assert(before[k].0 == t);
                            let k2 = choose|k2: int| 0 <= k2 < before.len() && before[k2].0 == t;
                            assert(k2 == k);
                        }
                    }
                    assert(self@ =~= old(self)@.insert(thread, word));
                }
                return;
            }
            i += 1;
        }
        self.entries.push((thread, word));
        proof {
            let after = self.entries@;
            let last = before.len() as int;
            assert forall|t: u64| #[trigger] self@.contains_key(t) == old(self)@.insert(thread, word).contains_key(t) by {
                if old(self)@.contains_key(t) {
                    let k = choose|k: int| 0 <= k < before.len() && before[k].0 == t;
                    assert(after[k].0 == t);
                }
                if self@.contains_key(t) && t != thread {
                    let k = choose|k: int| 0 <= k < after.len() && after[k].0 == t;
                    assert(before[k].0 == t);
                }
                if t == thread {
                    assert(after[last].0 == t);
                }
            }
            assert forall|t: u64| #[trigger] self@.contains_key(t) implies self@[t] == old(self)@.insert(thread, word)[t] by {
                let k = choose|k: int| 0 <= k < after.len() && after[k].0 == t;
                if t == thread {
                    assert(k == last);
                } else {
                    assert(before[k].0 == t);
                    let k2 = choose|k2: int| 0 <= k2 < before.len() && before[k2].0 == t;
                    assert(k2 == k);
                }
            }
            assert(self@ =~= old(self)@.insert(thread, word));
        }
    }

    /// Removes `thread`'s slot.
    pub fn clear(&mut self, thread: u64)
        requires
            old(self).wf(),
        ensures
            final(self).wf(),
            final(self)@ == old(self)@.remove(thread),
    {
        let ghost before = self.entries@;
        let n = self.entries.len();
        let mut i: usize = 0;
        while i < n
            invariant
                n == before.len(),
                self.entries@ == before,
                old(self).entries@ == before,
                self.wf(),
                0 <= i <= n,
                forall|k: int| 0 <= k < i ==> #[trigger] before[k].0 != thread,
            decreases n - i,
        {
            if self.entries[i].0 == thread {
                self.entries.remove(i);
                proof {
                    let after = self.entries@;
                    assert(after =~= before.remove(i as int));
                    assert forall|a: int, b: int| 0 <= a < b < after.len() implies #[trigger] after[a].0 != #[trigger] after[b].0 by {
                        let a2 = if a < i { a } else { a + 1 };
                        let b2 = if b < i { b } else { b + 1 };
                        assert(before[a2].0 != before[b2].0);
                    }
                    assert forall|t: u64| #[trigger] slot_map(after).contains_key(t) == slot_map(before).remove(thread).contains_key(t) by {
                        if slot_map(after).contains_key(t) {
                            let k = choose|k: int| 0 <= k < after.len() && after[k].0 == t;
                            let k2 = if k < i { k } else { k + 1 };
                            assert(before[k2].0 == t);
                            if t == thread {
                                assert(before[i as int].0 == thread);
                                if k2 < i { assert(before[k2].0 != before[i as int].0); }
                                else { assert(before[i as int].0 != before[k2].0); }
                            }
                        }
                        if slot_map(before).remove(thread).contains_key(t) {
                            let k = choose|k: int| 0 <= k < before.len() && before[k].0 == t;
                            assert(k != i);
                            let k2 = if k < i { k } else { k - 1 };
                            assert(after[k2].0 == t);
                        }
                    }
                    assert forall|t: u64| #[trigger] slot_map(after).contains_key(t) implies slot_map(after)[t] == slot_map(before)[t] by {
                        let k = choose|k: int| 0 <= k < after.len() && after[k].0 == t;
                        let k2 = if k < i { k } else { k + 1 };
                        lemma_slot_map_at(after, k);
                        lemma_slot_map_at(before, k2);
                    }
                    assert(slot_map(after) =~= slot_map(before).remove(thread));
                }
                return;
            }
            i += 1;
        }
        proof {
            assert(!slot_map(before).contains_key(thread));
            assert(slot_map(before) =~= slot_map(before).remove(thread));
        }
    }

    /// Whether some slot holds `addr`.
    pub fn holds(&self, addr: u64) -> (r: bool)
        requires
            self.wf(),
        ensures
            r == holds_value(self@, addr),
    {
        let n = self.entries.len();
        let mut i: usize = 0;
        while i < n
            invariant
                n == self.entries@.len(),
                self.wf(),
                0 <= i <= n,
                forall|k: int| 0 <= k < i ==> #[trigger] self.entries@[k].1 != addr,
            decreases n - i,
        {
            if self.entries[i].1 == addr {
                proof {
                    lemma_slot_map_at(self.entries@, i as int);
                }
                return true;
            }
            i += 1;
        }
        proof {
            if holds_value(self@, addr) {
                let t = choose|t: u64| self@.contains_key(t) && self@[t] == addr;
                let k = choose|k: int| 0 <= k < self.entries@.len() && self.entries@[k].0 == t;
                lemma_slot_map_at(self.entries@, k);
            }
        }
        false
    }


    /// Whether every slot holds a word greater than `bound`.
    pub fn all_above(&self, bound: u64) -> (r: bool)
        requires
            self.wf(),
        ensures
            r == all_values_above(self@, bound),
    {
        let n = self.entries.len();
        let mut i: usize = 0;
        while i < n
            invariant
                n == self.entries@.len(),
                self.wf(),
                0 <= i <= n,
                forall|k: int| 0 <= k < i ==> #[trigger] self.entries@[k].1 > bound,
            decreases n - i,
        {
            if self.entries[i].1 <= bound {
                proof {
                    lemma_slot_map_at(self.entries@, i as int);
                }
                return false;
            }
            i += 1;
        }
        proof {
            assert forall|t: u64| #[trigger] self@.contains_key(t) implies self@[t] > bound by {
                let k = choose|k: int| 0 <= k < self.entries@.len() && self.entries@[k].0 == t;
                lemma_slot_map_at(self.entries@, k);
            }
        }
        true
    }

    /// Whether every slot holds exactly `w`.
    pub fn all_equal(&self, w: u64) -> (r: bool)
        requires
            self.wf(),
        ensures
            r == all_values_equal(self@, w),
    {
        let n = self.entries.len();
        let mut i: usize = 0;
        while i < n
            invariant
                n == self.entries@.len(),
                self.wf(),
                0 <= i <= n,
                forall|k: int| 0 <= k < i ==> #[trigger] self.entries@[k].1 == w,
            decreases n - i,
        {
            if self.entries[i].1 != w {
                proof {
                    lemma_slot_map_at(self.entries@, i as int);
                }
                return false;
            }
            i += 1;
        }
        proof {
            assert forall|t: u64| #[trigger] self@.contains_key(t) implies self@[t] == w by {
                let k = choose|k: int| 0 <= k < self.entries@.len() && self.entries@[k].0 == t;
                lemma_slot_map_at(self.entries@, k);
            }
        }
        true
    }
}

} // verus!
