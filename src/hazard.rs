//! Hazard pointers: each thread publishes the one address it is about to
//! dereference, and a retired address is released only once no published
//! slot names it.
use vstd::prelude::*;
use crate::reclaim::{lemma_filter_membership, Reclaimer};
use crate::slots::{holds_value, ThreadSlots};
use crate::tagged::NIL;

verus! {

/// The retire list is scanned opportunistically once it holds more entries than this.
pub const RETIRE_SCAN_THRESHOLD: usize = 10;

/// Without `force`, a scan is skipped while the retire list holds at most this many entries.
pub const RETIRE_MIN_BATCH: usize = 5;

/// Some thread's published slot names `addr`.
pub open spec fn is_hazardous(slots: Map<u64, u64>, addr: u64) -> bool {
    holds_value(slots, addr)
}

/// Whether a scan over `len` retired addresses goes ahead.
pub open spec fn scan_runs(len: nat, force: bool) -> bool {
    len > 0 && (force || len > RETIRE_MIN_BATCH)
}

/// A registry of per-thread hazard slots and the list of retired addresses.
#[derive(Debug)]
pub struct HazardPointers {
    thread_hazards: ThreadSlots,
    retire_list: Vec<u64>,
}

impl HazardPointers {
    /// The published slots, as thread identity to protected address.
    pub closed spec fn protected(&self) -> Map<u64, u64> {
        self.thread_hazards@
    }

    /// The retired addresses not yet released, oldest first.
    pub closed spec fn retired(&self) -> Seq<u64> {
        self.retire_list@
    }

    /// One slot per thread, no address retired twice, and the null address never retired.
    pub closed spec fn wf(&self) -> bool {
        &&& self.thread_hazards.wf()
        &&& self.retire_list@.no_duplicates()
        &&& !self.retire_list@.contains(NIL)
    }

    /// An empty registry.
    pub fn new() -> (r: HazardPointers)
        ensures
            r.wf(),
            r.protected() == Map::<u64, u64>::empty(),
            r.retired() == Seq::<u64>::empty(),
    {
        HazardPointers { thread_hazards: ThreadSlots::new(), retire_list: Vec::new() }
    }

    /// Publishes `ptr` in `thread`'s slot, replacing what the slot held.
    /// The null address publishes nothing. Returns `ptr`.
    pub fn protect(&mut self, thread: u64, ptr: u64) -> (r: u64)
        requires
            old(self).wf(),
        ensures
            r == ptr,
            final(self).wf(),
            final(self).retired() == old(self).retired(),
            ptr == NIL ==> final(self).protected() == old(self).protected(),
            ptr != NIL ==> final(self).protected() == old(self).protected().insert(thread, ptr),
    {
        if ptr != NIL {
            self.thread_hazards.set(thread, ptr);
        }
        ptr
    }

    /// Empties `thread`'s slot.
    pub fn clear_hazards(&mut self, thread: u64)
        requires
            old(self).wf(),
        ensures
            final(self).wf(),
            final(self).retired() == old(self).retired(),
            final(self).protected() == old(self).protected().remove(thread),
    {
        self.thread_hazards.clear(thread);
    }

    /// Scans the retire list against the published slots: every retired
    /// address that no slot names is released (and returned, oldest first);
    /// the others stay retired. The scan is skipped when the list is empty,
    /// or, without `force`, when it holds at most `RETIRE_MIN_BATCH` entries.
    pub fn try_reclaim(&mut self, force: bool) -> (freed: Vec<u64>)
        requires
            old(self).wf(),
        ensures
            final(self).wf(),
            final(self).protected() == old(self).protected(),
            !scan_runs(old(self).retired().len(), force) ==> freed@ == Seq::<u64>::empty()
                && final(self).retired() == old(self).retired(),
            scan_runs(old(self).retired().len(), force) ==> {
                &&& freed@ == old(self).retired().filter(|a: u64| !is_hazardous(old(self).protected(), a))
                &&& final(self).retired() == old(self).retired().filter(|a: u64| is_hazardous(old(self).protected(), a))
            },
            freed@.no_duplicates(),
            forall|a: u64| #[trigger] freed@.contains(a) ==> old(self).retired().contains(a),
    {
        let n = self.retire_list.len();
        if n == 0 || (!force && n <= RETIRE_MIN_BATCH) {
            return Vec::new();
        }
        let ghost list = self.retire_list@;
        proof {
            reveal(Seq::filter);
            assert(list.take(0).filter(|a: u64| !is_hazardous(old(self).protected(), a)) =~= Seq::<u64>::empty());
            assert(list.take(0).filter(|a: u64| is_hazardous(old(self).protected(), a)) =~= Seq::<u64>::empty());
        }
        let ghost keep = |a: u64| is_hazardous(old(self).protected(), a);
        let ghost drop = |a: u64| !is_hazardous(old(self).protected(), a);
        let mut to_free: Vec<u64> = Vec::new();
        let mut still: Vec<u64> = Vec::new();
        let mut i: usize = 0;
        while i < n
            invariant
                n == list.len(),
                self.retire_list@ == list,
                self.thread_hazards == old(self).thread_hazards,
                self.protected() == old(self).protected(),
                self.wf(),
                drop == (|a: u64| !is_hazardous(old(self).protected(), a)),
                keep == (|a: u64| is_hazardous(old(self).protected(), a)),
                0 <= i <= n,
                to_free@ == list.take(i as int).filter(drop),
                still@ == list.take(i as int).filter(keep),
                to_free@.no_duplicates(),
                still@.no_duplicates(),
                forall|a: u64| #[trigger] to_free@.contains(a) ==> list.take(i as int).contains(a),
                forall|a: u64| #[trigger] still@.contains(a) ==> list.take(i as int).contains(a),
            decreases n - i,
        {
            let a = self.retire_list[i];
            let hazardous = self.thread_hazards.holds(a);
            proof {
                assert(list.take(i + 1).drop_last() =~= list.take(i as int));
                assert(list.take(i + 1).last() == a);
                assert(!list.take(i as int).contains(a)) by {
                    if list.take(i as int).contains(a) {
                        let k = choose|k: int| 0 <= k < i && list.take(i as int)[k] == a;
                        assert(list[k] == list[i as int]);
                    }
                }
            }
            let ghost free_before = to_free@;
            let ghost still_before = still@;
            proof {
                assert(!free_before.contains(a));
                assert(!still_before.contains(a));
            }
            if hazardous {
                still.push(a);
            } else {
                to_free.push(a);
            }
            proof {
                let t1 = list.take(i + 1);
                reveal(Seq::filter);
                assert(t1.filter(drop) == (if drop(t1.last()) { t1.drop_last().filter(drop).push(t1.last()) } else { t1.drop_last().filter(drop) }));
                assert(t1.filter(keep) == (if keep(t1.last()) { t1.drop_last().filter(keep).push(t1.last()) } else { t1.drop_last().filter(keep) }));
                assert(drop(a) == !hazardous);
                assert(keep(a) == hazardous);
                assert(t1.drop_last() =~= list.take(i as int));
                assert(to_free@ == t1.filter(drop));
                assert(still@ == t1.filter(keep));
                assert forall|x: u64| #[trigger] to_free@.contains(x) implies list.take(i + 1).contains(x) by {
                    if x != a {
                        assert(free_before.contains(x)) by {
                            let k = choose|k: int| 0 <= k < to_free@.len() && to_free@[k] == x;
                            if hazardous { assert(free_before[k] == x); } else { assert(k < free_before.len()); assert(free_before[k] == x); }
                        }
                        assert(list.take(i as int).contains(x));
                        let k = choose|k: int| 0 <= k < i && list.take(i as int)[k] == x;
                        assert(list.take(i + 1)[k] == x);
                    } else {
                        assert(list.take(i + 1)[i as int] == x);
                    }
                }
                assert forall|x: u64| #[trigger] still@.contains(x) implies list.take(i + 1).contains(x) by {
                    if x != a {
                        assert(still_before.contains(x)) by {
                            let k = choose|k: int| 0 <= k < still@.len() && still@[k] == x;
                            if !hazardous { assert(still_before[k] == x); } else { assert(k < still_before.len()); assert(still_before[k] == x); }
                        }
                        assert(list.take(i as int).contains(x));
                        let k = choose|k: int| 0 <= k < i && list.take(i as int)[k] == x;
                        assert(list.take(i + 1)[k] == x);
                    } else {
                        assert(list.take(i + 1)[i as int] == x);
                    }
                }
            }
            i += 1;
        }
        proof {
            assert(list.take(n as int) =~= list);
        }
        self.retire_list = still;
        to_free
    }

    /// Whether `addr` is on the retire list.
    pub fn is_retired(&self, addr: u64) -> (r: bool)
        ensures
            r == self.retired().contains(addr),
    {
        let n = self.retire_list.len();
        let mut i: usize = 0;
        while i < n
            invariant
                n == self.retire_list@.len(),
                0 <= i <= n,
                forall|k: int| 0 <= k < i ==> #[trigger] self.retire_list@[k] != addr,
            decreases n - i,
        {
            if self.retire_list[i] == addr {
                return true;
            }
            i += 1;
        }
        false
    }

    /// Puts `ptr` on the retire list (the null address is ignored) and, once
    /// the list holds more than `RETIRE_SCAN_THRESHOLD` entries, runs an
    /// unforced scan. Returns the addresses that scan released.
    pub fn retire(&mut self, ptr: u64) -> (freed: Vec<u64>)
        requires
            old(self).wf(),
            ptr != NIL ==> !old(self).retired().contains(ptr),
        ensures
            final(self).wf(),
            final(self).protected() == old(self).protected(),
            ptr == NIL ==> freed@ == Seq::<u64>::empty() && final(self).retired() == old(self).retired(),
            ptr != NIL && old(self).retired().len() + 1 <= RETIRE_SCAN_THRESHOLD ==> freed@ == Seq::<u64>::empty()
                && final(self).retired() == old(self).retired().push(ptr),
            ptr != NIL && old(self).retired().len() + 1 > RETIRE_SCAN_THRESHOLD ==> {
                &&& freed@ == old(self).retired().push(ptr).filter(|a: u64| !is_hazardous(old(self).protected(), a))
                &&& final(self).retired() == old(self).retired().push(ptr).filter(|a: u64| is_hazardous(old(self).protected(), a))
            },
            freed@.no_duplicates(),
            forall|a: u64| #[trigger] freed@.contains(a) ==> old(self).retired().push(ptr).contains(a),
    {
        if ptr == NIL {
            return Vec::new();
        }
        self.retire_list.push(ptr);
        proof {
            assert(!self.retire_list@.contains(NIL)) by {
                if self.retire_list@.contains(NIL) {
                    let k = choose|k: int| 0 <= k < self.retire_list@.len() && self.retire_list@[k] == NIL;
                    if k < old(self).retired().len() {
                        assert(old(self).retired()[k] == NIL);
                    }
                }
            }
            assert(self.retire_list@.no_duplicates()) by {
                assert forall|i: int, j: int| 0 <= i < j < self.retire_list@.len() implies self.retire_list@[i] != self.retire_list@[j] by {
                    if j == self.retire_list@.len() - 1 {
                        assert(old(self).retired()[i] == self.retire_list@[i]);
                    }
                }
            }
        }
        if self.retire_list.len() > RETIRE_SCAN_THRESHOLD {
            self.try_reclaim(false)
        } else {
            Vec::new()
        }
    }

    /// The last scan at shutdown: forced, and reports how many addresses are
    /// still protected afterwards. Anything left is a leak: some thread kept
    /// a slot published after it was done.
    pub fn final_reclaim(&mut self) -> (r: (Vec<u64>, usize))
        requires
            old(self).wf(),
        ensures
            final(self).wf(),
            r.0@ == old(self).retired().filter(|a: u64| !is_hazardous(old(self).protected(), a)),
            final(self).retired() == old(self).retired().filter(|a: u64| is_hazardous(old(self).protected(), a)),
            r.1 == final(self).retired().len(),
    {
        proof {
            reveal(Seq::filter);
            if old(self).retired().len() == 0 {
                assert(old(self).retired().filter(|a: u64| !is_hazardous(old(self).protected(), a)) =~= Seq::<u64>::empty());
                assert(old(self).retired().filter(|a: u64| is_hazardous(old(self).protected(), a)) =~= old(self).retired());
            }
        }
        let freed = self.try_reclaim(true);
        let left = self.retire_list.len();
        (freed, left)
    }
}

impl Reclaimer for HazardPointers {
    open spec fn wf(&self) -> bool {
        self.wf()
    }

    open spec fn pending(&self) -> Set<u64> {
        self.retired().to_set()
    }

    open spec fn defers() -> bool {
        true
    }

    /// `thread`'s slot names `addr`.
    open spec fn protects(&self, thread: u64, addr: u64) -> bool {
        self.protected().contains_key(thread) && self.protected()[thread] == addr
    }

    /// The retired addresses that no slot names.
    open spec fn releasable(&self) -> Set<u64> {
        self.retired().to_set().filter(|a: u64| !is_hazardous(self.protected(), a))
    }

    fn protect(&mut self, thread: u64, addr: u64) {
        HazardPointers::protect(self, thread, addr);
    }

    fn release(&mut self, thread: u64) {
        self.clear_hazards(thread);
    }

    /// A forced scan.
    fn collect(&mut self) -> (freed: Vec<u64>) {
        let ghost list = old(self).retired();
        let ghost haz = old(self).protected();
        let freed = self.try_reclaim(true);
        proof {
            assert forall|a: u64| #[trigger] old(self).releasable().contains(a) <==> (old(self).pending().contains(a)
                && forall|t: u64| !#[trigger] old(self).protects(t, a)) by {
                if is_hazardous(haz, a) {
                    let t = choose|t: u64| haz.contains_key(t) && haz[t] == a;
                    assert(old(self).protects(t, a));
                }
            }
            assert(freed@.to_set() =~= old(self).releasable()) by {
                assert forall|a: u64| freed@.to_set().contains(a) <==> old(self).releasable().contains(a) by {
                    if list.len() > 0 {
                        lemma_filter_membership(list, |x: u64| !is_hazardous(haz, x), a);
                    }
                }
            }
            assert forall|a: u64| #[trigger] self.pending().contains(a) <==> (old(self).pending().contains(a) && !freed@.contains(a)) by {
                if list.len() > 0 {
                    lemma_filter_membership(list, |x: u64| !is_hazardous(haz, x), a);
                    lemma_filter_membership(list, |x: u64| is_hazardous(haz, x), a);
                }
            }
        }
        freed
    }

    fn retire(&mut self, addr: u64) -> (freed: Vec<u64>) {
        let ghost list = old(self).retired().push(addr);
        let ghost haz = old(self).protected();
        let freed = HazardPointers::retire(self, addr);
        proof {
            assert forall|a: u64, t: u64| #[trigger] freed@.contains(a) implies !#[trigger] old(self).protects(t, a) by {
                lemma_filter_membership(list, |x: u64| !is_hazardous(haz, x), a);
            }
            assert forall|a: u64| #[trigger] freed@.contains(a) implies old(self).pending().insert(addr).contains(a) by {
                if a != addr {
                    let i = choose|i: int| 0 <= i < list.len() && list[i] == a;
                    assert(old(self).retired()[i] == a);
                }
            }
            assert forall|a: u64| #[trigger] self.pending().contains(a) <==> (old(self).pending().insert(addr).contains(a) && !freed@.contains(a)) by {
                lemma_filter_membership(list, |x: u64| !is_hazardous(haz, x), a);
                lemma_filter_membership(list, |x: u64| is_hazardous(haz, x), a);
                assert(list.contains(a) <==> old(self).pending().insert(addr).contains(a)) by {
                    if a != addr && list.contains(a) {
                        let i = choose|i: int| 0 <= i < list.len() && list[i] == a;
                        assert(old(self).retired()[i] == a);
                    }
                    if a == addr { assert(list[list.len() - 1] == a); }
                    if old(self).retired().contains(a) {
                        let i = choose|i: int| 0 <= i < old(self).retired().len() && old(self).retired()[i] == a;
                        assert(list[i] == a);
                    }
                }
            }
        }
        freed
    }
}


} // verus!
