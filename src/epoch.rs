//! Epoch-based reclamation: a global epoch counter, the epoch each pinned
//! thread entered at, and nodes retired under the epoch current at the time.
//! A node retired in epoch `e` is released only once every pinned thread
//! entered after `e`.
use vstd::prelude::*;
use crate::reclaim::{lemma_filter_membership, Reclaimer};
use crate::slots::{all_values_above, all_values_equal, ThreadSlots};
use crate::tagged::NIL;

verus! {

/// No thread pinned now can still hold a reference obtained in epoch `e`.
pub open spec fn epoch_is_safe(pins: Map<u64, u64>, e: u64) -> bool {
    all_values_above(pins, e)
}

pub open spec fn addr_of(g: (u64, u64)) -> u64 {
    g.1
}

/// The global epoch, the pinned threads, and the retired (epoch, address) pairs.
#[derive(Debug)]
pub struct EpochReclaimer {
    global_epoch: u64,
    pins: ThreadSlots,
    garbage: Vec<(u64, u64)>,
}

impl EpochReclaimer {
    pub closed spec fn epoch(&self) -> u64 {
        self.global_epoch
    }

    /// Thread identity to the epoch it pinned at.
    pub closed spec fn pinned(&self) -> Map<u64, u64> {
        self.pins@
    }

    /// Retired (epoch, address) pairs not released yet, oldest first.
    pub closed spec fn retired(&self) -> Seq<(u64, u64)> {
        self.garbage@
    }

    /// One pin per thread, none ahead of the global epoch, and no address retired twice.
    pub closed spec fn wf(&self) -> bool {
        &&& self.pins.wf()
        &&& forall|t: u64| #[trigger] self.pins@.contains_key(t) ==> self.pins@[t] <= self.global_epoch
        &&& self.garbage@.map_values(|g: (u64, u64)| addr_of(g)).no_duplicates()
    }

    /// Epoch 0, nothing pinned, nothing retired.
    pub fn new() -> (r: EpochReclaimer)
        ensures
            r.wf(),
            r.epoch() == 0,
            r.pinned() == Map::<u64, u64>::empty(),
            r.retired() == Seq::<(u64, u64)>::empty(),
    {
        let r = EpochReclaimer { global_epoch: 0, pins: ThreadSlots::new(), garbage: Vec::new() };
        assert(r.garbage@.map_values(|g: (u64, u64)| addr_of(g)) =~= Seq::<u64>::empty());
        r
    }

    /// `thread` enters a critical section at the current epoch (or moves
    /// its pin up to the current epoch if it was pinned already).
    pub fn pin(&mut self, thread: u64)
        requires
            old(self).wf(),
        ensures
            final(self).wf(),
            final(self).epoch() == old(self).epoch(),
            final(self).retired() == old(self).retired(),
            final(self).pinned() == old(self).pinned().insert(thread, old(self).epoch()),
    {
        self.pins.set(thread, self.global_epoch);
    }

    /// `thread` leaves its critical section.
    pub fn unpin(&mut self, thread: u64)
        requires
            old(self).wf(),
        ensures
            final(self).wf(),
            final(self).epoch() == old(self).epoch(),
            final(self).retired() == old(self).retired(),
            final(self).pinned() == old(self).pinned().remove(thread),
    {
        self.pins.clear(thread);
    }

    /// Moves the global epoch forward by one when every pinned thread has
    /// entered at the current epoch (and the counter has room).
    pub fn try_advance(&mut self) -> (r: bool)
        requires
            old(self).wf(),
        ensures
            final(self).wf(),
            final(self).retired() == old(self).retired(),
            final(self).pinned() == old(self).pinned(),
            r == (all_values_equal(old(self).pinned(), old(self).epoch()) && old(self).epoch() < u64::MAX),
            r ==> final(self).epoch() == old(self).epoch() + 1,
            !r ==> final(self).epoch() == old(self).epoch(),
    {
        if self.global_epoch < u64::MAX && self.pins.all_equal(self.global_epoch) {
            self.global_epoch = self.global_epoch + 1;
            true
        } else {
            false
        }
    }

    /// Records `addr` as retired in the current epoch.
    pub fn retire(&mut self, addr: u64)
        requires
            old(self).wf(),
            !old(self).retired().map_values(|g: (u64, u64)| addr_of(g)).contains(addr),
        ensures
            final(self).wf(),
            final(self).epoch() == old(self).epoch(),
            final(self).pinned() == old(self).pinned(),
            final(self).retired() == old(self).retired().push((old(self).epoch(), addr)),
    {
        let ghost before = self.garbage@;
        self.garbage.push((self.global_epoch, addr));
        proof {
            let m0 = before.map_values(|g: (u64, u64)| addr_of(g));
            let m1 = self.garbage@.map_values(|g: (u64, u64)| addr_of(g));
            assert(m1 =~= m0.push(addr));
            assert forall|i: int, j: int| 0 <= i < j < m1.len() implies m1[i] != m1[j] by {
                if j == m1.len() - 1 {
                    assert(m0[i] == m1[i]);
                }
            }
        }
    }

    /// Releases every retired node whose epoch is safe (all pinned threads
    /// entered after it) and returns their addresses, oldest first; the
    /// others stay retired.
    pub fn collect(&mut self) -> (freed: Vec<u64>)
        requires
            old(self).wf(),
        ensures
            final(self).wf(),
            final(self).epoch() == old(self).epoch(),
            final(self).pinned() == old(self).pinned(),
            freed@ == old(self).retired().filter(|g: (u64, u64)| epoch_is_safe(old(self).pinned(), g.0)).map_values(
                |g: (u64, u64)| addr_of(g),
            ),
            final(self).retired() == old(self).retired().filter(|g: (u64, u64)| !epoch_is_safe(old(self).pinned(), g.0)),
            freed@.no_duplicates(),
            forall|a: u64| #[trigger] freed@.contains(a) ==> old(self).retired().map_values(|g: (u64, u64)| addr_of(g)).contains(a),
    {
        let ghost list = self.garbage@;
        let ghost addrs = list.map_values(|g: (u64, u64)| addr_of(g));
        let ghost safe = |g: (u64, u64)| epoch_is_safe(old(self).pinned(), g.0);
        let ghost unsafe_ = |g: (u64, u64)| !epoch_is_safe(old(self).pinned(), g.0);
        proof {
            reveal(Seq::filter);
            assert(list.take(0).filter(safe) =~= Seq::<(u64, u64)>::empty());
            assert(list.take(0).filter(unsafe_) =~= Seq::<(u64, u64)>::empty());
        }
        let n = self.garbage.len();
        let mut freed: Vec<u64> = Vec::new();
        let mut kept: Vec<(u64, u64)> = Vec::new();
        let mut i: usize = 0;
        while i < n
            invariant
                n == list.len(),
                self.garbage@ == list,
                self.global_epoch == old(self).global_epoch,
                self.pins == old(self).pins,
                self.wf(),
                addrs == list.map_values(|g: (u64, u64)| addr_of(g)),
                safe == (|g: (u64, u64)| epoch_is_safe(old(self).pinned(), g.0)),
                unsafe_ == (|g: (u64, u64)| !epoch_is_safe(old(self).pinned(), g.0)),
                0 <= i <= n,
                freed@ == list.take(i as int).filter(safe).map_values(|g: (u64, u64)| addr_of(g)),
                kept@ == list.take(i as int).filter(unsafe_),
                freed@.no_duplicates(),
                kept@.map_values(|g: (u64, u64)| addr_of(g)).no_duplicates(),
                forall|a: u64| #[trigger] freed@.contains(a) ==> addrs.take(i as int).contains(a),
                forall|g: (u64, u64)| #[trigger] kept@.contains(g) ==> list.take(i as int).contains(g),
            decreases n - i,
        {
            let g = self.garbage[i];
            let ok = self.pins.all_above(g.0);
            let ghost freed_before = freed@;
            let ghost kept_before = kept@;
            proof {
                assert(addrs[i as int] == g.1);
                assert(!addrs.take(i as int).contains(g.1)) by {
                    if addrs.take(i as int).contains(g.1) {
                        let k = choose|k: int| 0 <= k < i && addrs.take(i as int)[k] == g.1;
                        assert(addrs[k] == addrs[i as int]);
                    }
                }
                assert(!freed_before.contains(g.1));
            }
            if ok {
                freed.push(g.1);
            } else {
                proof {
                    let km = kept_before.map_values(|g: (u64, u64)| addr_of(g));
                    assert forall|k: int| 0 <= k < km.len() implies km[k] != g.1 by {
                        assert(kept_before.contains(kept_before[k]));
                        let k2 = choose|k2: int| 0 <= k2 < i && list.take(i as int)[k2] == kept_before[k];
                        assert(addrs[k2] == km[k]);
                    }
                }
                kept.push(g);
                proof {
                    let km = kept_before.map_values(|g: (u64, u64)| addr_of(g));
                    let km1 = kept@.map_values(|g: (u64, u64)| addr_of(g));
                    assert(km1 =~= km.push(g.1));
                    assert forall|a: int, b: int| 0 <= a < b < km1.len() implies km1[a] != km1[b] by {
                        if b == km1.len() - 1 {
                            assert(km1[a] == km[a]);
                        }
                    }
                }
            }
            proof {
                let t1 = list.take(i + 1);
                reveal(Seq::filter);
                assert(t1.drop_last() =~= list.take(i as int));
                assert(t1.last() == g);
                assert(safe(g) == ok);
                assert(unsafe_(g) == !ok);
                assert(t1.filter(safe) == (if safe(g) { list.take(i as int).filter(safe).push(g) } else { list.take(i as int).filter(safe) }));
                assert(t1.filter(unsafe_) == (if unsafe_(g) { list.take(i as int).filter(unsafe_).push(g) } else { list.take(i as int).filter(unsafe_) }));
                if ok {
                    assert(freed@ =~= t1.filter(safe).map_values(|g: (u64, u64)| addr_of(g)));
                }
                assert(kept@ == t1.filter(unsafe_));
                assert(freed@ == t1.filter(safe).map_values(|g: (u64, u64)| addr_of(g)));
                assert(addrs.take(i + 1) =~= addrs.take(i as int).push(g.1));
                assert forall|a: u64| #[trigger] freed@.contains(a) implies addrs.take(i + 1).contains(a) by {
                    if a != g.1 {
                        assert(freed_before.contains(a)) by {
                            let k = choose|k: int| 0 <= k < freed@.len() && freed@[k] == a;
                            if ok { assert(k < freed_before.len()); }
                            assert(freed_before[k] == a);
                        }
                        let k = choose|k: int| 0 <= k < i && addrs.take(i as int)[k] == a;
                        assert(addrs.take(i + 1)[k] == a);
                    } else {
                        assert(addrs.take(i + 1)[i as int] == a);
                    }
                }
                assert forall|x: (u64, u64)| #[trigger] kept@.contains(x) implies list.take(i + 1).contains(x) by {
                    if x != g {
                        assert(kept_before.contains(x)) by {
                            let k = choose|k: int| 0 <= k < kept@.len() && kept@[k] == x;
                            if !ok { assert(k < kept_before.len()); }
                            assert(kept_before[k] == x);
                        }
                        let k = choose|k: int| 0 <= k < i && list.take(i as int)[k] == x;
                        assert(list.take(i + 1)[k] == x);
                    } else {
                        assert(list.take(i + 1)[i as int] == x);
                    }
                }
            }
            i += 1;
        }
        proof {
            assert(list.take(n as int) =~= list);
            assert(addrs.take(n as int) =~= addrs);
        }
        self.garbage = kept;
        freed
    }
}

proof fn lemma_unique_addr(list: Seq<(u64, u64)>, x: (u64, u64), y: (u64, u64))
    requires
        list.map_values(|g: (u64, u64)| addr_of(g)).no_duplicates(),
        list.contains(x),
        list.contains(y),
        x.1 == y.1,
    ensures
        x == y,
{
    let m = list.map_values(|g: (u64, u64)| addr_of(g));
    let i = choose|i: int| 0 <= i < list.len() && list[i] == x;
    let j = choose|j: int| 0 <= j < list.len() && list[j] == y;
    assert(m[i] == m[j]);
}

/// `addr` was retired in an epoch before `e`.
pub open spec fn retired_before(list: Seq<(u64, u64)>, addr: u64, e: u64) -> bool {
    exists|i: int| 0 <= i < list.len() && #[trigger] list[i].1 == addr && list[i].0 < e
}

impl EpochReclaimer {
    proof fn lemma_protects_entry(&self, k: int)
        requires
            self.wf(),
            0 <= k < self.retired().len(),
        ensures
            forall|t: u64|
                #[trigger] Reclaimer::protects(self, t, self.retired()[k].1) <==> (self.pinned().contains_key(t)
                    && self.pinned()[t] <= self.retired()[k].0),
    {
        let list = self.retired();
        let m = list.map_values(|g: (u64, u64)| addr_of(g));
        assert forall|t: u64| #[trigger] Reclaimer::protects(self, t, list[k].1) <==> (self.pinned().contains_key(t)
            && self.pinned()[t] <= list[k].0) by {
            if self.pinned().contains_key(t) && retired_before(list, list[k].1, self.pinned()[t]) {
                let i = choose|i: int| 0 <= i < list.len() && #[trigger] list[i].1 == list[k].1 && list[i].0 < self.pinned()[t];
                assert(m[i] == m[k]);
            }
            if self.pinned().contains_key(t) && self.pinned()[t] > list[k].0 {
                assert(list[k].1 == list[k].1);
            }
        }
    }
}

impl Reclaimer for EpochReclaimer {
    open spec fn wf(&self) -> bool {
        self.wf()
    }

    open spec fn pending(&self) -> Set<u64> {
        self.retired().map_values(|g: (u64, u64)| addr_of(g)).to_set()
    }

    open spec fn defers() -> bool {
        true
    }

    /// `thread` is pinned, and `addr` was not retired before the epoch it pinned at.
    open spec fn protects(&self, thread: u64, addr: u64) -> bool {
        self.pinned().contains_key(thread) && !retired_before(self.retired(), addr, self.pinned()[thread])
    }

    /// The retired addresses whose epoch every pinned thread has entered after.
    open spec fn releasable(&self) -> Set<u64> {
        self.pending().filter(|a: u64| forall|t: u64| !#[trigger] self.protects(t, a))
    }

    fn protect(&mut self, thread: u64, addr: u64) {
        self.pin(thread);
        proof {
            let m = self.retired().map_values(|g: (u64, u64)| addr_of(g));
            if !old(self).pending().contains(addr) && retired_before(self.retired(), addr, self.pinned()[thread]) {
                let i = choose|i: int| 0 <= i < self.retired().len() && #[trigger] self.retired()[i].1 == addr
                    && self.retired()[i].0 < self.pinned()[thread];
                assert(m[i] == addr);
                assert(m.contains(addr));
            }
        }
    }

    fn release(&mut self, thread: u64) {
        self.unpin(thread);
    }

    /// Advances the epoch if it can, then releases what is safe.
    fn collect(&mut self) -> (freed: Vec<u64>) {
        self.try_advance();
        let ghost list = self.retired();
        let ghost pins = self.pinned();
        let ghost mid = *self;
        let freed = EpochReclaimer::collect(self);
        proof {
            let safe = |g: (u64, u64)| epoch_is_safe(pins, g.0);
            let unsafe_ = |g: (u64, u64)| !epoch_is_safe(pins, g.0);
            let lm = list.map_values(|g: (u64, u64)| addr_of(g));
            let fs = list.filter(safe);
            let kept = self.retired();
            let km = kept.map_values(|g: (u64, u64)| addr_of(g));
            assert forall|t: u64, a: u64| #[trigger] Reclaimer::protects(&mid, t, a) == Reclaimer::protects(old(self), t, a) by {}
            assert forall|a: u64| #[trigger] old(self).releasable().contains(a) <==> (old(self).pending().contains(a) && forall|t: u64|
                !#[trigger] old(self).protects(t, a)) by {}
            assert(freed@.to_set() =~= old(self).releasable()) by {
                assert forall|a: u64| freed@.to_set().contains(a) <==> old(self).releasable().contains(a) by {
                    if freed@.contains(a) {
                        let j = choose|j: int| 0 <= j < freed@.len() && freed@[j] == a;
                        assert(fs.contains(fs[j]));
                        lemma_filter_membership(list, safe, fs[j]);
                        let k = choose|k: int| 0 <= k < list.len() && list[k] == fs[j];
                        mid.lemma_protects_entry(k);
                        assert(lm[k] == a);
                        assert forall|t: u64| !#[trigger] old(self).protects(t, a) by {
                            assert(Reclaimer::protects(&mid, t, list[k].1) == Reclaimer::protects(old(self), t, a));
                        }
                    }
                    if old(self).releasable().contains(a) {
                        assert(lm.contains(a));
                        let k = choose|k: int| 0 <= k < lm.len() && lm[k] == a;
                        mid.lemma_protects_entry(k);
                        assert forall|t: u64| #[trigger] pins.contains_key(t) implies pins[t] > list[k].0 by {
                            assert(!old(self).protects(t, a));
                            assert(Reclaimer::protects(&mid, t, list[k].1) == Reclaimer::protects(old(self), t, a));
                        }
                        assert(safe(list[k]));
                        lemma_filter_membership(list, safe, list[k]);
                        let j = choose|j: int| 0 <= j < fs.len() && fs[j] == list[k];
                        assert(freed@[j] == a);
                    }
                }
            }
            assert forall|a: u64| #[trigger] self.pending().contains(a) <==> (old(self).pending().contains(a) && !freed@.contains(a)) by {
                if km.contains(a) {
                    let k = choose|k: int| 0 <= k < km.len() && km[k] == a;
                    lemma_filter_membership(list, unsafe_, kept[k]);
                    let k2 = choose|k2: int| 0 <= k2 < list.len() && list[k2] == kept[k];
                    assert(lm[k2] == a);
                    if freed@.contains(a) {
                        let j = choose|j: int| 0 <= j < freed@.len() && freed@[j] == a;
                        assert(fs.contains(fs[j]));
                        lemma_filter_membership(list, safe, fs[j]);
                        lemma_unique_addr(list, fs[j], kept[k]);
                    }
                }
                if lm.contains(a) && !freed@.contains(a) {
                    let k = choose|k: int| 0 <= k < lm.len() && lm[k] == a;
                    let g = list[k];
                    assert(list.contains(g));
                    lemma_filter_membership(list, safe, g);
                    lemma_filter_membership(list, unsafe_, g);
                    if safe(g) {
                        let j = choose|j: int| 0 <= j < fs.len() && fs[j] == g;
                        assert(freed@[j] == a);
                    }
                    let j = choose|j: int| 0 <= j < kept.len() && kept[j] == g;
                    assert(km[j] == a);
                }
            }
            assert forall|t: u64, a: u64| #[trigger] old(self).protects(t, a) implies self.protects(t, a) by {
                if retired_before(kept, a, self.pinned()[t]) {
                    let i = choose|i: int| 0 <= i < kept.len() && #[trigger] kept[i].1 == a && kept[i].0 < self.pinned()[t];
                    lemma_filter_membership(list, unsafe_, kept[i]);
                    let k = choose|k: int| 0 <= k < list.len() && list[k] == kept[i];
                    assert(list[k].1 == a);
                }
            }
        }
        freed
    }

    /// Records `addr` in the current epoch, then collects.
    fn retire(&mut self, addr: u64) -> (freed: Vec<u64>) {
        let ghost before = self.retired();
        proof {
            let m = before.map_values(|g: (u64, u64)| addr_of(g));
            assert(!m.contains(addr)) by {
                if m.contains(addr) {
                    let k = choose|k: int| 0 <= k < m.len() && m[k] == addr;
                    assert(m.to_set().contains(addr));
                }
            }
        }
        EpochReclaimer::retire(self, addr);
        let ghost mid = *self;
        proof {
            let list = self.retired();
            let lm = list.map_values(|g: (u64, u64)| addr_of(g));
            let bm = before.map_values(|g: (u64, u64)| addr_of(g));
            assert(lm =~= bm.push(addr));
            assert forall|a: u64| #[trigger] Reclaimer::pending(&mid).contains(a) <==> old(self).pending().insert(addr).contains(a) by {
                if lm.contains(a) {
                    let k = choose|k: int| 0 <= k < lm.len() && lm[k] == a;
                    if k < bm.len() {
                        assert(bm[k] == a);
                    }
                }
                if bm.contains(a) {
                    let k = choose|k: int| 0 <= k < bm.len() && bm[k] == a;
                    assert(lm[k] == a);
                }
                if a == addr {
                    assert(lm[bm.len() as int] == a);
                }
            }
            assert forall|t: u64, a: u64| #[trigger] old(self).protects(t, a) implies Reclaimer::protects(&mid, t, a) by {
                if retired_before(list, a, mid.pinned()[t]) {
                    let i = choose|i: int| 0 <= i < list.len() && #[trigger] list[i].1 == a && list[i].0 < mid.pinned()[t];
                    if i < before.len() {
                        assert(before[i] == list[i]);
                    }
                }
            }
        }
        let freed = Reclaimer::collect(self);
        proof {
            assert forall|a: u64, t: u64| #[trigger] freed@.contains(a) implies !#[trigger] old(self).protects(t, a) by {
                assert(freed@.to_set().contains(a));
            }
            assert forall|a: u64| #[trigger] freed@.contains(a) implies old(self).pending().insert(addr).contains(a) by {
                assert(freed@.to_set().contains(a));
                assert(Reclaimer::pending(&mid).contains(a));
            }
        }
        freed
    }
}

} // verus!
