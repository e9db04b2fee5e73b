//! A Treiber stack over an index arena. The head is a versioned tagged
//! pointer; an unlinked node is handed to the reclamation scheme, and its
//! slot is reused only once the scheme releases it.
//!
//! Every operation takes `&mut self` and is one step of the stack. The
//! compare-and-swap step is also offered on its own (`load_head`,
//! `protect_head`, `try_pop_at`), so that a snapshot taken before other
//! operations can be replayed against the head afterwards.
use vstd::prelude::*;
use crate::epoch::EpochReclaimer;
use crate::reclaim::{held_back, Reclaimer};
use crate::tagged::{next_version, AtomicTaggedPtr, TaggedPtr, NIL};

verus! {

/// Why a push did not happen.
#[derive(Debug, Clone, Copy, PartialEq, Eq)]
pub enum StackError {
    /// The stack holds as many values as its capacity allows.
    CapacityExceeded,
    /// No node could be linked in: the arena or the size counter is exhausted.
    PushFailed,
}

/// One arena slot: a value while linked, and the address of the node below.
#[derive(Debug)]
pub struct Node<T> {
    pub value: Option<T>,
    pub next: u64,
}

/// What unlinking the node at `top` leaves: it is held by the scheme or
/// free for reuse; it stays with the scheme while a thread protects it; any
/// other address the scheme holds for a protecting thread stays held; and
/// no protection is dropped.
pub open spec fn unlinked_to_scheme<T, R: Reclaimer>(before: LockFreeStack<T, R>, after: LockFreeStack<T, R>, top: u64) -> bool {
    &&& after.reclaimer().pending().contains(top) || after.free_slots().contains(top)
    &&& held_back(before.reclaimer(), top) ==> after.reclaimer().pending().contains(top)
    &&& forall|a: u64|
        #[trigger] before.reclaimer().pending().contains(a) && held_back(before.reclaimer(), a)
            ==> after.reclaimer().pending().contains(a)
    &&& forall|t: u64, a: u64| #[trigger] before.reclaimer().protects(t, a) ==> after.reclaimer().protects(t, a)
}

/// A LIFO stack whose nodes live in an arena, generic over the reclamation
/// scheme `R` that decides when an unlinked node's slot may be reused.
pub struct LockFreeStack<T, R> {
    nodes: Vec<Node<T>>,
    free: Vec<u64>,
    head: AtomicTaggedPtr,
    size: usize,
    capacity: Option<usize>,
    reclaimer: R,
    /// Addresses of the linked nodes, bottom first.
    chain: Ghost<Seq<u64>>,
}

impl<T, R: Reclaimer> View for LockFreeStack<T, R> {
    type V = Seq<T>;

    /// The values from bottom to top.
    closed spec fn view(&self) -> Seq<T> {
        Seq::new(self.chain@.len(), |i: int| self.nodes@[self.chain@[i] as int].value->0)
    }
}

impl<T, R: Reclaimer> LockFreeStack<T, R> {
    /// The head word: top address (`NIL` when empty) and version.
    pub closed spec fn head(&self) -> TaggedPtr {
        self.head@
    }

    pub closed spec fn capacity(&self) -> Option<usize> {
        self.capacity
    }

    pub closed spec fn reclaimer(&self) -> R {
        self.reclaimer
    }

    /// The number of arena slots ever taken.
    pub closed spec fn slot_count(&self) -> nat {
        self.nodes@.len()
    }

    /// Neither a free slot nor a new one can be had, or the size counter is full.
    pub open spec fn exhausted(&self) -> bool {
        self@.len() == usize::MAX || (self.free_slots().len() == 0 && self.slot_count() >= NIL)
    }

    /// A push is refused for capacity.
    pub open spec fn at_capacity(&self) -> bool {
        self.capacity() is Some && self@.len() >= self.capacity()->0
    }

    /// Addresses of the linked nodes, bottom first.
    pub closed spec fn linked(&self) -> Seq<u64> {
        self.chain@
    }

    /// Slots that the next allocations may take.
    pub closed spec fn free_slots(&self) -> Seq<u64> {
        self.free@
    }

    /// Safe reuse in the arena: no slot is linked twice, a slot that may be
    /// reused is linked nowhere and listed once, and a slot the scheme still
    /// holds back is neither linked nor free. So a node is never handed out
    /// again while reachable, nor handed out twice.
    pub proof fn lemma_slots_disjoint(&self)
        requires
            self.wf(),
        ensures
            self.linked().no_duplicates(),
            self.free_slots().no_duplicates(),
            forall|a: u64| #[trigger] self.free_slots().contains(a) ==> !self.linked().contains(a),
            forall|a: u64|
                #[trigger] self.reclaimer().pending().contains(a) ==> !self.linked().contains(a) && !self.free_slots().contains(a),
    {
    }

    pub closed spec fn wf(&self) -> bool {
        let chain = self.chain@;
        let n = self.nodes@.len();
        &&& self.reclaimer.wf()
        &&& n <= NIL
        &&& self.size == chain.len()
        &&& chain.no_duplicates()
        &&& (chain.len() == 0 <==> self.head@.ptr == NIL)
        &&& chain.len() > 0 ==> self.head@.ptr == chain.last()
        &&& forall|i: int| 0 <= i < chain.len() ==> #[trigger] chain[i] < n
        &&& forall|i: int| 0 <= i < chain.len() ==> (#[trigger] self.nodes@[chain[i] as int]).value is Some
        &&& forall|i: int| 0 < i < chain.len() ==> #[trigger] self.nodes@[chain[i] as int].next == chain[i - 1]
        &&& chain.len() > 0 ==> self.nodes@[chain[0] as int].next == NIL
        &&& self.free@.no_duplicates()
        &&& forall|i: int| 0 <= i < self.free@.len() ==> #[trigger] self.free@[i] < n
        &&& forall|a: u64| #[trigger] self.free@.contains(a) ==> !chain.contains(a)
        &&& forall|a: u64| #[trigger] self.reclaimer.pending().contains(a) ==> a < n && !chain.contains(a) && !self.free@.contains(a)
    }

    /// An empty stack that retires through `reclaimer`, bounded by `capacity` if given.
    pub fn with_reclaimer(reclaimer: R, capacity: Option<usize>) -> (r: Self)
        requires
            reclaimer.wf(),
            reclaimer.pending() == Set::<u64>::empty(),
        ensures
            r.wf(),
            r@ == Seq::<T>::empty(),
            r.capacity() == capacity,
            r.head() == (TaggedPtr { ptr: NIL, version: 0 }),
            r.slot_count() == 0,
    {
        let r = LockFreeStack {
            nodes: Vec::new(),
            free: Vec::new(),
            head: AtomicTaggedPtr::new(),
            size: 0,
            capacity,
            reclaimer,
            chain: Ghost(Seq::empty()),
        };
        assert(r@ =~= Seq::<T>::empty());
        r
    }

    /// The number of values on the stack.
    pub fn len(&self) -> (r: usize)
        requires
            self.wf(),
        ensures
            r == self@.len(),
    {
        self.size
    }

    pub fn is_empty(&self) -> (r: bool)
        requires
            self.wf(),
        ensures
            r == (self@.len() == 0),
    {
        self.size == 0
    }

    /// A snapshot of the head word.
    pub fn load_head(&self) -> (r: TaggedPtr)
        ensures
            r == self.head(),
    {
        self.head.load()
    }

    /// Pushes `value` on top. Fails with `CapacityExceeded`, before taking a
    /// node, when a bounded stack is full.
    pub fn push(&mut self, value: T) -> (r: Result<(), StackError>)
        requires
            old(self).wf(),
        ensures
            final(self).wf(),
            final(self).capacity() == old(self).capacity(),
            final(self).slot_count() <= old(self).slot_count() + 1,
            old(self).at_capacity() ==> r == Err::<(), StackError>(StackError::CapacityExceeded),
            !old(self).at_capacity() && old(self).exhausted() ==> r == Err::<(), StackError>(StackError::PushFailed),
            !old(self).at_capacity() && !old(self).exhausted() ==> r is Ok,
            r is Ok ==> final(self)@ == old(self)@.push(value) && final(self).head().version == next_version(
                old(self).head().version,
            ),
            r is Err ==> *final(self) == *old(self),
            r is Ok ==> {
                &&& final(self).reclaimer() == old(self).reclaimer()
                &&& old(self).free_slots().contains(final(self).head().ptr) || final(self).head().ptr == old(self).slot_count()
                &&& !old(self).reclaimer().pending().contains(final(self).head().ptr)
            },
    {
        if let Some(c) = self.capacity {
            if self.size >= c {
                return Err(StackError::CapacityExceeded);
            }
        }
        if self.size == usize::MAX {
            return Err(StackError::PushFailed);
        }
        let ghost chain = self.chain@;
        let ghost old_nodes = self.nodes@;
        let current = self.head.load();
        let idx: u64;
        if self.free.len() > 0 {
            let ghost free_before = self.free@;
            idx = self.free.pop().unwrap();
            proof {
                assert(free_before.contains(idx)) by {
                    assert(free_before[free_before.len() - 1] == idx);
                }
                assert(free_before =~= self.free@.push(idx));
                assert(idx < self.nodes.len());
                assert forall|a: u64| #[trigger] self.free@.contains(a) implies a != idx && old(self).free@.contains(a) by {
                    let k = choose|k: int| 0 <= k < self.free@.len() && self.free@[k] == a;
                    assert(free_before[k] == a);
                    assert(free_before[free_before.len() - 1] == idx);
                }
            }
            self.nodes.set(idx as usize, Node { value: Some(value), next: current.ptr });
            assert(self.nodes@ == old_nodes.update(idx as int, Node { value: Some(value), next: current.ptr }));
        } else {
            if self.nodes.len() as u64 >= NIL {
                return Err(StackError::PushFailed);
            }
            idx = self.nodes.len() as u64;
            self.nodes.push(Node { value: Some(value), next: current.ptr });
            assert(self.nodes@ == old_nodes.push(Node { value: Some(value), next: current.ptr }));
            assert forall|a: u64| #[trigger] self.free@.contains(a) implies a != idx && old(self).free@.contains(a) by {
                let k = choose|k: int| 0 <= k < self.free@.len() && self.free@[k] == a;
            }
        }
        assert(self.nodes@.len() == old_nodes.len() || self.nodes@.len() == old_nodes.len() + 1);
        assert(forall|j: int| 0 <= j < old_nodes.len() && j != idx ==> self.nodes@[j] == old_nodes[j]);
        let swapped = self.head.compare_and_swap(current, idx);
        assert(swapped is Ok);
        self.size = self.size + 1;
        self.chain = Ghost(chain.push(idx));
        proof {
            let c2 = self.chain@;
            assert(!chain.contains(idx));
            assert forall|i: int| 0 <= i < chain.len() implies #[trigger] self.nodes@[chain[i] as int] == old_nodes[chain[i] as int] by {
                assert(chain[i] != idx);
            }
            assert forall|i: int| 0 <= i < c2.len() - 1 implies #[trigger] c2[i] == chain[i] by {}
            assert(self@ =~= old(self)@.push(value));
            let n = self.nodes@.len();
            assert(self.reclaimer.wf());
            assert(n <= NIL);
            assert forall|a: u64| c2.contains(a) implies a == idx || chain.contains(a) by {
                let k = choose|k: int| 0 <= k < c2.len() && c2[k] == a;
                if k < chain.len() {
                    assert(chain[k] == a);
                }
            }
            assert(c2.no_duplicates());
            assert(self.head@.ptr == c2.last());
            assert(forall|i: int| 0 <= i < c2.len() ==> #[trigger] c2[i] < n);
            assert(forall|i: int| 0 <= i < c2.len() ==> (#[trigger] self.nodes@[c2[i] as int]).value is Some);
            assert(forall|i: int| 0 < i < c2.len() ==> #[trigger] self.nodes@[c2[i] as int].next == c2[i - 1]);
            assert(self.nodes@[c2[0] as int].next == NIL);
            assert(self.free@.no_duplicates());
            assert(forall|i: int| 0 <= i < self.free@.len() ==> #[trigger] self.free@[i] < n);
            assert(forall|a: u64| #[trigger] self.free@.contains(a) ==> !c2.contains(a));
            assert(forall|a: u64| #[trigger] self.reclaimer.pending().contains(a) ==> a < n && !c2.contains(a) && !self.free@.contains(a));
        }
        Ok(())
    }

    /// One pop attempt against `snapshot`. The head is re-validated first:
    /// if it no longer holds exactly `snapshot` (address and version), the
    /// attempt fails and returns what the head holds. Otherwise an empty
    /// stack gives `Ok(None)`, and a non-empty one swings the head to the
    /// node below, retires the old top and gives its value.
    pub fn try_pop_at(&mut self, snapshot: TaggedPtr) -> (r: Result<Option<T>, TaggedPtr>)
        requires
            old(self).wf(),
        ensures
            final(self).slot_count() == old(self).slot_count(),
            final(self).wf(),
            final(self).capacity() == old(self).capacity(),
            snapshot != old(self).head() ==> r == Err::<Option<T>, TaggedPtr>(old(self).head())
                && final(self)@ == old(self)@ && final(self).head() == old(self).head(),
            snapshot == old(self).head() && old(self)@.len() == 0 ==> r == Ok::<Option<T>, TaggedPtr>(None)
                && final(self)@ == old(self)@ && final(self).head() == old(self).head(),
            snapshot != old(self).head() || old(self)@.len() == 0 ==> *final(self) == *old(self),
            snapshot == old(self).head() && old(self)@.len() > 0 ==> unlinked_to_scheme(*old(self), *final(self), old(self).head().ptr),
            snapshot == old(self).head() && old(self)@.len() > 0 ==> {
                &&& r == Ok::<Option<T>, TaggedPtr>(Some(old(self)@.last()))
                &&& final(self)@ == old(self)@.drop_last()
                &&& final(self).head().version == next_version(old(self).head().version)
            },
    {
        let current = self.head.load();
        if current.ptr != snapshot.ptr || current.version != snapshot.version {
            return Err(current);
        }
        if current.ptr == NIL {
            return Ok(None);
        }
        let ghost chain = self.chain@;
        let ghost old_nodes = self.nodes@;
        let top = current.ptr;
        proof {
            assert(chain.last() == top);
            assert(top < self.nodes.len());
        }
        let next = self.nodes[top as usize].next;
        let swapped = self.head.compare_and_swap(current, next);
        assert(swapped is Ok);
        let mut slot = Node { value: None, next: NIL };
        self.nodes.set_and_swap(top as usize, &mut slot);
        self.size = self.size - 1;
        let ghost rest = chain.drop_last();
        self.chain = Ghost(rest);
        proof {
            assert forall|a: u64| rest.contains(a) implies chain.contains(a) && a != top by {
                let k = choose|k: int| 0 <= k < rest.len() && rest[k] == a;
                assert(chain[k] == a);
                assert(chain[chain.len() - 1] == top);
            }
            assert(!self.reclaimer.pending().contains(top));
            assert(chain.contains(top)) by {
                assert(chain[chain.len() - 1] == top);
            }
        }
        let ghost pending_before = self.reclaimer.pending();
        let ghost free_before = self.free@;
        let mut freed = self.reclaimer.retire(top);
        let ghost freed_s = freed@;
        self.free.append(&mut freed);
        proof {
            let n = self.nodes@.len();
            let f2 = self.free@;
            assert(f2 == free_before + freed_s);
            assert forall|a: u64| #[trigger] freed_s.contains(a) implies a < n && !rest.contains(a) && !free_before.contains(a) by {
                assert(pending_before.insert(top).contains(a));
            }
            assert forall|a: u64| #[trigger] f2.contains(a) implies (free_before.contains(a) || freed_s.contains(a)) by {
                let k = choose|k: int| 0 <= k < f2.len() && f2[k] == a;
                if k < free_before.len() {
                    assert(free_before[k] == a);
                } else {
                    assert(freed_s[k - free_before.len()] == a);
                }
            }
            assert forall|i: int, j: int| 0 <= i < j < f2.len() implies f2[i] != f2[j] by {
                if j >= free_before.len() && i < free_before.len() {
                    assert(freed_s.contains(f2[j]));
                    assert(free_before.contains(f2[i]));
                }
            }
            assert forall|i: int| 0 <= i < f2.len() implies #[trigger] f2[i] < n by {
                if i >= free_before.len() {
                    assert(freed_s.contains(f2[i]));
                }
            }
            assert forall|a: u64| #[trigger] self.reclaimer.pending().contains(a) implies a < n && !rest.contains(a) && !f2.contains(a) by {
                assert(pending_before.insert(top).contains(a));
            }
            assert forall|i: int| 0 <= i < rest.len() implies #[trigger] self.nodes@[rest[i] as int] == old_nodes[rest[i] as int] by {
                assert(rest[i] == chain[i]);
                assert(chain[i] != top);
            }
            assert(self@ =~= old(self)@.drop_last());
            let rb = old(self).reclaimer;
            assert(rb == old(self).reclaimer());
            if freed_s.contains(top) {
                let k = choose|k: int| 0 <= k < freed_s.len() && freed_s[k] == top;
                assert(f2[free_before.len() + k] == top);
            }
            assert(held_back(rb, top) ==> self.reclaimer.pending().contains(top)) by {
                if held_back(rb, top) {
                    let t = choose|t: u64| #[trigger] rb.protects(t, top);
                    assert(!freed_s.contains(top));
                }
            }
            assert forall|a: u64| #[trigger] rb.pending().contains(a) && held_back(rb, a)
                implies self.reclaimer.pending().contains(a) by {
                let t = choose|t: u64| #[trigger] rb.protects(t, a);
                assert(!freed_s.contains(a));
            }
        }
        Ok(slot.value)
    }

    /// Removes and returns the top value; `None` on an empty stack.
    pub fn pop(&mut self) -> (r: Option<T>)
        requires
            old(self).wf(),
        ensures
            final(self).slot_count() == old(self).slot_count(),
            final(self).wf(),
            final(self).capacity() == old(self).capacity(),
            old(self)@.len() == 0 ==> r is None && final(self)@ == old(self)@ && final(self).head() == old(self).head(),
            old(self)@.len() == 0 ==> *final(self) == *old(self),
            old(self)@.len() > 0 ==> unlinked_to_scheme(*old(self), *final(self), old(self).head().ptr),
            old(self)@.len() > 0 ==> {
                &&& r == Some(old(self)@.last())
                &&& final(self)@ == old(self)@.drop_last()
                &&& final(self).head().version == next_version(old(self).head().version)
            },
    {
        let snapshot = self.head.load();
        match self.try_pop_at(snapshot) {
            Ok(r) => r,
            Err(_) => None,
        }
    }

    /// Reads the head for `thread` and protects the node it names through
    /// the scheme (publishes it as a hazard, or pins the thread), returning
    /// the snapshot for a later `try_pop_at`.
    pub fn protect_head(&mut self, thread: u64) -> (r: TaggedPtr)
        requires
            old(self).wf(),
        ensures
            final(self).slot_count() == old(self).slot_count(),
            final(self).wf(),
            r == old(self).head(),
            final(self)@ == old(self)@,
            final(self).head() == old(self).head(),
            final(self).capacity() == old(self).capacity(),
            R::defers() && old(self).head().ptr != NIL ==> final(self).reclaimer().protects(thread, old(self).head().ptr),
            forall|t: u64, a: u64| t != thread ==> #[trigger] final(self).reclaimer().protects(t, a) == old(self).reclaimer().protects(t, a),
            final(self).reclaimer().pending() == old(self).reclaimer().pending(),
    {
        let snapshot = self.head.load();
        self.reclaimer.protect(thread, snapshot.ptr);
        snapshot
    }

    /// `thread` is done with what it protected.
    pub fn release(&mut self, thread: u64)
        requires
            old(self).wf(),
        ensures
            final(self).slot_count() == old(self).slot_count(),
            final(self).wf(),
            final(self)@ == old(self)@,
            final(self).head() == old(self).head(),
            final(self).capacity() == old(self).capacity(),
            forall|a: u64| !#[trigger] final(self).reclaimer().protects(thread, a),
            forall|t: u64, a: u64| t != thread ==> #[trigger] final(self).reclaimer().protects(t, a) == old(self).reclaimer().protects(t, a),
            final(self).reclaimer().pending() == old(self).reclaimer().pending(),
    {
        self.reclaimer.release(thread);
    }

    /// Asks the scheme to release what is safe now and makes those slots
    /// available to later pushes.
    pub fn try_collect_garbage(&mut self)
        requires
            old(self).wf(),
        ensures
            final(self).slot_count() == old(self).slot_count(),
            final(self).wf(),
            final(self)@ == old(self)@,
            final(self).head() == old(self).head(),
            final(self).capacity() == old(self).capacity(),
            final(self).reclaimer().pending() == old(self).reclaimer().pending().difference(old(self).reclaimer().releasable()),
            final(self).free_slots().to_set() == old(self).free_slots().to_set().union(old(self).reclaimer().releasable()),
            forall|t: u64, a: u64| #[trigger] old(self).reclaimer().protects(t, a) ==> final(self).reclaimer().protects(t, a),
    {
        let ghost pending_before = self.reclaimer.pending();
        let ghost free_before = self.free@;
        let mut freed = self.reclaimer.collect();
        let ghost freed_s = freed@;
        self.free.append(&mut freed);
        proof {
            let n = self.nodes@.len();
            let chain = self.chain@;
            let f2 = self.free@;
            assert(f2 == free_before + freed_s);
            assert forall|a: u64| #[trigger] freed_s.contains(a) implies pending_before.contains(a) by {
                assert(freed_s.to_set().contains(a));
            }
            assert(self.reclaimer.pending() =~= pending_before.difference(old(self).reclaimer.releasable())) by {
                assert forall|a: u64| self.reclaimer.pending().contains(a) == pending_before.difference(old(self).reclaimer.releasable()).contains(a) by {
                    assert(freed_s.to_set().contains(a) == freed_s.contains(a));
                }
            }
            assert forall|a: u64| #[trigger] f2.contains(a) implies (free_before.contains(a) || freed_s.contains(a)) by {
                let k = choose|k: int| 0 <= k < f2.len() && f2[k] == a;
                if k < free_before.len() {
                    assert(free_before[k] == a);
                } else {
                    assert(freed_s[k - free_before.len()] == a);
                }
            }
            assert forall|i: int, j: int| 0 <= i < j < f2.len() implies f2[i] != f2[j] by {
                if j >= free_before.len() && i < free_before.len() {
                    assert(freed_s.contains(f2[j]));
                    assert(free_before.contains(f2[i]));
                }
            }
            assert forall|i: int| 0 <= i < f2.len() implies #[trigger] f2[i] < n by {
                if i >= free_before.len() {
                    assert(freed_s.contains(f2[i]));
                }
            }
            assert(f2.to_set() =~= free_before.to_set().union(old(self).reclaimer.releasable())) by {
                assert forall|a: u64| f2.to_set().contains(a) == free_before.to_set().union(old(self).reclaimer.releasable()).contains(a) by {
                    assert(freed_s.to_set().contains(a) == freed_s.contains(a));
                    if free_before.contains(a) {
                        let k = choose|k: int| 0 <= k < free_before.len() && free_before[k] == a;
                        assert(f2[k] == a);
                    }
                    if freed_s.contains(a) {
                        let k = choose|k: int| 0 <= k < freed_s.len() && freed_s[k] == a;
                        assert(f2[free_before.len() + k] == a);
                    }
                }
            }
        }
    }
}

impl<T> LockFreeStack<T, EpochReclaimer> {
    /// An empty, unbounded stack with epoch-based reclamation.
    pub fn new() -> (r: Self)
        ensures
            r.slot_count() == 0,
            r.wf(),
            r@ == Seq::<T>::empty(),
            r.capacity() is None,
    {
        let reclaimer = EpochReclaimer::new();
        proof {
            assert(reclaimer.retired().map_values(|g: (u64, u64)| crate::epoch::addr_of(g)) =~= Seq::<u64>::empty());
            assert(Reclaimer::pending(&reclaimer) =~= Set::<u64>::empty());
        }
        LockFreeStack::with_reclaimer(reclaimer, None)
    }

    /// An empty stack with epoch-based reclamation that holds at most `capacity` values.
    pub fn with_capacity(capacity: usize) -> (r: Self)
        ensures
            r.slot_count() == 0,
            r.wf(),
            r@ == Seq::<T>::empty(),
            r.capacity() == Some(capacity),
    {
        let reclaimer = EpochReclaimer::new();
        proof {
            assert(reclaimer.retired().map_values(|g: (u64, u64)| crate::epoch::addr_of(g)) =~= Seq::<u64>::empty());
            assert(Reclaimer::pending(&reclaimer) =~= Set::<u64>::empty());
        }
        LockFreeStack::with_reclaimer(reclaimer, Some(capacity))
    }
}

/// The values that `k` pops in a row return from a stack holding `s`
/// (bottom first), as `pop` states them: the top each time.
pub open spec fn pops_from<T>(s: Seq<T>, k: nat) -> Seq<T>
    decreases k,
{
    if k == 0 || s.len() == 0 {
        Seq::empty()
    } else {
        seq![s.last()] + pops_from(s.drop_last(), (k - 1) as nat)
    }
}

/// LIFO order: after pushing `pushed` (first to last, no pops between) on a
/// stack holding `base`, the next `pushed.len()` pops return `pushed`
/// reversed.
pub proof fn lemma_lifo<T>(base: Seq<T>, pushed: Seq<T>)
    ensures
        pops_from(base + pushed, pushed.len()) == pushed.reverse(),
    decreases pushed.len(),
{
    if pushed.len() > 0 {
        let rest = pushed.drop_last();
        lemma_lifo(base, rest);
        assert((base + pushed).drop_last() =~= base + rest);
        assert((base + pushed).last() == pushed.last());
        assert(pushed.reverse() =~= seq![pushed.last()] + rest.reverse());
    } else {
        assert(pushed.reverse() =~= Seq::<T>::empty());
    }
}

/// One operation in a run on a stack.
pub enum StackOp<T> {
    Push(T),
    Pop,
}

/// The values after one operation, as `push` (unbounded) and `pop` state them.
pub open spec fn apply_op<T>(s: Seq<T>, op: StackOp<T>) -> Seq<T> {
    match op {
        StackOp::Push(v) => s.push(v),
        StackOp::Pop => if s.len() > 0 { s.drop_last() } else { s },
    }
}

/// The values after a run of operations, in order.
pub open spec fn apply_ops<T>(s: Seq<T>, ops: Seq<StackOp<T>>) -> Seq<T>
    decreases ops.len(),
{
    if ops.len() == 0 {
        s
    } else {
        apply_ops(apply_op(s, ops[0]), ops.drop_first())
    }
}

/// Every pop of the run finds a value to take.
pub open spec fn pops_succeed<T>(s: Seq<T>, ops: Seq<StackOp<T>>) -> bool
    decreases ops.len(),
{
    if ops.len() == 0 {
        true
    } else {
        (ops[0] is Pop ==> s.len() > 0) && pops_succeed(apply_op(s, ops[0]), ops.drop_first())
    }
}

pub open spec fn count_pushes<T>(ops: Seq<StackOp<T>>) -> nat
    decreases ops.len(),
{
    if ops.len() == 0 {
        0
    } else {
        (if ops[0] is Push { 1nat } else { 0nat }) + count_pushes(ops.drop_first())
    }
}

pub open spec fn count_pops<T>(ops: Seq<StackOp<T>>) -> nat
    decreases ops.len(),
{
    if ops.len() == 0 {
        0
    } else {
        (if ops[0] is Pop { 1nat } else { 0nat }) + count_pops(ops.drop_first())
    }
}

/// Conservation: whatever the order of `N` pushes and `M` pops, if every
/// pop returns a value, the stack ends up with `M` fewer values than the
/// `N` added to what it held.
pub proof fn lemma_conservation<T>(s: Seq<T>, ops: Seq<StackOp<T>>)
    requires
        pops_succeed(s, ops),
    ensures
        apply_ops(s, ops).len() == s.len() + count_pushes(ops) - count_pops(ops),
    decreases ops.len(),
{
    if ops.len() > 0 {
        lemma_conservation(apply_op(s, ops[0]), ops.drop_first());
    }
}

} // verus!
