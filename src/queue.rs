//! A Michael–Scott queue over an index arena: a permanent sentinel at the
//! front, head and tail as versioned tagged pointers, and a dequeued node
//! becoming the new sentinel while the old one is retired.
use vstd::prelude::*;
use crate::epoch::EpochReclaimer;
use crate::reclaim::{held_back, Reclaimer};
use crate::stack::Node;
use crate::tagged::{next_version, AtomicTaggedPtr, TaggedPtr, NIL};

verus! {

/// Why a value could not be taken from the queue.
#[derive(Debug, Clone, Copy, PartialEq, Eq)]
pub enum QueueError {
    /// The queue holds no value.
    Empty,
}

/// What retiring the old sentinel at `old_head` leaves: it is held by the
/// scheme or free for reuse; it stays with the scheme while a thread
/// protects it; any other address the scheme holds for a protecting thread
/// stays held; and no protection is dropped.
pub open spec fn sentinel_to_scheme<T, R: Reclaimer>(before: LockFreeQueue<T, R>, after: LockFreeQueue<T, R>, old_head: u64) -> bool {
    &&& after.reclaimer().pending().contains(old_head) || after.free_slots().contains(old_head)
    &&& held_back(before.reclaimer(), old_head) ==> after.reclaimer().pending().contains(old_head)
    &&& forall|a: u64|
        #[trigger] before.reclaimer().pending().contains(a) && held_back(before.reclaimer(), a)
            ==> after.reclaimer().pending().contains(a)
    &&& forall|t: u64, a: u64| #[trigger] before.reclaimer().protects(t, a) ==> after.reclaimer().protects(t, a)
}

/// A FIFO queue whose nodes live in an arena, generic over the reclamation
/// scheme `R` that decides when a retired sentinel's slot may be reused.
pub struct LockFreeQueue<T, R> {
    nodes: Vec<Node<T>>,
    free: Vec<u64>,
    head: AtomicTaggedPtr,
    tail: AtomicTaggedPtr,
    reclaimer: R,
    /// Addresses of the linked nodes: the sentinel, then front to back.
    chain: Ghost<Seq<u64>>,
}

impl<T, R: Reclaimer> View for LockFreeQueue<T, R> {
    type V = Seq<T>;

    /// The values from front to back.
    closed spec fn view(&self) -> Seq<T> {
        Seq::new((self.chain@.len() - 1) as nat, |i: int| self.nodes@[self.chain@[i + 1] as int].value->0)
    }
}

impl<T, R: Reclaimer> LockFreeQueue<T, R> {
    /// The head word: the sentinel's address and the version.
    pub closed spec fn head(&self) -> TaggedPtr {
        self.head@
    }

    /// The tail word: the last node's address and the version.
    pub closed spec fn tail(&self) -> TaggedPtr {
        self.tail@
    }

    pub closed spec fn reclaimer(&self) -> R {
        self.reclaimer
    }

    /// The number of arena slots ever taken.
    pub closed spec fn slot_count(&self) -> nat {
        self.nodes@.len()
    }

    /// Neither a free slot nor a new one can be had.
    pub open spec fn exhausted(&self) -> bool {
        self.free_slots().len() == 0 && self.slot_count() >= NIL
    }

    /// Addresses of the linked nodes, the sentinel first.
    pub closed spec fn linked(&self) -> Seq<u64> {
        self.chain@
    }

    /// Slots that the next allocations may take.
    pub closed spec fn free_slots(&self) -> Seq<u64> {
        self.free@
    }

    /// Safe reuse in the arena: no slot is linked twice, a slot that may be
    /// reused is linked nowhere and listed once, and a slot the scheme still
    /// holds back is neither linked nor free. So a node is never handed out
    /// again while reachable, nor handed out twice.
    pub proof fn lemma_slots_disjoint(&self)
        requires
            self.wf(),
        ensures
            self.linked().no_duplicates(),
            self.free_slots().no_duplicates(),
            forall|a: u64| #[trigger] self.free_slots().contains(a) ==> !self.linked().contains(a),
            forall|a: u64|
                #[trigger] self.reclaimer().pending().contains(a) ==> !self.linked().contains(a) && !self.free_slots().contains(a),
    {
    }

    pub closed spec fn wf(&self) -> bool {
        let chain = self.chain@;
        let n = self.nodes@.len();
        &&& self.reclaimer.wf()
        &&& n <= NIL
        &&& chain.len() >= 1
        &&& chain.no_duplicates()
        &&& self.head@.ptr == chain[0]
        &&& self.tail@.ptr == chain.last()
        &&& forall|i: int| 0 <= i < chain.len() ==> #[trigger] chain[i] < n
        &&& forall|i: int| 1 <= i < chain.len() ==> (#[trigger] self.nodes@[chain[i] as int]).value is Some
        &&& forall|i: int| 0 <= i < chain.len() - 1 ==> #[trigger] self.nodes@[chain[i] as int].next == chain[i + 1]
        &&& self.nodes@[chain.last() as int].next == NIL
        &&& self.free@.no_duplicates()
        &&& forall|i: int| 0 <= i < self.free@.len() ==> #[trigger] self.free@[i] < n
        &&& forall|a: u64| #[trigger] self.free@.contains(a) ==> !chain.contains(a)
        &&& forall|a: u64| #[trigger] self.reclaimer.pending().contains(a) ==> a < n && !chain.contains(a) && !self.free@.contains(a)
    }

    /// An empty queue (a lone sentinel) that retires through `reclaimer`.
    pub fn with_reclaimer(reclaimer: R) -> (r: Self)
        requires
            reclaimer.wf(),
            reclaimer.pending() == Set::<u64>::empty(),
        ensures
            r.slot_count() == 1,
            r.wf(),
            r@ == Seq::<T>::empty(),
    {
        let mut nodes: Vec<Node<T>> = Vec::new();
        nodes.push(Node { value: None, next: NIL });
        let mut head = AtomicTaggedPtr::new();
        let h = head.load();
        let _ = head.compare_and_swap(h, 0);
        let mut tail = AtomicTaggedPtr::new();
        let t = tail.load();
        let _ = tail.compare_and_swap(t, 0);
        let ghost chain = seq![0u64];
        let r = LockFreeQueue { nodes, free: Vec::new(), head, tail, reclaimer, chain: Ghost(chain) };
        assert(r@ =~= Seq::<T>::empty());
        r
    }

    /// Whether the queue holds no value: the sentinel has no successor.
    pub fn is_empty(&self) -> (r: bool)
        requires
            self.wf(),
        ensures
            r == (self@.len() == 0),
    {
        let h = self.head.load();
        proof {
            let chain = self.chain@;
            assert(chain[0] < self.nodes.len());
            if chain.len() > 1 {
                assert(self.nodes@[chain[0] as int].next == chain[1]);
                assert(chain[1] < self.nodes@.len());
            }
        }
        self.nodes[h.ptr as usize].next == NIL
    }

    /// The front value, left in place.
    pub fn peek(&self) -> (r: Result<&T, QueueError>)
        requires
            self.wf(),
        ensures
            self@.len() == 0 ==> r == Err::<&T, QueueError>(QueueError::Empty),
            self@.len() > 0 ==> r is Ok && *r->Ok_0 == self@[0],
    {
        let h = self.head.load();
        proof {
            let chain = self.chain@;
            assert(chain[0] < self.nodes.len());
            if chain.len() > 1 {
                assert(self.nodes@[chain[0] as int].next == chain[1]);
                assert(chain[1] < self.nodes@.len());
            }
        }
        let next = self.nodes[h.ptr as usize].next;
        if next == NIL {
            return Err(QueueError::Empty);
        }
        proof {
            assert(next == self.chain@[1]);
            assert(next < self.nodes.len());
            assert(self.nodes@[self.chain@[1] as int].value is Some);
        }
        self.nodes[next as usize].value.as_ref().ok_or(QueueError::Empty)
    }

    /// Appends `value` at the back: links a new node after the last one,
    /// then swings the tail to it. The value comes back only when no node
    /// can be had.
    pub fn enqueue(&mut self, value: T) -> (r: Result<(), T>)
        requires
            old(self).wf(),
        ensures
            final(self).slot_count() <= old(self).slot_count() + 1,
            final(self).wf(),
            old(self).exhausted() ==> r == Err::<(), T>(value) && *final(self) == *old(self),
            r is Ok ==> final(self).reclaimer() == old(self).reclaimer(),
            !old(self).exhausted() ==> r is Ok && final(self)@ == old(self)@.push(value)
                && final(self).tail().version == next_version(old(self).tail().version),
            final(self).head() == old(self).head(),
    {
        if self.free.len() == 0 && self.nodes.len() as u64 >= NIL {
            return Err(value);
        }
        let ghost chain = self.chain@;
        let ghost old_nodes = self.nodes@;
        let idx: u64;
        if self.free.len() > 0 {
            let ghost free_before = self.free@;
            idx = self.free.pop().unwrap();
            proof {
                assert(free_before.contains(idx)) by {
                    assert(free_before[free_before.len() - 1] == idx);
                }
                assert(free_before =~= self.free@.push(idx));
                assert(idx < self.nodes.len());
                assert forall|a: u64| #[trigger] self.free@.contains(a) implies a != idx && old(self).free@.contains(a) by {
                    let k = choose|k: int| 0 <= k < self.free@.len() && self.free@[k] == a;
                    assert(free_before[k] == a);
                    assert(free_before[free_before.len() - 1] == idx);
                }
            }
            self.nodes.set(idx as usize, Node { value: Some(value), next: NIL });
        } else {
            idx = self.nodes.len() as u64;
            self.nodes.push(Node { value: Some(value), next: NIL });
            assert forall|a: u64| #[trigger] self.free@.contains(a) implies a != idx && old(self).free@.contains(a) by {
                let k = choose|k: int| 0 <= k < self.free@.len() && self.free@[k] == a;
            }
        }
        let ghost mid_nodes = self.nodes@;
        proof {
            assert(!chain.contains(idx));
            assert(mid_nodes.len() == old_nodes.len() || mid_nodes.len() == old_nodes.len() + 1);
            assert(forall|j: int| 0 <= j < old_nodes.len() && j != idx ==> mid_nodes[j] == old_nodes[j]);
        }
        let t = self.tail.load();
        let last = t.ptr;
        proof {
            assert(last == chain.last());
            assert(last < self.nodes.len());
            assert(last != idx);
        }
        self.nodes[last as usize].next = idx;
        let swapped = self.tail.compare_and_swap(t, idx);
        assert(swapped is Ok);
        self.chain = Ghost(chain.push(idx));
        proof {
            let c2 = self.chain@;
            let n = self.nodes@.len();
            assert forall|a: u64| c2.contains(a) implies a == idx || chain.contains(a) by {
                let k = choose|k: int| 0 <= k < c2.len() && c2[k] == a;
                if k < chain.len() {
                    assert(chain[k] == a);
                }
            }
            assert forall|i: int| 0 <= i < chain.len() - 1 implies #[trigger] self.nodes@[chain[i] as int] == old_nodes[chain[i] as int] by {
                assert(chain[i] != idx);
                assert(chain[i] != last);
            }
            assert forall|i: int| 0 <= i < c2.len() - 1 implies #[trigger] self.nodes@[c2[i] as int].next == c2[i + 1] by {
                if i < chain.len() - 1 {
                    assert(chain[i] != idx);
                    assert(chain[i] != last);
                }
            }
            assert forall|i: int| 1 <= i < c2.len() implies (#[trigger] self.nodes@[c2[i] as int]).value is Some by {
                if i < chain.len() {
                    assert(chain[i] != idx);
                }
            }
            assert(self@ =~= old(self)@.push(value)) by {
                assert forall|i: int| 0 <= i < old(self)@.len() implies self@[i] == old(self)@[i] by {
                    assert(chain[i + 1] != idx);
                }
            }
        }
        Ok(())
    }

    /// Takes the front value: swings the head from the sentinel to its
    /// successor, which keeps its node as the new sentinel and gives up its
    /// value; the old sentinel is retired.
    pub fn dequeue(&mut self) -> (r: Result<T, QueueError>)
        requires
            old(self).wf(),
        ensures
            final(self).slot_count() == old(self).slot_count(),
            final(self).wf(),
            old(self)@.len() == 0 ==> r == Err::<T, QueueError>(QueueError::Empty) && *final(self) == *old(self),
            old(self)@.len() > 0 ==> sentinel_to_scheme(*old(self), *final(self), old(self).head().ptr),
            old(self)@.len() > 0 ==> {
                &&& r == Ok::<T, QueueError>(old(self)@[0])
                &&& final(self)@ == old(self)@.drop_first()
                &&& final(self).head().version == next_version(old(self).head().version)
            },
            final(self).tail() == old(self).tail(),
    {
        let h = self.head.load();
        let ghost chain = self.chain@;
        let ghost old_nodes = self.nodes@;
        proof {
            assert(chain[0] < self.nodes.len());
            if chain.len() > 1 {
                assert(self.nodes@[chain[0] as int].next == chain[1]);
                assert(chain[1] < self.nodes@.len());
            }
        }
        let next = self.nodes[h.ptr as usize].next;
        if next == NIL {
            return Err(QueueError::Empty);
        }
        let sentinel = h.ptr;
        let swapped = self.head.compare_and_swap(h, next);
        assert(swapped is Ok);
        proof {
            assert(next == chain[1]);
            assert(next < self.nodes.len());
        }
        let taken = self.nodes[next as usize].value.take();
        let ghost rest = chain.drop_first();
        self.chain = Ghost(rest);
        proof {
            assert forall|a: u64| rest.contains(a) implies chain.contains(a) && a != sentinel by {
                let k = choose|k: int| 0 <= k < rest.len() && rest[k] == a;
                assert(chain[k + 1] == a);
            }
            assert(chain.contains(sentinel)) by {
                assert(chain[0] == sentinel);
            }
        }
        let ghost pending_before = self.reclaimer.pending();
        let ghost free_before = self.free@;
        let mut freed = self.reclaimer.retire(sentinel);
        let ghost freed_s = freed@;
        self.free.append(&mut freed);
        proof {
            let n = self.nodes@.len();
            let f2 = self.free@;
            assert(f2 == free_before + freed_s);
            assert forall|a: u64| #[trigger] freed_s.contains(a) implies a < n && !rest.contains(a) && !free_before.contains(a) by {
                assert(pending_before.insert(sentinel).contains(a));
            }
            assert forall|a: u64| #[trigger] f2.contains(a) implies (free_before.contains(a) || freed_s.contains(a)) by {
                let k = choose|k: int| 0 <= k < f2.len() && f2[k] == a;
                if k < free_before.len() {
                    assert(free_before[k] == a);
                } else {
                    assert(freed_s[k - free_before.len()] == a);
                }
            }
            assert forall|i: int, j: int| 0 <= i < j < f2.len() implies f2[i] != f2[j] by {
                if j >= free_before.len() && i < free_before.len() {
                    assert(freed_s.contains(f2[j]));
                    assert(free_before.contains(f2[i]));
                }
            }
            assert forall|i: int| 0 <= i < f2.len() implies #[trigger] f2[i] < n by {
                if i >= free_before.len() {
                    assert(freed_s.contains(f2[i]));
                }
            }
            assert forall|a: u64| #[trigger] self.reclaimer.pending().contains(a) implies a < n && !rest.contains(a) && !f2.contains(a) by {
                assert(pending_before.insert(sentinel).contains(a));
            }
            assert forall|i: int| 1 <= i < rest.len() implies #[trigger] self.nodes@[rest[i] as int] == old_nodes[rest[i] as int] by {
                assert(rest[i] == chain[i + 1]);
                assert(chain[i + 1] != next);
            }
            assert forall|i: int| 0 <= i < rest.len() - 1 implies #[trigger] self.nodes@[rest[i] as int].next == rest[i + 1] by {
                assert(rest[i] == chain[i + 1]);
            }
            assert(self@ =~= old(self)@.drop_first());
            let rb = old(self).reclaimer;
            assert(rb == old(self).reclaimer());
            if freed_s.contains(sentinel) {
                let k = choose|k: int| 0 <= k < freed_s.len() && freed_s[k] == sentinel;
                assert(f2[free_before.len() + k] == sentinel);
            }
            assert(held_back(rb, sentinel) ==> self.reclaimer.pending().contains(sentinel)) by {
                if held_back(rb, sentinel) {
                    let t = choose|t: u64| #[trigger] rb.protects(t, sentinel);
                    assert(!freed_s.contains(sentinel));
                }
            }
            assert forall|a: u64| #[trigger] rb.pending().contains(a) && held_back(rb, a)
                implies self.reclaimer.pending().contains(a) by {
                let t = choose|t: u64| #[trigger] rb.protects(t, a);
                assert(!freed_s.contains(a));
            }
        }
        match taken {
            Some(v) => Ok(v),
            None => Err(QueueError::Empty),
        }
    }
}

impl<T> LockFreeQueue<T, EpochReclaimer> {
    /// An empty queue with epoch-based reclamation.
    pub fn new() -> (r: Self)
        ensures
            r.slot_count() == 1,
            r.wf(),
            r@ == Seq::<T>::empty(),
    {
        let reclaimer = EpochReclaimer::new();
        proof {
            assert(reclaimer.retired().map_values(|g: (u64, u64)| crate::epoch::addr_of(g)) =~= Seq::<u64>::empty());
            assert(Reclaimer::pending(&reclaimer) =~= Set::<u64>::empty());
        }
        LockFreeQueue::with_reclaimer(reclaimer)
    }
}

/// The values that `k` dequeues in a row return from a queue holding `s`
/// (front first), as `dequeue` states them: the front each time.
pub open spec fn dequeues_from<T>(s: Seq<T>, k: nat) -> Seq<T>
    decreases k,
{
    if k == 0 || s.len() == 0 {
        Seq::empty()
    } else {
        seq![s[0]] + dequeues_from(s.drop_first(), (k - 1) as nat)
    }
}

proof fn lemma_drain<T>(s: Seq<T>)
    ensures
        dequeues_from(s, s.len()) == s,
    decreases s.len(),
{
    if s.len() > 0 {
        lemma_drain(s.drop_first());
        assert(s =~= seq![s[0]] + s.drop_first());
    } else {
        assert(dequeues_from(s, 0) =~= s);
    }
}

/// FIFO order: after enqueueing `enqueued` (first to last, no dequeues
/// between) on a queue holding `base`, a full drain returns `base` and then
/// `enqueued`, each in the order it went in.
pub proof fn lemma_fifo<T>(base: Seq<T>, enqueued: Seq<T>)
    ensures
        dequeues_from(base + enqueued, (base.len() + enqueued.len()) as nat) == base + enqueued,
{
    lemma_drain(base + enqueued);
}

} // verus!
