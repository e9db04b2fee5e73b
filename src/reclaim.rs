//! The capability set shared by the reclamation schemes. A container hands
//! each node it unlinks to `retire`; the scheme gives back the addresses
//! that are now safe to reuse, and keeps the rest pending.
use vstd::prelude::*;
use crate::tagged::NIL;

verus! {

/// An element survives a filter exactly when it was there and passes the test.
pub proof fn lemma_filter_membership<A>(s: Seq<A>, p: spec_fn(A) -> bool, a: A)
    ensures
        s.filter(p).contains(a) <==> (s.contains(a) && p(a)),
{
    broadcast use vstd::seq_lib::group_filter_ensures;
    if s.contains(a) && p(a) {
        let i = choose|i: int| 0 <= i < s.len() && s[i] == a;
        s.lemma_filter_contains(p, i);
    }
    if s.filter(p).contains(a) {
        s.lemma_filter_contains_rev(p, a);
    }
}

/// Some thread protects `addr`, so the scheme holds it back.
pub open spec fn held_back<R: Reclaimer>(r: R, addr: u64) -> bool {
    exists|t: u64| #[trigger] r.protects(t, addr)
}

pub trait Reclaimer {
    spec fn wf(&self) -> bool;

    /// Addresses handed to `retire` and not released yet.
    spec fn pending(&self) -> Set<u64>;

    /// The scheme holds nodes back for readers (hazard pointers, epochs);
    /// without it every retired node is released at once.
    spec fn defers() -> bool;

    /// `thread` may still read the node at `addr`, so that node is not released.
    spec fn protects(&self, thread: u64, addr: u64) -> bool;

    /// The pending addresses that a sweep releases now.
    spec fn releasable(&self) -> Set<u64>;

    /// `thread` announces that it is about to read the node at `addr`.
    fn protect(&mut self, thread: u64, addr: u64)
        requires
            old(self).wf(),
        ensures
            final(self).wf(),
            final(self).pending() == old(self).pending(),
            Self::defers() && addr != NIL && !old(self).pending().contains(addr) ==> final(self).protects(thread, addr),
            forall|t: u64, a: u64| t != thread ==> #[trigger] final(self).protects(t, a) == old(self).protects(t, a),
    ;

    /// `thread` holds no node any more.
    fn release(&mut self, thread: u64)
        requires
            old(self).wf(),
        ensures
            final(self).wf(),
            final(self).pending() == old(self).pending(),
            forall|a: u64| !#[trigger] final(self).protects(thread, a),
            forall|t: u64, a: u64| t != thread ==> #[trigger] final(self).protects(t, a) == old(self).protects(t, a),
    ;

    /// Releases exactly the releasable addresses: the pending ones that no
    /// thread protects.
    fn collect(&mut self) -> (freed: Vec<u64>)
        requires
            old(self).wf(),
        ensures
            final(self).wf(),
            freed@.no_duplicates(),
            freed@.to_set() == old(self).releasable(),
            forall|a: u64|
                #[trigger] old(self).releasable().contains(a) <==> (old(self).pending().contains(a) && forall|t: u64|
                    !#[trigger] old(self).protects(t, a)),
            forall|a: u64|
                #[trigger] final(self).pending().contains(a) <==> (old(self).pending().contains(a)
                    && !freed@.contains(a)),
            forall|t: u64, a: u64| #[trigger] old(self).protects(t, a) ==> final(self).protects(t, a),
    ;

    /// Takes an unlinked node and returns the addresses that may be reused now,
    /// each of them retired earlier or just now, none twice, and none that a
    /// thread protects.
    fn retire(&mut self, addr: u64) -> (freed: Vec<u64>)
        requires
            old(self).wf(),
            addr != NIL,
            !old(self).pending().contains(addr),
        ensures
            final(self).wf(),
            freed@.no_duplicates(),
            forall|a: u64| #[trigger] freed@.contains(a) ==> old(self).pending().insert(addr).contains(a),
            forall|a: u64, t: u64| #[trigger] freed@.contains(a) ==> !#[trigger] old(self).protects(t, a),
            forall|a: u64|
                #[trigger] final(self).pending().contains(a) <==> (old(self).pending().insert(addr).contains(a)
                    && !freed@.contains(a)),
            forall|t: u64, a: u64| #[trigger] old(self).protects(t, a) ==> final(self).protects(t, a),
    ;
}

/// The tagged-pointer scheme: nothing is deferred, an unlinked node is
/// released at once, and stale compare-and-swaps are caught by the version.
#[derive(Debug)]
pub struct ImmediateReclaimer;

impl Reclaimer for ImmediateReclaimer {
    open spec fn wf(&self) -> bool {
        true
    }

    open spec fn pending(&self) -> Set<u64> {
        Set::empty()
    }

    open spec fn defers() -> bool {
        false
    }

    open spec fn protects(&self, thread: u64, addr: u64) -> bool {
        false
    }

    open spec fn releasable(&self) -> Set<u64> {
        Set::empty()
    }

    fn protect(&mut self, thread: u64, addr: u64) {
    }

    fn release(&mut self, thread: u64) {
    }

    fn collect(&mut self) -> (freed: Vec<u64>) {
        let freed: Vec<u64> = Vec::new();
        proof {
            assert(freed@.to_set() =~= Set::<u64>::empty());
        }
        freed
    }

    fn retire(&mut self, addr: u64) -> (freed: Vec<u64>) {
        let freed = vec![addr];
        proof {
            assert(freed@ =~= seq![addr]);
        }
        freed
    }
}

} // verus!
