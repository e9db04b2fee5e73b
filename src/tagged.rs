//! Versioned tagged pointers: a node address and a 64-bit version packed
//! into one 128-bit word, so that a compare-and-swap fails on a stale
//! snapshot even when the address itself has been reused.
use vstd::prelude::*;

verus! {

/// The address that refers to no node.
pub const NIL: u64 = 0xffff_ffff_ffff_ffff;

/// The word that holds `ptr` in its low 64 bits and `version` in its high 64 bits.
pub open spec fn packed(ptr: u64, version: u64) -> u128 {
    (ptr as u128) | ((version as u128) << 64u128)
}

/// The version that follows `v`, wrapping on overflow.
pub open spec fn next_version(v: u64) -> u64 {
    ((v as int + 1) % 0x1_0000_0000_0000_0000) as u64
}

/// A node address together with its modification counter.
#[derive(Clone, Copy, Debug, PartialEq, Eq)]
pub struct TaggedPtr {
    pub ptr: u64,
    pub version: u64,
}

impl TaggedPtr {
    pub open spec fn word(self) -> u128 {
        packed(self.ptr, self.version)
    }

    /// Packs address and version into one word.
    pub fn pack(&self) -> (r: u128)
        ensures
            r == self.word(),
    {
        (self.ptr as u128) | ((self.version as u128) << 64u128)
    }

    /// Splits a word back into address (low half) and version (high half).
    pub fn unpack(value: u128) -> (r: TaggedPtr)
        ensures
            r.word() == value,
            r.ptr == value as u64,
            r.version == (value >> 64u128) as u64,
    {
        let r = TaggedPtr { ptr: value as u64, version: (value >> 64u128) as u64 };
        proof {
            lemma_split_join(value);
        }
        r
    }
}

proof fn lemma_split_join(w: u128)
    ensures
        packed(w as u64, (w >> 64u128) as u64) == w,
{
    assert(((w as u64) as u128) | ((((w >> 64u128) as u64) as u128) << 64u128) == w)
        by (bit_vector);
}

/// Packing loses nothing: the address and the version come back out of the word.
pub proof fn lemma_pack_unpack(ptr: u64, version: u64)
    ensures
        packed(ptr, version) as u64 == ptr,
        (packed(ptr, version) >> 64u128) as u64 == version,
{
    assert(((ptr as u128) | ((version as u128) << 64u128)) as u64 == ptr) by (bit_vector);
    assert((((ptr as u128) | ((version as u128) << 64u128)) >> 64u128) as u64 == version)
        by (bit_vector);
}

/// Two tagged pointers pack to the same word exactly when they are equal.
pub proof fn lemma_packed_injective(a: TaggedPtr, b: TaggedPtr)
    ensures
        (a.word() == b.word()) <==> (a == b),
{
    lemma_pack_unpack(a.ptr, a.version);
    lemma_pack_unpack(b.ptr, b.version);
}

/// Each entry is what one more successful compare-and-swap leaves in the
/// cell after the entry before it: whatever the addresses, the version goes up
/// by one.
pub open spec fn successive_updates(run: Seq<TaggedPtr>) -> bool {
    forall|i: int| 1 <= i < run.len() ==> #[trigger] run[i].version == next_version(run[i - 1].version)
}

proof fn lemma_version_after(run: Seq<TaggedPtr>, k: int)
    requires
        successive_updates(run),
        0 <= k < run.len(),
    ensures
        run[k].version as int == (run[0].version as int + k) % 0x1_0000_0000_0000_0000,
    decreases k,
{
    let m: int = 0x1_0000_0000_0000_0000;
    if k == 0 {
        vstd::arithmetic::div_mod::lemma_small_mod(run[0].version as nat, m as nat);
    } else {
        lemma_version_after(run, k - 1);
        assert(run[k].version == next_version(run[k - 1].version));
        vstd::arithmetic::div_mod::lemma_add_mod_noop(run[0].version as int + k - 1, 1, m);
        vstd::arithmetic::div_mod::lemma_small_mod(1, m as nat);
        vstd::arithmetic::div_mod::lemma_mod_twice(run[0].version as int + k - 1, m);
    }
}

/// ABA resistance: a snapshot taken before at least one and fewer than 2^64
/// successful updates never equals what the cell holds afterwards, even when
/// the address has come back to the same value, so a compare-and-swap that
/// expects the snapshot fails.
pub proof fn lemma_stale_snapshot_rejected(run: Seq<TaggedPtr>)
    requires
        successive_updates(run),
        2 <= run.len() <= 0x1_0000_0000_0000_0000,
    ensures
        run.last() != run[0],
        run.last().version != run[0].version,
{
    let k = run.len() - 1;
    lemma_version_after(run, k);
    let m: int = 0x1_0000_0000_0000_0000;
    let v = run[0].version as int;
    if v + k < m {
        vstd::arithmetic::div_mod::lemma_small_mod((v + k) as nat, m as nat);
    } else {
        vstd::arithmetic::div_mod::lemma_mod_sub_multiples_vanish(v + k, m);
        vstd::arithmetic::div_mod::lemma_small_mod((v + k - m) as nat, m as nat);
    }
}

/// A tagged-pointer cell whose every successful update bumps the version.
#[derive(Debug)]
pub struct AtomicTaggedPtr {
    inner: u128,
}

impl View for AtomicTaggedPtr {
    type V = TaggedPtr;

    closed spec fn view(&self) -> TaggedPtr {
        TaggedPtr { ptr: self.inner as u64, version: (self.inner >> 64u128) as u64 }
    }
}

impl AtomicTaggedPtr {
    /// A cell holding the null address at version 0.
    pub fn new() -> (r: AtomicTaggedPtr)
        ensures
            r@ == (TaggedPtr { ptr: NIL, version: 0 }),
    {
        let t = TaggedPtr { ptr: NIL, version: 0 };
        let r = AtomicTaggedPtr { inner: t.pack() };
        proof {
            lemma_pack_unpack(NIL, 0);
        }
        r
    }

    /// The current address and version.
    pub fn load(&self) -> (r: TaggedPtr)
        ensures
            r == self@,
    {
        TaggedPtr::unpack(self.inner)
    }

    /// Stores `new_ptr` with version `current.version + 1` if the cell still
    /// holds exactly `current` (address and version); otherwise leaves the
    /// cell alone and returns what it holds.
    pub fn compare_and_swap(&mut self, current: TaggedPtr, new_ptr: u64) -> (r: Result<(), TaggedPtr>)
        ensures
            old(self)@ == current ==> r is Ok && final(self)@ == (TaggedPtr {
                ptr: new_ptr,
                version: next_version(current.version),
            }),
            old(self)@ != current ==> r == Err::<(), TaggedPtr>(old(self)@) && final(self)@ == old(self)@,
    {
        let expected = current.pack();
        if self.inner == expected {
            proof {
                lemma_pack_unpack(current.ptr, current.version);
            }
            let new = TaggedPtr { ptr: new_ptr, version: current.version.wrapping_add(1) };
            self.inner = new.pack();
            proof {
                lemma_pack_unpack(new.ptr, new.version);
            }
            Ok(())
        } else {
            let actual = TaggedPtr::unpack(self.inner);
            proof {
                lemma_split_join(old(self).inner);
                lemma_pack_unpack(current.ptr, current.version);
            }
            Err(actual)
        }
    }
}

} // verus!
