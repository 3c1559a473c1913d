//! Subspaces: homogeneous, densely packed, growable arenas, one per
//! heap-resident data kind, addressed by typed keys.

mod iso_subspace;
pub use iso_subspace::IsoSubspace;

use vstd::prelude::*;

use crate::handles::{Array, JsSet, OrdinaryObject, SetIterator};
use crate::heap_data::{ArrayHeapData, ObjectHeapData, SetHeapData};
use crate::mark_sweep::HeapMarkAndSweep;
use crate::set_iterator::SetIteratorHeapData;

verus! {

/// A typed arena key: knows its raw slot index and which payload kind its
/// arena stores.
pub trait SubspaceKey: Sized + Copy {
    type HeapData: HeapMarkAndSweep;

    /// The raw slot index this key addresses.
    spec fn key_index(self) -> int;

    fn get_index(self) -> (i: usize)
        ensures
            i == self.key_index(),
    ;

    fn from_raw_index(index: usize) -> (s: Self)
        requires
            index < u32::MAX as usize,
        ensures
            s.key_index() == index,
    ;
}

impl SubspaceKey for OrdinaryObject {
    type HeapData = ObjectHeapData;

    open spec fn key_index(self) -> int {
        self.0 as int
    }

    fn get_index(self) -> usize {
        self.0 as usize
    }

    fn from_raw_index(index: usize) -> Self {
        OrdinaryObject(index as u32)
    }
}

impl SubspaceKey for Array {
    type HeapData = ArrayHeapData;

    open spec fn key_index(self) -> int {
        self.0 as int
    }

    fn get_index(self) -> usize {
        self.0 as usize
    }

    fn from_raw_index(index: usize) -> Self {
        Array(index as u32)
    }
}

impl SubspaceKey for JsSet {
    type HeapData = SetHeapData;

    open spec fn key_index(self) -> int {
        self.0 as int
    }

    fn get_index(self) -> usize {
        self.0 as usize
    }

    fn from_raw_index(index: usize) -> Self {
        JsSet(index as u32)
    }
}

impl SubspaceKey for SetIterator {
    type HeapData = SetIteratorHeapData;

    open spec fn key_index(self) -> int {
        self.0 as int
    }

    fn get_index(self) -> usize {
        self.0 as usize
    }

    fn from_raw_index(index: usize) -> Self {
        SetIterator(index as u32)
    }
}

/// What a subspace offers its owner: byte accounting and appending
/// allocation. Keys are 32-bit-indexed, so a subspace never grows past
/// `u32::MAX` slots.
pub trait SubspaceStorage<K, D>: Sized {
    /// The slots currently held, in slot order.
    spec fn storage(&self) -> Seq<Option<D>>;

    /// The raw slot index of a key.
    spec fn key_at(k: K) -> int;

    /// Number of bytes allocated within this subspace, saturating at
    /// `usize::MAX`: element count times payload size.
    fn size(&self) -> (r: usize)
        ensures
            r == spec_byte_size::<D>(self.storage().len()),
    ;

    /// Append a new slot holding `value` and return a key addressing it.
    fn allocate(&mut self, value: D) -> (k: K)
        requires
            old(self).storage().len() < u32::MAX as usize,
        ensures
            final(self).storage() == old(self).storage().push(Some(value)),
            Self::key_at(k) == old(self).storage().len(),
    ;

    fn is_empty(&self) -> (r: bool)
        ensures
            r == (self.storage().len() == 0),
    ;
}

/// Element count times payload size, saturating at `usize::MAX`.
pub open spec fn spec_byte_size<D>(count: nat) -> usize {
    if count * vstd::layout::size_of::<D>() <= usize::MAX as nat {
        (count * vstd::layout::size_of::<D>()) as usize
    } else {
        usize::MAX
    }
}

/// How many slots of a retain mask are set: the post-sweep length of the
/// arena the mask was computed for.
pub open spec fn count_trues(s: Seq<bool>) -> nat
    decreases s.len(),
{
    if s.len() == 0 {
        0
    } else {
        count_trues(s.drop_last()) + if s.last() {
            1nat
        } else {
            0nat
        }
    }
}

/// The rank of slot `i` among retained slots: its post-sweep index.
pub open spec fn rank(s: Seq<bool>, i: int) -> nat {
    count_trues(s.take(i))
}

pub proof fn lemma_count_trues_step(s: Seq<bool>, i: int)
    requires
        0 <= i < s.len(),
    ensures
        count_trues(s.take(i + 1)) == count_trues(s.take(i)) + if s[i] {
            1nat
        } else {
            0nat
        },
{
    assert(s.take(i + 1).drop_last() =~= s.take(i));
    assert(s.take(i + 1).last() == s[i]);
}

pub proof fn lemma_count_trues_mono(s: Seq<bool>, i: int, j: int)
    requires
        0 <= i <= j <= s.len(),
    ensures
        count_trues(s.take(i)) <= count_trues(s.take(j)),
    decreases j - i,
{
    if i < j {
        lemma_count_trues_step(s, j - 1);
        lemma_count_trues_mono(s, i, j - 1);
    }
}

/// A retained slot's rank is a valid index into the compacted arena.
pub proof fn lemma_rank_in_range(s: Seq<bool>, i: int)
    requires
        0 <= i < s.len(),
        s[i],
    ensures
        rank(s, i) < count_trues(s),
        rank(s, i) <= i,
{
    lemma_count_trues_step(s, i);
    lemma_count_trues_mono(s, i + 1, s.len() as int);
    assert(s.take(s.len() as int) =~= s);
    lemma_count_trues_le(s.take(i));
}

/// At most every slot of a mask is set.
pub proof fn lemma_count_trues_le(s: Seq<bool>)
    ensures
        count_trues(s) <= s.len(),
    decreases s.len(),
{
    if s.len() > 0 {
        lemma_count_trues_le(s.drop_last());
    }
}

/// Setting one unset bit raises the count by exactly one.
pub proof fn lemma_count_trues_update(s: Seq<bool>, i: int)
    requires
        0 <= i < s.len(),
        !s[i],
    ensures
        count_trues(s.update(i, true)) == count_trues(s) + 1,
    decreases s.len(),
{
    let t = s.update(i, true);
    if i == s.len() - 1 {
        assert(t.drop_last() =~= s.drop_last());
    } else {
        assert(t.drop_last() =~= s.drop_last().update(i, true));
        lemma_count_trues_update(s.drop_last(), i);
        assert(t.last() == s.last());
    }
}

/// Every post-sweep index is the rank of some retained slot.
pub proof fn lemma_rank_surjective(s: Seq<bool>, j: int)
    requires
        0 <= j < count_trues(s),
    ensures
        exists|i: int| 0 <= i < s.len() && s[i] && rank(s, i) == j,
    decreases s.len(),
{
    let n = s.len() as int;
    assert(s.take(n) =~= s);
    if s.last() && j == count_trues(s) - 1 {
        assert(s.take(n - 1) =~= s.drop_last());
        assert(rank(s, n - 1) == j);
        assert(s[n - 1] && rank(s, n - 1) == j);
    } else {
        lemma_rank_surjective(s.drop_last(), j);
        let i = choose|i: int|
            0 <= i < s.drop_last().len() && s.drop_last()[i] && rank(s.drop_last(), i) == j;
        assert(s.drop_last().take(i) =~= s.take(i));
        assert(s[i] && rank(s, i) == j);
    }
}

/// Distinct retained slots compact to distinct new indices, in order.
pub proof fn lemma_rank_strict_mono(s: Seq<bool>, i: int, j: int)
    requires
        0 <= i < j < s.len(),
        s[i],
    ensures
        rank(s, i) < rank(s, j),
{
    lemma_count_trues_step(s, i);
    lemma_count_trues_mono(s, i + 1, j);
}

} // verus!
