//! An isolated subspace: a growable arena of optional slots, all of one
//! heap-data kind. Allocation always appends; slots are never holes between
//! collections; a sweep removes every slot whose retain-mask bit is false
//! and runs sweep-adjust on every survivor, preserving relative order.

use vstd::prelude::*;

use super::{count_trues, rank, spec_byte_size, SubspaceKey, SubspaceStorage};
use super::{lemma_count_trues_step, lemma_rank_in_range};
use crate::handles::AnyHandle;
use crate::mark_sweep::{CompactionLists, HeapMarkAndSweep};

verus! {

/// An isolated subspace.
///
/// Isolated subspaces only contain heap entries of a single type.
#[derive(Debug)]
pub struct IsoSubspace<T: SubspaceKey>(pub(crate) Vec<Option<T::HeapData>>);

impl<T: SubspaceKey> View for IsoSubspace<T> {
    type V = Seq<Option<T::HeapData>>;

    closed spec fn view(&self) -> Seq<Option<T::HeapData>> {
        self.0@
    }
}

impl<T: SubspaceKey> IsoSubspace<T> {
    /// Every slot between collections holds data.
    pub open spec fn all_slots_full(self) -> bool {
        forall|i: int| 0 <= i < self@.len() ==> (#[trigger] self@[i]) is Some
    }

    pub fn with_capacity(capacity: usize) -> (s: Self)
        ensures
            s@.len() == 0,
    {
        IsoSubspace(Vec::with_capacity(capacity))
    }

    /// Fetch the slot a key addresses. A key outside the arena is a
    /// dangling or corrupted handle: a fatal programming error, excluded
    /// outright.
    pub fn get(&self, index: T) -> (r: Option<&T::HeapData>)
        requires
            0 <= index.key_index() < self@.len(),
        ensures
            match r {
                Some(d) => self@[index.key_index()] == Some(*d),
                None => self@[index.key_index()] is None,
            },
    {
        self.0[index.get_index()].as_ref()
    }

    pub fn len(&self) -> (n: usize)
        ensures
            n == self@.len(),
    {
        self.0.len()
    }

    /// Move the slot's data out, leaving the slot empty until `set_slot`
    /// restores it: the exclusive in-place mutation path.
    pub fn take_slot(&mut self, index: T) -> (d: Option<T::HeapData>)
        requires
            0 <= index.key_index() < old(self)@.len(),
        ensures
            d == old(self)@[index.key_index()],
            final(self)@ == old(self)@.update(index.key_index(), None),
    {
        let i = index.get_index();
        self.0[i].take()
    }

    /// Store data back into a slot.
    pub fn set_slot(&mut self, index: T, data: T::HeapData)
        requires
            0 <= index.key_index() < old(self)@.len(),
        ensures
            final(self)@ == old(self)@.update(index.key_index(), Some(data)),
    {
        let i = index.get_index();
        self.0[i] = Some(data);
    }

    /// Remove every slot whose retain-mask bit is false and run
    /// sweep-adjust on every retained slot, in one forward pass that
    /// preserves the relative order of survivors: the new index of a
    /// survivor is its rank among the retained slots before it.
    pub fn sweep(&mut self, compactions: &CompactionLists, bits: &[bool])
        requires
            bits@.len() == old(self)@.len(),
            old(self).all_slots_full(),
            forall|j: int, h: AnyHandle|
                0 <= j < bits@.len() && bits@[j] && (#[trigger] old(self)@[j].holds_handle(h))
                    ==> compactions@.alive(h),
        ensures
            final(self)@.len() == count_trues(bits@),
            final(self).all_slots_full(),
            forall|j: int|
                0 <= j < bits@.len() && bits@[j] ==> rank(bits@, j) < final(self)@.len()
                    && old(self)@[j].swept(&final(self)@[rank(bits@, j) as int], compactions@),
    {
        let ghost pre = self@;
        let n = self.0.len();
        let mut survivors: Vec<Option<T::HeapData>> = Vec::new();
        let mut i: usize = 0;
        proof {
            assert(bits@.take(0) =~= Seq::<bool>::empty());
        }
        while i < n
            invariant
                n == pre.len(),
                i <= n,
                bits@.len() == n,
                self@.len() == n,
                forall|j: int| i <= j < n ==> self@[j] == pre[j],
                forall|j: int| 0 <= j < n ==> (#[trigger] pre[j]) is Some,
                forall|j: int, h: AnyHandle|
                    0 <= j < n && bits@[j] && (#[trigger] pre[j].holds_handle(h))
                        ==> compactions@.alive(h),
                survivors@.len() == count_trues(bits@.take(i as int)),
                forall|j: int|
                    0 <= j < survivors@.len() ==> (#[trigger] survivors@[j]) is Some,
                forall|j: int|
                    0 <= j < i && bits@[j] ==> rank(bits@, j) < survivors@.len() && pre[j].swept(
                        &survivors@[rank(bits@, j) as int],
                        compactions@,
                    ),
            decreases n - i,
        {
            proof {
                lemma_count_trues_step(bits@, i as int);
            }
            if bits[i] {
                let mut slot = self.0[i].take();
                proof {
                    assert forall|h: AnyHandle| slot.holds_handle(h) implies compactions@.alive(
                        h,
                    ) by {
                        assert(pre[i as int].holds_handle(h));
                    }
                }
                slot.sweep_values(compactions);
                proof {
                    assert(pre[i as int] is Some);
                    assert(slot is Some);
                }
                survivors.push(slot);
                proof {
                    lemma_rank_in_range(bits@.take(i + 1), i as int);
                    assert(bits@.take(i + 1).take(i as int) =~= bits@.take(i as int));
                }
            }
            i += 1;
        }
        proof {
            assert(bits@.take(n as int) =~= bits@);
        }
        self.0 = survivors;
    }
}

impl<T: SubspaceKey> SubspaceStorage<T, T::HeapData> for IsoSubspace<T> {
    open spec fn storage(&self) -> Seq<Option<T::HeapData>> {
        self@
    }

    open spec fn key_at(k: T) -> int {
        k.key_index()
    }

    fn size(&self) -> (r: usize) {
        let len = self.0.len();
        let payload = core::mem::size_of::<T::HeapData>();
        if payload == 0 {
            0
        } else if len <= usize::MAX / payload {
            proof {
                let leni = len as int;
                let szi = payload as int;
                let maxi = usize::MAX as int;
                vstd::arithmetic::div_mod::lemma_fundamental_div_mod(maxi, szi);
                vstd::arithmetic::div_mod::lemma_mod_bound(maxi, szi);
                vstd::arithmetic::mul::lemma_mul_inequality(leni, maxi / szi, szi);
                assert((maxi / szi) * szi == szi * (maxi / szi)) by (nonlinear_arith);
                assert(leni * szi <= maxi);
            }
            len * payload
        } else {
            proof {
                let leni = len as int;
                let szi = payload as int;
                let maxi = usize::MAX as int;
                vstd::arithmetic::div_mod::lemma_fundamental_div_mod(maxi, szi);
                vstd::arithmetic::div_mod::lemma_mod_bound(maxi, szi);
                vstd::arithmetic::mul::lemma_mul_inequality(maxi / szi + 1, leni, szi);
                assert((maxi / szi + 1) * szi == szi * (maxi / szi) + szi) by (nonlinear_arith);
                assert(leni * szi > maxi);
            }
            usize::MAX
        }
    }

    fn allocate(&mut self, value: T::HeapData) -> (k: T) {
        self.0.push(Some(value));
        T::from_raw_index(self.0.len() - 1)
    }

    fn is_empty(&self) -> (r: bool) {
        self.0.is_empty()
    }
}

} // verus!
