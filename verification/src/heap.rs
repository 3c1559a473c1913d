//! The heap: sole owner of every arena, uniform allocation entry point, and
//! the byte counter that drives collection decisions.

use vstd::prelude::*;

use crate::handles::{AnyHandle, Array, JsSet, OrdinaryObject, SetIterator};
use crate::heap_data::{ArrayHeapData, ObjectHeapData, SetHeapData};
use crate::mark_sweep::HeapMarkAndSweep;
use crate::set_iterator::SetIteratorHeapData;
use crate::subspace::{IsoSubspace, SubspaceStorage};

verus! {

/// The engine-wide heap: one isolated subspace per heap-resident kind and a
/// running allocation-byte counter. Threaded explicitly through every
/// operation; never ambient state.
pub struct Heap {
    pub objects: IsoSubspace<OrdinaryObject>,
    pub arrays: IsoSubspace<Array>,
    pub sets: IsoSubspace<JsSet>,
    pub set_iterators: IsoSubspace<SetIterator>,
    pub alloc_counter: usize,
}

impl Heap {
    /// A handle is valid when it addresses an in-range, non-empty slot of
    /// the arena of its kind.
    pub open spec fn valid(self, h: AnyHandle) -> bool {
        match h {
            AnyHandle::Object(o) => 0 <= o.spec_index() < self.objects@.len()
                && self.objects@[o.spec_index()] is Some,
            AnyHandle::Array(a) => 0 <= a.spec_index() < self.arrays@.len()
                && self.arrays@[a.spec_index()] is Some,
            AnyHandle::JsSet(s) => 0 <= s.spec_index() < self.sets@.len()
                && self.sets@[s.spec_index()] is Some,
            AnyHandle::SetIterator(s) => 0 <= s.spec_index() < self.set_iterators@.len()
                && self.set_iterators@[s.spec_index()] is Some,
        }
    }

    /// The edge relation of the object graph: `a`'s payload directly holds
    /// `b`.
    pub open spec fn holds(self, a: AnyHandle, b: AnyHandle) -> bool {
        self.valid(a) && match a {
            AnyHandle::Object(o) => self.objects@[o.spec_index()].holds_handle(b),
            AnyHandle::Array(x) => self.arrays@[x.spec_index()].holds_handle(b),
            AnyHandle::JsSet(s) => self.sets@[s.spec_index()].holds_handle(b),
            AnyHandle::SetIterator(s) => self.set_iterators@[s.spec_index()].holds_handle(b),
        }
    }

    /// Between collections no arena has holes.
    pub open spec fn arenas_full(self) -> bool {
        &&& self.objects.all_slots_full()
        &&& self.arrays.all_slots_full()
        &&& self.sets.all_slots_full()
        &&& self.set_iterators.all_slots_full()
    }

    /// Keys are 32-bit indices, so no arena outgrows them.
    pub open spec fn lens_bounded(self) -> bool {
        &&& self.objects@.len() <= u32::MAX as usize
        &&& self.arrays@.len() <= u32::MAX as usize
        &&& self.sets@.len() <= u32::MAX as usize
        &&& self.set_iterators@.len() <= u32::MAX as usize
    }

    /// Every object's key/value/attribute arrays pair positionally.
    pub open spec fn objects_wf(self) -> bool {
        forall|i: int|
            0 <= i < self.objects@.len() ==> ((#[trigger] self.objects@[i]) matches Some(d)
                ==> d.wf())
    }

    /// Every handle embedded in any live heap data dereferences to a
    /// non-empty slot of the matching kind.
    pub open spec fn handles_valid(self) -> bool {
        forall|a: AnyHandle, b: AnyHandle| #[trigger] self.holds(a, b) ==> self.valid(b)
    }

    /// The heap invariant: always true between operations.
    pub open spec fn wf(self) -> bool {
        &&& self.arenas_full()
        &&& self.lens_bounded()
        &&& self.objects_wf()
        &&& self.handles_valid()
    }

    /// Every handle the datum holds is valid: what allocation demands of
    /// its argument.
    pub open spec fn data_handles_valid<D: HeapMarkAndSweep>(self, data: D) -> bool {
        forall|h: AnyHandle| #[trigger] data.holds_handle(h) ==> self.valid(h)
    }

    pub fn new() -> (heap: Heap)
        ensures
            heap.wf(),
            heap.objects@.len() == 0,
            heap.arrays@.len() == 0,
            heap.sets@.len() == 0,
            heap.set_iterators@.len() == 0,
            heap.alloc_counter == 0,
    {
        Heap {
            objects: IsoSubspace::with_capacity(0),
            arrays: IsoSubspace::with_capacity(0),
            sets: IsoSubspace::with_capacity(0),
            set_iterators: IsoSubspace::with_capacity(0),
            alloc_counter: 0,
        }
    }
}

/// The uniform allocation entry point: append a slot to the arena of the
/// data's kind and hand back the one handle ever created for it.
pub trait CreateHeapData<D, K> {
    /// What allocation demands: room in the arena, a well-formed heap, and
    /// data whose embedded handles are all valid.
    spec fn create_pre(pre: &Self, data: &D) -> bool;

    /// What allocation did: the one arena grew by exactly this slot, all
    /// else is untouched, and the returned key addresses the new slot.
    spec fn create_rel(pre: &Self, post: &Self, data: &D, k: K) -> bool;

    fn create(&mut self, data: D) -> (k: K)
        requires
            Self::create_pre(old(self), &data),
        ensures
            Self::create_rel(old(self), final(self), &data, k),
    ;
}

impl CreateHeapData<ObjectHeapData, OrdinaryObject> for Heap {
    open spec fn create_pre(pre: &Heap, data: &ObjectHeapData) -> bool {
        &&& pre.wf()
        &&& pre.objects@.len() < u32::MAX as usize
        &&& pre.data_handles_valid(*data)
        &&& data.wf()
    }

    open spec fn create_rel(pre: &Heap, post: &Heap, data: &ObjectHeapData, k: OrdinaryObject) -> bool {
        &&& post.objects@ == pre.objects@.push(Some(*data))
        &&& post.arrays@ == pre.arrays@
        &&& post.sets@ == pre.sets@
        &&& post.set_iterators@ == pre.set_iterators@
        &&& post.alloc_counter == pre.alloc_counter
        &&& k.spec_index() == pre.objects@.len()
        &&& post.wf()
    }

    fn create(&mut self, data: ObjectHeapData) -> (k: OrdinaryObject) {
        let ghost pre = *old(self);
        let k = self.objects.allocate(data);
        proof {
            lemma_create_preserves_wf(pre, *self);
        }
        k
    }
}

impl CreateHeapData<ArrayHeapData, Array> for Heap {
    open spec fn create_pre(pre: &Heap, data: &ArrayHeapData) -> bool {
        &&& pre.wf()
        &&& pre.arrays@.len() < u32::MAX as usize
        &&& pre.data_handles_valid(*data)
    }

    open spec fn create_rel(pre: &Heap, post: &Heap, data: &ArrayHeapData, k: Array) -> bool {
        &&& post.arrays@ == pre.arrays@.push(Some(*data))
        &&& post.objects@ == pre.objects@
        &&& post.sets@ == pre.sets@
        &&& post.set_iterators@ == pre.set_iterators@
        &&& post.alloc_counter == pre.alloc_counter
        &&& k.spec_index() == pre.arrays@.len()
        &&& post.wf()
    }

    fn create(&mut self, data: ArrayHeapData) -> (k: Array) {
        let ghost pre = *old(self);
        let k = self.arrays.allocate(data);
        proof {
            lemma_create_preserves_wf(pre, *self);
        }
        k
    }
}

impl CreateHeapData<SetHeapData, JsSet> for Heap {
    open spec fn create_pre(pre: &Heap, data: &SetHeapData) -> bool {
        &&& pre.wf()
        &&& pre.sets@.len() < u32::MAX as usize
        &&& pre.data_handles_valid(*data)
    }

    open spec fn create_rel(pre: &Heap, post: &Heap, data: &SetHeapData, k: JsSet) -> bool {
        &&& post.sets@ == pre.sets@.push(Some(*data))
        &&& post.objects@ == pre.objects@
        &&& post.arrays@ == pre.arrays@
        &&& post.set_iterators@ == pre.set_iterators@
        &&& post.alloc_counter == pre.alloc_counter
        &&& k.spec_index() == pre.sets@.len()
        &&& post.wf()
    }

    fn create(&mut self, data: SetHeapData) -> (k: JsSet) {
        let ghost pre = *old(self);
        let k = self.sets.allocate(data);
        proof {
            lemma_create_preserves_wf(pre, *self);
        }
        k
    }
}

impl CreateHeapData<SetIteratorHeapData, SetIterator> for Heap {
    open spec fn create_pre(pre: &Heap, data: &SetIteratorHeapData) -> bool {
        &&& pre.wf()
        &&& pre.set_iterators@.len() < u32::MAX as usize
        &&& pre.data_handles_valid(*data)
    }

    open spec fn create_rel(
        pre: &Heap,
        post: &Heap,
        data: &SetIteratorHeapData,
        k: SetIterator,
    ) -> bool {
        &&& post.set_iterators@ == pre.set_iterators@.push(Some(*data))
        &&& post.objects@ == pre.objects@
        &&& post.arrays@ == pre.arrays@
        &&& post.sets@ == pre.sets@
        &&& post.alloc_counter == pre.alloc_counter
        &&& k.spec_index() == pre.set_iterators@.len()
        &&& post.wf()
    }

    fn create(&mut self, data: SetIteratorHeapData) -> (k: SetIterator) {
        let ghost pre = *old(self);
        let k = self.set_iterators.allocate(data);
        proof {
            lemma_create_preserves_wf(pre, *self);
        }
        k
    }
}

/// Growing arenas only by slots whose data holds valid handles keeps the
/// heap well-formed: validity is monotone under growth, and no existing
/// slot changed.
proof fn lemma_create_preserves_wf(pre: Heap, post: Heap)
    requires
        pre.wf(),
        post.alloc_counter == pre.alloc_counter,
        post.objects@ == pre.objects@ || (pre.objects@.len() < u32::MAX as usize
            && post.objects@.len() == pre.objects@.len() + 1 && (forall|i: int|
            0 <= i < pre.objects@.len() ==> post.objects@[i] == pre.objects@[i])
            && post.objects@.last() is Some && (post.objects@.last() matches Some(d) ==> d.wf()
            && (forall|h: AnyHandle| #[trigger] d.holds_handle(h) ==> pre.valid(h)))),
        post.arrays@ == pre.arrays@ || (pre.arrays@.len() < u32::MAX as usize
            && post.arrays@.len() == pre.arrays@.len() + 1 && (forall|i: int|
            0 <= i < pre.arrays@.len() ==> post.arrays@[i] == pre.arrays@[i])
            && post.arrays@.last() is Some && (post.arrays@.last() matches Some(d) ==> (forall|
            h: AnyHandle,
        | #[trigger] d.holds_handle(h) ==> pre.valid(h)))),
        post.sets@ == pre.sets@ || (pre.sets@.len() < u32::MAX as usize && post.sets@.len()
            == pre.sets@.len() + 1 && (forall|i: int|
            0 <= i < pre.sets@.len() ==> post.sets@[i] == pre.sets@[i]) && post.sets@.last()
            is Some && (post.sets@.last() matches Some(d) ==> (forall|h: AnyHandle| #[trigger]
        d.holds_handle(h) ==> pre.valid(h)))),
        post.set_iterators@ == pre.set_iterators@ || (pre.set_iterators@.len() < u32::MAX as usize
            && post.set_iterators@.len() == pre.set_iterators@.len() + 1 && (forall|i: int|
            0 <= i < pre.set_iterators@.len() ==> post.set_iterators@[i]
                == pre.set_iterators@[i]) && post.set_iterators@.last() is Some && (
        post.set_iterators@.last() matches Some(d) ==> (forall|h: AnyHandle| #[trigger]
        d.holds_handle(h) ==> pre.valid(h)))),
    ensures
        post.wf(),
{
    assert forall|h: AnyHandle| pre.valid(h) implies post.valid(h) by {}
    assert forall|a: AnyHandle, b: AnyHandle| #[trigger] post.holds(a, b) implies post.valid(b) by {
        if pre.valid(a) {
            assert(pre.holds(a, b));
        }
    }
}

} // verus!
