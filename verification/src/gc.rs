//! The collection cycle: trace from an externally supplied root set through
//! the work queues, compute per-arena retain masks and compaction tables,
//! then compact every arena and adjust every surviving reference.

use vstd::prelude::*;

use crate::handles::{AnyHandle, Array, JsSet, OrdinaryObject, SetIterator};
use crate::heap::Heap;
use crate::heap_data::{
    remap_descriptor_entry, ArrayHeapData, ObjectHeapData, SetHeapData,
};
use crate::mark_sweep::{
    CompactionList, CompactionLists, CompactionsView, HeapMarkAndSweep, WorkQueues,
};
use crate::set_iterator::SetIteratorHeapData;
use crate::subspace::{
    count_trues, lemma_count_trues_le, lemma_count_trues_step, lemma_count_trues_update,
    lemma_rank_in_range, lemma_rank_surjective, rank,
};
use crate::value::{descriptor_entry_holds, opt_value_holds, value_holds, ElementDescriptor, Value};

verus! {

broadcast use vstd::seq_lib::lemma_seq_contains_after_push;

impl Heap {
    /// Reachability in at most `n` steps from the root set.
    pub open spec fn reach_n(self, roots: Seq<AnyHandle>, h: AnyHandle, n: nat) -> bool
        decreases n,
    {
        if n == 0 {
            roots.contains(h)
        } else {
            self.reach_n(roots, h, (n - 1) as nat) || exists|a: AnyHandle|
                self.reach_n(roots, a, (n - 1) as nat) && #[trigger] self.holds(a, h)
        }
    }

    /// Transitive reachability from the root set: what one collection
    /// cycle retains, and nothing else.
    pub open spec fn reachable(self, roots: Seq<AnyHandle>, h: AnyHandle) -> bool {
        exists|n: nat| self.reach_n(roots, h, n)
    }
}

/// Every root is reachable.
pub proof fn lemma_reach_root(heap: Heap, roots: Seq<AnyHandle>, h: AnyHandle)
    requires
        roots.contains(h),
    ensures
        heap.reachable(roots, h),
{
    assert(heap.reach_n(roots, h, 0));
}

/// Reachability is closed under the edge relation.
pub proof fn lemma_reach_step(heap: Heap, roots: Seq<AnyHandle>, a: AnyHandle, b: AnyHandle)
    requires
        heap.reachable(roots, a),
        heap.holds(a, b),
    ensures
        heap.reachable(roots, b),
{
    let n = choose|n: nat| heap.reach_n(roots, a, n);
    assert(heap.reach_n(roots, a, n) && heap.holds(a, b));
    assert(heap.reach_n(roots, b, n + 1));
}

proof fn lemma_reach_n_valid(heap: Heap, roots: Seq<AnyHandle>, h: AnyHandle, n: nat)
    requires
        heap.wf(),
        forall|i: int| 0 <= i < roots.len() ==> heap.valid(#[trigger] roots[i]),
        heap.reach_n(roots, h, n),
    ensures
        heap.valid(h),
    decreases n,
{
    if n == 0 {
        let i = choose|i: int| 0 <= i < roots.len() && roots[i] == h;
        assert(heap.valid(roots[i]));
    } else if heap.reach_n(roots, h, (n - 1) as nat) {
        lemma_reach_n_valid(heap, roots, h, (n - 1) as nat);
    } else {
        let a = choose|a: AnyHandle|
            heap.reach_n(roots, a, (n - 1) as nat) && #[trigger] heap.holds(a, h);
        assert(heap.holds(a, h));
    }
}

/// On a well-formed heap with valid roots, everything reachable is valid.
pub proof fn lemma_reachable_valid(heap: Heap, roots: Seq<AnyHandle>, h: AnyHandle)
    requires
        heap.wf(),
        forall|i: int| 0 <= i < roots.len() ==> heap.valid(#[trigger] roots[i]),
        heap.reachable(roots, h),
    ensures
        heap.valid(h),
{
    let n = choose|n: nat| heap.reach_n(roots, h, n);
    lemma_reach_n_valid(heap, roots, h, n);
}

/// Any set that contains the roots and is closed under the edge relation
/// contains everything reachable: the reachable set is the least such set.
pub proof fn lemma_reach_subset(
    heap: Heap,
    roots: Seq<AnyHandle>,
    s: Set<AnyHandle>,
    h: AnyHandle,
    n: nat,
)
    requires
        forall|r: AnyHandle| roots.contains(r) ==> s.contains(r),
        forall|a: AnyHandle, b: AnyHandle|
            s.contains(a) && #[trigger] heap.holds(a, b) ==> s.contains(b),
        heap.reach_n(roots, h, n),
    ensures
        s.contains(h),
    decreases n,
{
    if n == 0 {
    } else if heap.reach_n(roots, h, (n - 1) as nat) {
        lemma_reach_subset(heap, roots, s, h, (n - 1) as nat);
    } else {
        let a = choose|a: AnyHandle|
            heap.reach_n(roots, a, (n - 1) as nat) && #[trigger] heap.holds(a, h);
        lemma_reach_subset(heap, roots, s, a, (n - 1) as nat);
    }
}

/// Marking the same handle through any number of referrers changes nothing:
/// reachability depends only on which handles the root set contains.
pub proof fn lemma_duplicate_root(heap: Heap, roots: Seq<AnyHandle>, dup: AnyHandle, h: AnyHandle)
    requires
        roots.contains(dup),
    ensures
        heap.reachable(roots.push(dup), h) == heap.reachable(roots, h),
{
    if heap.reachable(roots.push(dup), h) {
        let n = choose|n: nat| heap.reach_n(roots.push(dup), h, n);
        lemma_reach_n_same_roots(heap, roots.push(dup), roots, h, n);
        assert(heap.reach_n(roots, h, n));
    }
    if heap.reachable(roots, h) {
        let n = choose|n: nat| heap.reach_n(roots, h, n);
        lemma_reach_n_same_roots(heap, roots, roots.push(dup), h, n);
        assert(heap.reach_n(roots.push(dup), h, n));
    }
}

/// Two root sequences with the same members reach the same handles.
proof fn lemma_reach_n_same_roots(
    heap: Heap,
    roots1: Seq<AnyHandle>,
    roots2: Seq<AnyHandle>,
    h: AnyHandle,
    n: nat,
)
    requires
        forall|r: AnyHandle| roots1.contains(r) ==> roots2.contains(r),
        heap.reach_n(roots1, h, n),
    ensures
        heap.reach_n(roots2, h, n),
    decreases n,
{
    if n == 0 {
    } else if heap.reach_n(roots1, h, (n - 1) as nat) {
        lemma_reach_n_same_roots(heap, roots1, roots2, h, (n - 1) as nat);
        assert(heap.reach_n(roots2, h, (n - 1) as nat));
    } else {
        let a = choose|a: AnyHandle|
            heap.reach_n(roots1, a, (n - 1) as nat) && #[trigger] heap.holds(a, h);
        lemma_reach_n_same_roots(heap, roots1, roots2, a, (n - 1) as nat);
        assert(heap.reach_n(roots2, a, (n - 1) as nat) && heap.holds(a, h));
    }
}

/// One "seen" bitset per arena, each sized to its arena's current length:
/// the guarantee that tracing visits each slot at most once, and, at the
/// end of tracing, the retain mask of each arena.
pub struct MarkBits {
    pub objects: Vec<bool>,
    pub arrays: Vec<bool>,
    pub sets: Vec<bool>,
    pub set_iterators: Vec<bool>,
}

impl MarkBits {
    /// Each bitset is exactly as long as its arena.
    pub open spec fn wf_for(self, heap: Heap) -> bool {
        &&& self.objects@.len() == heap.objects@.len()
        &&& self.arrays@.len() == heap.arrays@.len()
        &&& self.sets@.len() == heap.sets@.len()
        &&& self.set_iterators@.len() == heap.set_iterators@.len()
    }

    pub open spec fn marked(self, h: AnyHandle) -> bool {
        match h {
            AnyHandle::Object(o) => 0 <= o.spec_index() < self.objects@.len()
                && self.objects@[o.spec_index()],
            AnyHandle::Array(a) => 0 <= a.spec_index() < self.arrays@.len()
                && self.arrays@[a.spec_index()],
            AnyHandle::JsSet(s) => 0 <= s.spec_index() < self.sets@.len()
                && self.sets@[s.spec_index()],
            AnyHandle::SetIterator(s) => 0 <= s.spec_index() < self.set_iterators@.len()
                && self.set_iterators@[s.spec_index()],
        }
    }

    /// How many slots are still unseen: the measure the trace loop drains.
    pub open spec fn unmarked_total(self) -> nat {
        ((self.objects@.len() - count_trues(self.objects@)) + (self.arrays@.len() - count_trues(
            self.arrays@,
        )) + (self.sets@.len() - count_trues(self.sets@)) + (self.set_iterators@.len()
            - count_trues(self.set_iterators@))) as nat
    }

    pub fn new_for(heap: &Heap) -> (bits: MarkBits)
        ensures
            bits.wf_for(*heap),
            forall|h: AnyHandle| !bits.marked(h),
    {
        let n_objects = heap.objects.len();
        let n_arrays = heap.arrays.len();
        let n_sets = heap.sets.len();
        let n_set_iterators = heap.set_iterators.len();
        let bits = MarkBits {
            objects: vec![false; n_objects],
            arrays: vec![false; n_arrays],
            sets: vec![false; n_sets],
            set_iterators: vec![false; n_set_iterators],
        };
        bits
    }

    pub fn get(&self, h: AnyHandle) -> (r: bool)
        requires
            match h {
                AnyHandle::Object(o) => o.spec_index() < self.objects@.len(),
                AnyHandle::Array(a) => a.spec_index() < self.arrays@.len(),
                AnyHandle::JsSet(s) => s.spec_index() < self.sets@.len(),
                AnyHandle::SetIterator(s) => s.spec_index() < self.set_iterators@.len(),
            },
        ensures
            r == self.marked(h),
    {
        match h {
            AnyHandle::Object(o) => self.objects[o.get_index()],
            AnyHandle::Array(a) => self.arrays[a.get_index()],
            AnyHandle::JsSet(s) => self.sets[s.get_index()],
            AnyHandle::SetIterator(s) => self.set_iterators[s.get_index()],
        }
    }

    /// Record a handle's slot as reachable.
    pub fn set_marked(&mut self, h: AnyHandle)
        requires
            !old(self).marked(h),
            match h {
                AnyHandle::Object(o) => o.spec_index() < old(self).objects@.len(),
                AnyHandle::Array(a) => a.spec_index() < old(self).arrays@.len(),
                AnyHandle::JsSet(s) => s.spec_index() < old(self).sets@.len(),
                AnyHandle::SetIterator(s) => s.spec_index() < old(self).set_iterators@.len(),
            },
        ensures
            forall|x: AnyHandle| final(self).marked(x) == (old(self).marked(x) || x == h),
            final(self).objects@.len() == old(self).objects@.len(),
            final(self).arrays@.len() == old(self).arrays@.len(),
            final(self).sets@.len() == old(self).sets@.len(),
            final(self).set_iterators@.len() == old(self).set_iterators@.len(),
            final(self).unmarked_total() == old(self).unmarked_total() - 1,
    {
        proof {
            lemma_count_trues_le(self.objects@);
            lemma_count_trues_le(self.arrays@);
            lemma_count_trues_le(self.sets@);
            lemma_count_trues_le(self.set_iterators@);
        }
        match h {
            AnyHandle::Object(o) => {
                proof {
                    lemma_count_trues_update(self.objects@, o.spec_index());
                    lemma_count_trues_le(self.objects@.update(o.spec_index(), true));
                }
                let i = o.get_index();
                self.objects[i] = true;
            },
            AnyHandle::Array(a) => {
                proof {
                    lemma_count_trues_update(self.arrays@, a.spec_index());
                    lemma_count_trues_le(self.arrays@.update(a.spec_index(), true));
                }
                let i = a.get_index();
                self.arrays[i] = true;
            },
            AnyHandle::JsSet(s) => {
                proof {
                    lemma_count_trues_update(self.sets@, s.spec_index());
                    lemma_count_trues_le(self.sets@.update(s.spec_index(), true));
                }
                let i = s.get_index();
                self.sets[i] = true;
            },
            AnyHandle::SetIterator(s) => {
                proof {
                    lemma_count_trues_update(self.set_iterators@, s.spec_index());
                    lemma_count_trues_le(self.set_iterators@.update(s.spec_index(), true));
                }
                let i = s.get_index();
                self.set_iterators[i] = true;
            },
        }
    }
}

/// Invoke `mark_values` on the data one valid handle addresses: afterwards
/// the queues hold exactly what they held plus that slot's held handles.
fn mark_slot(heap: &Heap, h: AnyHandle, queues: &mut WorkQueues)
    requires
        heap.valid(h),
    ensures
        forall|x: AnyHandle|
            final(queues).contains(x) == (old(queues).contains(x) || heap.holds(h, x)),
{
    match h {
        AnyHandle::Object(o) => {
            let d = heap.objects.get(o).unwrap();
            d.mark_values(queues);
        },
        AnyHandle::Array(a) => {
            let d = heap.arrays.get(a).unwrap();
            d.mark_values(queues);
        },
        AnyHandle::JsSet(s) => {
            let d = heap.sets.get(s).unwrap();
            d.mark_values(queues);
        },
        AnyHandle::SetIterator(s) => {
            let d = heap.set_iterators.get(s).unwrap();
            d.mark_values(queues);
        },
    }
}

/// One visitation step of the trace loop. A handle whose slot is already
/// recorded as reachable is processed no further: its data is not marked
/// again and the queues are untouched, so each slot is enqueued for
/// processing at most once per cycle however many referrers name it.
pub fn mark_step(heap: &Heap, h: AnyHandle, bits: &mut MarkBits, queues: &mut WorkQueues)
    requires
        heap.wf(),
        heap.valid(h),
        old(bits).wf_for(*heap),
    ensures
        final(bits).wf_for(*heap),
        old(bits).marked(h) ==> {
            &&& final(bits).objects@ == old(bits).objects@
            &&& final(bits).arrays@ == old(bits).arrays@
            &&& final(bits).sets@ == old(bits).sets@
            &&& final(bits).set_iterators@ == old(bits).set_iterators@
            &&& forall|x: AnyHandle| final(queues).contains(x) == old(queues).contains(x)
            &&& final(queues).total_len() == old(queues).total_len()
        },
        !old(bits).marked(h) ==> {
            &&& forall|x: AnyHandle| final(bits).marked(x) == (old(bits).marked(x) || x == h)
            &&& final(bits).unmarked_total() == old(bits).unmarked_total() - 1
            &&& forall|x: AnyHandle|
                final(queues).contains(x) == (old(queues).contains(x) || heap.holds(h, x))
        },
{
    if !bits.get(h) {
        bits.set_marked(h);
        mark_slot(heap, h, queues);
    }
}

impl Heap {
    /// The mark/trace phase of a collection cycle: from the supplied roots,
    /// drain the work queues, visiting each slot at most once. The
    /// resulting bitsets record, per arena, exactly the slots reachable
    /// from the root set: the retain masks for the sweep.
    pub fn trace(&self, roots: &Vec<AnyHandle>) -> (bits: MarkBits)
        requires
            self.wf(),
            forall|i: int| 0 <= i < roots@.len() ==> self.valid(#[trigger] roots@[i]),
        ensures
            bits.wf_for(*self),
            forall|h: AnyHandle| bits.marked(h) == self.reachable(roots@, h),
    {
        let mut bits = MarkBits::new_for(self);
        let mut queues = WorkQueues::new();
        let n_roots = roots.len();
        let mut i: usize = 0;
        while i < n_roots
            invariant
                n_roots == roots@.len(),
                i <= n_roots,
                forall|x: AnyHandle|
                    queues.contains(x) == exists|j: int| 0 <= j < i && roots@[j] == x,
            decreases n_roots - i,
        {
            let r = roots[i];
            queues.push(r);
            i += 1;
        }
        assert(forall|x: AnyHandle| queues.contains(x) == roots@.contains(x));
        proof {
            assert forall|x: AnyHandle| queues.contains(x) implies self.valid(x)
                && self.reachable(roots@, x) by {
                assert(roots@.contains(x));
                let j = choose|j: int| 0 <= j < roots@.len() && roots@[j] == x;
                assert(self.valid(roots@[j]));
                lemma_reach_root(*self, roots@, x);
            }
        }
        let mut queues_empty = queues.is_empty();
        while !queues_empty
            invariant
                self.wf(),
                forall|j: int| 0 <= j < roots@.len() ==> self.valid(#[trigger] roots@[j]),
                bits.wf_for(*self),
                queues_empty == (queues.total_len() == 0),
                forall|h: AnyHandle| bits.marked(h) ==> self.reachable(roots@, h),
                forall|h: AnyHandle|
                    queues.contains(h) ==> self.valid(h) && self.reachable(roots@, h),
                forall|r: AnyHandle|
                    roots@.contains(r) ==> bits.marked(r) || queues.contains(r),
                forall|a: AnyHandle, b: AnyHandle|
                    bits.marked(a) && #[trigger] self.holds(a, b) ==> bits.marked(b)
                        || queues.contains(b),
            decreases bits.unmarked_total(), queues.total_len(),
        {
            let ghost q0 = queues;
            let popped = queues.pop();
            let h = popped.unwrap();
            let ghost q1 = queues;
            let ghost bits0 = bits;
            proof {
                assert(q0.contains(h));
                assert(self.reachable(roots@, h));
                if !bits.marked(h) {
                    lemma_reachable_valid(*self, roots@, h);
                }
            }
            mark_step(self, h, &mut bits, &mut queues);
            proof {
                assert forall|x: AnyHandle| bits.marked(x) implies self.reachable(
                    roots@,
                    x,
                ) by {
                    if !bits0.marked(x) {
                        assert(x == h);
                    }
                }
                assert forall|b: AnyHandle| queues.contains(b) implies self.valid(b)
                    && self.reachable(roots@, b) by {
                    if q1.contains(b) {
                    } else {
                        assert(self.holds(h, b));
                        lemma_reach_step(*self, roots@, h, b);
                    }
                }
                assert forall|a: AnyHandle, b: AnyHandle|
                    bits.marked(a) && #[trigger] self.holds(a, b) implies bits.marked(b)
                    || queues.contains(b) by {
                    if bits0.marked(a) {
                        if bits0.marked(b) {
                        } else if q1.contains(b) {
                        }
                    }
                }
            }
            queues_empty = queues.is_empty();
        }
        proof {
            let s = Set::<AnyHandle>::new(|x: AnyHandle| bits.marked(x));
            assert forall|h: AnyHandle| self.reachable(roots@, h) implies bits.marked(h) by {
                let n = choose|n: nat| self.reach_n(roots@, h, n);
                lemma_reach_subset(*self, roots@, s, h, n);
            }
            assert forall|h: AnyHandle| bits.marked(h) implies self.reachable(roots@, h) by {}
        }
        bits
    }
}

/// A value rewritten by the tables holds a handle only if the original
/// value held the handle it was rewritten from.
proof fn lemma_remap_value_holds(c: CompactionsView, v: Value, h2: AnyHandle)
    requires
        value_holds(c.remap_value(v), h2),
    ensures
        exists|h1: AnyHandle| #[trigger] value_holds(v, h1) && h2 == c.remap(h1),
{
    match v {
        Value::Object(o) => {
            assert(value_holds(v, AnyHandle::Object(o)) && h2 == c.remap(AnyHandle::Object(o)));
        },
        Value::Array(a) => {
            assert(value_holds(v, AnyHandle::Array(a)) && h2 == c.remap(AnyHandle::Array(a)));
        },
        Value::JsSet(s) => {
            assert(value_holds(v, AnyHandle::JsSet(s)) && h2 == c.remap(AnyHandle::JsSet(s)));
        },
        Value::SetIterator(s) => {
            assert(value_holds(v, AnyHandle::SetIterator(s)) && h2 == c.remap(
                AnyHandle::SetIterator(s),
            ));
        },
        _ => {},
    }
}

/// A swept object holds a handle only if its pre-sweep self held the
/// handle it was rewritten from.
proof fn lemma_object_swept_holds(
    pre: ObjectHeapData,
    post: ObjectHeapData,
    c: CompactionsView,
    h2: AnyHandle,
)
    requires
        pre.swept(&post, c),
        post.holds_handle(h2),
    ensures
        exists|h1: AnyHandle| #[trigger] pre.holds_handle(h1) && h2 == c.remap(h1),
{
    if (match post.prototype {
        Some(p) => h2 == AnyHandle::Object(p),
        None => false,
    }) {
        let p0 = pre.prototype->0;
        assert(pre.holds_handle(AnyHandle::Object(p0)) && h2 == c.remap(AnyHandle::Object(p0)));
    } else if exists|i: int|
        0 <= i < post.values@.len() && value_holds(#[trigger] post.values@[i], h2) {
        let i = choose|i: int|
            0 <= i < post.values@.len() && value_holds(#[trigger] post.values@[i], h2);
        assert(post.values@[i] == c.remap_value(pre.values@[i]));
        lemma_remap_value_holds(c, pre.values@[i], h2);
        let h1 = choose|h1: AnyHandle|
            #[trigger] value_holds(pre.values@[i], h1) && h2 == c.remap(h1);
        assert(pre.holds_handle(h1) && h2 == c.remap(h1));
    } else {
        let i = choose|i: int|
            0 <= i < post.descriptors@.len() && descriptor_entry_holds(
                #[trigger] post.descriptors@[i],
                h2,
            );
        assert(post.descriptors@[i] == remap_descriptor_entry(c, pre.descriptors@[i]));
        match pre.descriptors@[i] {
            Some(ElementDescriptor::Accessor { getter, setter, .. }) => {
                if opt_value_holds(c.remap_opt_value(getter), h2) {
                    let g = getter->0;
                    lemma_remap_value_holds(c, g, h2);
                    let h1 = choose|h1: AnyHandle|
                        #[trigger] value_holds(g, h1) && h2 == c.remap(h1);
                    assert(descriptor_entry_holds(pre.descriptors@[i], h1));
                    assert(pre.holds_handle(h1) && h2 == c.remap(h1));
                } else {
                    let s = setter->0;
                    lemma_remap_value_holds(c, s, h2);
                    let h1 = choose|h1: AnyHandle|
                        #[trigger] value_holds(s, h1) && h2 == c.remap(h1);
                    assert(descriptor_entry_holds(pre.descriptors@[i], h1));
                    assert(pre.holds_handle(h1) && h2 == c.remap(h1));
                }
            },
            _ => {
                assert(false);
            },
        }
    }
}

/// A swept array holds a handle only if its pre-sweep self held the handle
/// it was rewritten from.
proof fn lemma_array_swept_holds(
    pre: ArrayHeapData,
    post: ArrayHeapData,
    c: CompactionsView,
    h2: AnyHandle,
)
    requires
        pre.swept(&post, c),
        post.holds_handle(h2),
    ensures
        exists|h1: AnyHandle| #[trigger] pre.holds_handle(h1) && h2 == c.remap(h1),
{
    if (match post.object_index {
        Some(o) => h2 == AnyHandle::Object(o),
        None => false,
    }) {
        let o0 = pre.object_index->0;
        assert(pre.holds_handle(AnyHandle::Object(o0)) && h2 == c.remap(AnyHandle::Object(o0)));
    } else {
        let i = choose|i: int|
            0 <= i < post.elements@.len() && value_holds(#[trigger] post.elements@[i], h2);
        assert(post.elements@[i] == c.remap_value(pre.elements@[i]));
        lemma_remap_value_holds(c, pre.elements@[i], h2);
        let h1 = choose|h1: AnyHandle|
            #[trigger] value_holds(pre.elements@[i], h1) && h2 == c.remap(h1);
        assert(pre.holds_handle(h1) && h2 == c.remap(h1));
    }
}

/// A swept set holds a handle only if its pre-sweep self held the handle
/// it was rewritten from.
proof fn lemma_set_swept_holds(
    pre: SetHeapData,
    post: SetHeapData,
    c: CompactionsView,
    h2: AnyHandle,
)
    requires
        pre.swept(&post, c),
        post.holds_handle(h2),
    ensures
        exists|h1: AnyHandle| #[trigger] pre.holds_handle(h1) && h2 == c.remap(h1),
{
    if (match post.object_index {
        Some(o) => h2 == AnyHandle::Object(o),
        None => false,
    }) {
        let o0 = pre.object_index->0;
        assert(pre.holds_handle(AnyHandle::Object(o0)) && h2 == c.remap(AnyHandle::Object(o0)));
    } else {
        let i = choose|i: int|
            0 <= i < post.values@.len() && value_holds(#[trigger] post.values@[i], h2);
        assert(post.values@[i] == c.remap_value(pre.values@[i]));
        lemma_remap_value_holds(c, pre.values@[i], h2);
        let h1 = choose|h1: AnyHandle|
            #[trigger] value_holds(pre.values@[i], h1) && h2 == c.remap(h1);
        assert(pre.holds_handle(h1) && h2 == c.remap(h1));
    }
}

/// A swept set iterator holds a handle only if its pre-sweep self held the
/// handle it was rewritten from.
proof fn lemma_set_iterator_swept_holds(
    pre: SetIteratorHeapData,
    post: SetIteratorHeapData,
    c: CompactionsView,
    h2: AnyHandle,
)
    requires
        pre.swept(&post, c),
        post.holds_handle(h2),
    ensures
        exists|h1: AnyHandle| #[trigger] pre.holds_handle(h1) && h2 == c.remap(h1),
{
    if (match post.object_index {
        Some(o) => h2 == AnyHandle::Object(o),
        None => false,
    }) {
        let o0 = pre.object_index->0;
        assert(pre.holds_handle(AnyHandle::Object(o0)) && h2 == c.remap(AnyHandle::Object(o0)));
    } else {
        let s0 = pre.set->0;
        assert(pre.holds_handle(AnyHandle::JsSet(s0)) && h2 == c.remap(AnyHandle::JsSet(s0)));
    }
}

/// The compaction tables of a cycle agree with its retain masks: one entry
/// per pre-sweep slot, present exactly for retained slots, holding the
/// slot's rank among survivors.
pub open spec fn tables_match(heap: Heap, bits: MarkBits, c: CompactionsView) -> bool {
    &&& bits.wf_for(heap)
    &&& c.objects.len() == bits.objects@.len()
    &&& c.arrays.len() == bits.arrays@.len()
    &&& c.sets.len() == bits.sets@.len()
    &&& c.set_iterators.len() == bits.set_iterators@.len()
    &&& forall|i: int|
        0 <= i < bits.objects@.len() ==> ((#[trigger] c.objects[i]) is Some)
            == bits.objects@[i]
    &&& forall|i: int|
        0 <= i < bits.arrays@.len() ==> ((#[trigger] c.arrays[i]) is Some) == bits.arrays@[i]
    &&& forall|i: int|
        0 <= i < bits.sets@.len() ==> ((#[trigger] c.sets[i]) is Some) == bits.sets@[i]
    &&& forall|i: int|
        0 <= i < bits.set_iterators@.len() ==> ((#[trigger] c.set_iterators[i]) is Some)
            == bits.set_iterators@[i]
    &&& forall|i: int|
        0 <= i < bits.objects@.len() && bits.objects@[i] ==> (#[trigger] c.objects[i]) == Some(
            rank(bits.objects@, i) as u32,
        )
    &&& forall|i: int|
        0 <= i < bits.arrays@.len() && bits.arrays@[i] ==> (#[trigger] c.arrays[i]) == Some(
            rank(bits.arrays@, i) as u32,
        )
    &&& forall|i: int|
        0 <= i < bits.sets@.len() && bits.sets@[i] ==> (#[trigger] c.sets[i]) == Some(
            rank(bits.sets@, i) as u32,
        )
    &&& forall|i: int|
        0 <= i < bits.set_iterators@.len() && bits.set_iterators@[i] ==> (#[trigger]
        c.set_iterators[i]) == Some(rank(bits.set_iterators@, i) as u32)
}

/// With tables matching the masks and the masks recording reachability, a
/// handle survives the tables exactly when it is reachable.
proof fn lemma_collect_alive(heap: Heap, roots: Seq<AnyHandle>, bits: MarkBits, c: CompactionsView)
    requires
        forall|h: AnyHandle| bits.marked(h) == heap.reachable(roots, h),
        tables_match(heap, bits, c),
    ensures
        forall|h: AnyHandle| #[trigger] c.alive(h) == heap.reachable(roots, h),
{
    assert forall|h: AnyHandle| #[trigger] c.alive(h) == heap.reachable(roots, h) by {
        assert(bits.marked(h) == heap.reachable(roots, h));
        match h {
            AnyHandle::Object(o) => {
                if 0 <= o.spec_index() < c.objects.len() {
                    assert(((c.objects[o.spec_index()]) is Some) == bits.objects@[o.spec_index()]);
                }
            },
            AnyHandle::Array(a) => {
                if 0 <= a.spec_index() < c.arrays.len() {
                    assert(((c.arrays[a.spec_index()]) is Some) == bits.arrays@[a.spec_index()]);
                }
            },
            AnyHandle::JsSet(s) => {
                if 0 <= s.spec_index() < c.sets.len() {
                    assert(((c.sets[s.spec_index()]) is Some) == bits.sets@[s.spec_index()]);
                }
            },
            AnyHandle::SetIterator(s) => {
                if 0 <= s.spec_index() < c.set_iterators.len() {
                    assert(((c.set_iterators[s.spec_index()]) is Some)
                        == bits.set_iterators@[s.spec_index()]);
                }
            },
        }
    }
}

/// Every handle held by a retained slot is alive in the tables: the sweep
/// precondition, for every arena.
proof fn lemma_collect_sweep_pre(
    heap: Heap,
    roots: Seq<AnyHandle>,
    bits: MarkBits,
    c: CompactionsView,
)
    requires
        heap.wf(),
        forall|i: int| 0 <= i < roots.len() ==> heap.valid(#[trigger] roots[i]),
        forall|h: AnyHandle| bits.marked(h) == heap.reachable(roots, h),
        tables_match(heap, bits, c),
    ensures
        forall|j: int, h: AnyHandle|
            0 <= j < bits.objects@.len() && bits.objects@[j] && (#[trigger] heap.objects@[j].holds_handle(
                h,
            )) ==> c.alive(h),
        forall|j: int, h: AnyHandle|
            0 <= j < bits.arrays@.len() && bits.arrays@[j] && (#[trigger] heap.arrays@[j].holds_handle(
                h,
            )) ==> c.alive(h),
        forall|j: int, h: AnyHandle|
            0 <= j < bits.sets@.len() && bits.sets@[j] && (#[trigger] heap.sets@[j].holds_handle(
                h,
            )) ==> c.alive(h),
        forall|j: int, h: AnyHandle|
            0 <= j < bits.set_iterators@.len() && bits.set_iterators@[j] && (#[trigger]
            heap.set_iterators@[j].holds_handle(h)) ==> c.alive(h),
{
    lemma_collect_alive(heap, roots, bits, c);
    assert forall|j: int, h: AnyHandle|
        0 <= j < bits.objects@.len() && bits.objects@[j] && (#[trigger] heap.objects@[j].holds_handle(
            h,
        )) implies c.alive(h) by {
        let a = AnyHandle::Object(OrdinaryObject(j as u32));
        assert(bits.marked(a));
        assert(heap.holds(a, h));
        lemma_reach_step(heap, roots, a, h);
    }
    assert forall|j: int, h: AnyHandle|
        0 <= j < bits.arrays@.len() && bits.arrays@[j] && (#[trigger] heap.arrays@[j].holds_handle(
            h,
        )) implies c.alive(h) by {
        let a = AnyHandle::Array(Array(j as u32));
        assert(bits.marked(a));
        assert(heap.holds(a, h));
        lemma_reach_step(heap, roots, a, h);
    }
    assert forall|j: int, h: AnyHandle|
        0 <= j < bits.sets@.len() && bits.sets@[j] && (#[trigger] heap.sets@[j].holds_handle(
            h,
        )) implies c.alive(h) by {
        let a = AnyHandle::JsSet(JsSet(j as u32));
        assert(bits.marked(a));
        assert(heap.holds(a, h));
        lemma_reach_step(heap, roots, a, h);
    }
    assert forall|j: int, h: AnyHandle|
        0 <= j < bits.set_iterators@.len() && bits.set_iterators@[j] && (#[trigger]
        heap.set_iterators@[j].holds_handle(h)) implies c.alive(h) by {
        let a = AnyHandle::SetIterator(SetIterator(j as u32));
        assert(bits.marked(a));
        assert(heap.holds(a, h));
        lemma_reach_step(heap, roots, a, h);
    }
}

/// After the sweeps, every reachable handle survives in the tables: the
/// collector remaps it to a valid slot of the compacted heap.
proof fn lemma_remap_valid(
    pre: Heap,
    post: Heap,
    roots: Seq<AnyHandle>,
    bits: MarkBits,
    c: CompactionsView,
    b1: AnyHandle,
)
    requires
        pre.wf(),
        forall|i: int| 0 <= i < roots.len() ==> pre.valid(#[trigger] roots[i]),
        forall|h: AnyHandle| bits.marked(h) == pre.reachable(roots, h),
        tables_match(pre, bits, c),
        post.objects@.len() == count_trues(bits.objects@),
        post.arrays@.len() == count_trues(bits.arrays@),
        post.sets@.len() == count_trues(bits.sets@),
        post.set_iterators@.len() == count_trues(bits.set_iterators@),
        post.arenas_full(),
        pre.reachable(roots, b1),
    ensures
        c.alive(b1),
        post.valid(c.remap(b1)),
{
    lemma_reachable_valid(pre, roots, b1);
    assert(bits.marked(b1));
    match b1 {
        AnyHandle::Object(o) => {
            lemma_rank_in_range(bits.objects@, o.spec_index());
        },
        AnyHandle::Array(a) => {
            lemma_rank_in_range(bits.arrays@, a.spec_index());
        },
        AnyHandle::JsSet(s) => {
            lemma_rank_in_range(bits.sets@, s.spec_index());
        },
        AnyHandle::SetIterator(s) => {
            lemma_rank_in_range(bits.set_iterators@, s.spec_index());
        },
    }
}

/// Everything the cycle knows between computing the tables and finishing
/// the sweeps: the masks record reachability, the tables match the masks,
/// and each compacted arena holds exactly the retained slots in order,
/// each adjusted through the tables.
pub open spec fn collect_mid(
    pre: Heap,
    post: Heap,
    roots: Seq<AnyHandle>,
    bits: MarkBits,
    c: CompactionsView,
) -> bool {
    &&& pre.wf()
    &&& forall|i: int| 0 <= i < roots.len() ==> pre.valid(#[trigger] roots[i])
    &&& forall|h: AnyHandle| bits.marked(h) == pre.reachable(roots, h)
    &&& tables_match(pre, bits, c)
    &&& post.objects@.len() == count_trues(bits.objects@)
    &&& post.arrays@.len() == count_trues(bits.arrays@)
    &&& post.sets@.len() == count_trues(bits.sets@)
    &&& post.set_iterators@.len() == count_trues(bits.set_iterators@)
    &&& post.arenas_full()
    &&& forall|j: int|
        0 <= j < bits.objects@.len() && bits.objects@[j] ==> rank(bits.objects@, j)
            < post.objects@.len() && (#[trigger] pre.objects@[j]).swept(
            &post.objects@[rank(bits.objects@, j) as int],
            c,
        )
    &&& forall|j: int|
        0 <= j < bits.arrays@.len() && bits.arrays@[j] ==> rank(bits.arrays@, j)
            < post.arrays@.len() && (#[trigger] pre.arrays@[j]).swept(
            &post.arrays@[rank(bits.arrays@, j) as int],
            c,
        )
    &&& forall|j: int|
        0 <= j < bits.sets@.len() && bits.sets@[j] ==> rank(bits.sets@, j) < post.sets@.len()
            && (#[trigger] pre.sets@[j]).swept(&post.sets@[rank(bits.sets@, j) as int], c)
    &&& forall|j: int|
        0 <= j < bits.set_iterators@.len() && bits.set_iterators@[j] ==> rank(
            bits.set_iterators@,
            j,
        ) < post.set_iterators@.len() && (#[trigger] pre.set_iterators@[j]).swept(
            &post.set_iterators@[rank(bits.set_iterators@, j) as int],
            c,
        )
}

/// Every compacted object slot is the adjusted image of one retained,
/// reachable pre-sweep slot.
proof fn lemma_origin_object(
    pre: Heap,
    post: Heap,
    roots: Seq<AnyHandle>,
    bits: MarkBits,
    c: CompactionsView,
    j: int,
) -> (i: int)
    requires
        collect_mid(pre, post, roots, bits, c),
        0 <= j < post.objects@.len(),
    ensures
        0 <= i < pre.objects@.len(),
        bits.objects@[i],
        c.objects[i] == Some(j as u32),
        pre.reachable(roots, AnyHandle::Object(OrdinaryObject(i as u32))),
        pre.objects@[i].swept(&post.objects@[j], c),
{
    lemma_rank_surjective(bits.objects@, j);
    let i = choose|i: int|
        0 <= i < bits.objects@.len() && bits.objects@[i] && rank(bits.objects@, i) == j;
    lemma_rank_in_range(bits.objects@, i);
    assert(bits.marked(AnyHandle::Object(OrdinaryObject(i as u32))));
    i
}

/// Every compacted array slot is the adjusted image of one retained,
/// reachable pre-sweep slot.
proof fn lemma_origin_array(
    pre: Heap,
    post: Heap,
    roots: Seq<AnyHandle>,
    bits: MarkBits,
    c: CompactionsView,
    j: int,
) -> (i: int)
    requires
        collect_mid(pre, post, roots, bits, c),
        0 <= j < post.arrays@.len(),
    ensures
        0 <= i < pre.arrays@.len(),
        bits.arrays@[i],
        c.arrays[i] == Some(j as u32),
        pre.reachable(roots, AnyHandle::Array(Array(i as u32))),
        pre.arrays@[i].swept(&post.arrays@[j], c),
{
    lemma_rank_surjective(bits.arrays@, j);
    let i = choose|i: int|
        0 <= i < bits.arrays@.len() && bits.arrays@[i] && rank(bits.arrays@, i) == j;
    lemma_rank_in_range(bits.arrays@, i);
    assert(bits.marked(AnyHandle::Array(Array(i as u32))));
    i
}

/// Every compacted set slot is the adjusted image of one retained,
/// reachable pre-sweep slot.
proof fn lemma_origin_set(
    pre: Heap,
    post: Heap,
    roots: Seq<AnyHandle>,
    bits: MarkBits,
    c: CompactionsView,
    j: int,
) -> (i: int)
    requires
        collect_mid(pre, post, roots, bits, c),
        0 <= j < post.sets@.len(),
    ensures
        0 <= i < pre.sets@.len(),
        bits.sets@[i],
        c.sets[i] == Some(j as u32),
        pre.reachable(roots, AnyHandle::JsSet(JsSet(i as u32))),
        pre.sets@[i].swept(&post.sets@[j], c),
{
    lemma_rank_surjective(bits.sets@, j);
    let i = choose|i: int| 0 <= i < bits.sets@.len() && bits.sets@[i] && rank(bits.sets@, i) == j;
    lemma_rank_in_range(bits.sets@, i);
    assert(bits.marked(AnyHandle::JsSet(JsSet(i as u32))));
    i
}

/// Every compacted set-iterator slot is the adjusted image of one
/// retained, reachable pre-sweep slot.
proof fn lemma_origin_set_iterator(
    pre: Heap,
    post: Heap,
    roots: Seq<AnyHandle>,
    bits: MarkBits,
    c: CompactionsView,
    j: int,
) -> (i: int)
    requires
        collect_mid(pre, post, roots, bits, c),
        0 <= j < post.set_iterators@.len(),
    ensures
        0 <= i < pre.set_iterators@.len(),
        bits.set_iterators@[i],
        c.set_iterators[i] == Some(j as u32),
        pre.reachable(roots, AnyHandle::SetIterator(SetIterator(i as u32))),
        pre.set_iterators@[i].swept(&post.set_iterators@[j], c),
{
    lemma_rank_surjective(bits.set_iterators@, j);
    let i = choose|i: int|
        0 <= i < bits.set_iterators@.len() && bits.set_iterators@[i] && rank(
            bits.set_iterators@,
            i,
        ) == j;
    lemma_rank_in_range(bits.set_iterators@, i);
    assert(bits.marked(AnyHandle::SetIterator(SetIterator(i as u32))));
    i
}

/// What a finished cycle guarantees: the compacted heap is well-formed,
/// the tables retain exactly the reachable subset, every reachable slot's
/// content survives unchanged but for handle identity, and every compacted
/// slot is the image of a reachable one.
proof fn lemma_collect_post(
    pre: Heap,
    post: Heap,
    roots: Seq<AnyHandle>,
    bits: MarkBits,
    c: CompactionsView,
)
    requires
        collect_mid(pre, post, roots, bits, c),
    ensures
        post.wf(),
        forall|h: AnyHandle| #[trigger] c.alive(h) == pre.reachable(roots, h),
        forall|o: OrdinaryObject|
            pre.reachable(roots, AnyHandle::Object(o)) ==> {
                #[trigger] c.objects[o.spec_index()] matches Some(v) && v
                    < post.objects@.len() && pre.objects@[o.spec_index()].swept(
                    &post.objects@[v as int],
                    c,
                )
            },
        forall|a: Array|
            pre.reachable(roots, AnyHandle::Array(a)) ==> {
                #[trigger] c.arrays[a.spec_index()] matches Some(v) && v < post.arrays@.len()
                    && pre.arrays@[a.spec_index()].swept(&post.arrays@[v as int], c)
            },
        forall|s: JsSet|
            pre.reachable(roots, AnyHandle::JsSet(s)) ==> {
                #[trigger] c.sets[s.spec_index()] matches Some(v) && v < post.sets@.len()
                    && pre.sets@[s.spec_index()].swept(&post.sets@[v as int], c)
            },
        forall|s: SetIterator|
            pre.reachable(roots, AnyHandle::SetIterator(s)) ==> {
                #[trigger] c.set_iterators[s.spec_index()] matches Some(v) && v
                    < post.set_iterators@.len() && pre.set_iterators@[s.spec_index()].swept(
                    &post.set_iterators@[v as int],
                    c,
                )
            },
        forall|j: int|
            0 <= j < post.objects@.len() ==> (#[trigger] post.objects@[j]) is Some && exists|
                o: OrdinaryObject,
            |
                pre.reachable(roots, AnyHandle::Object(o)) && c.objects[o.spec_index()] == Some(
                    j as u32,
                ),
        forall|j: int|
            0 <= j < post.arrays@.len() ==> (#[trigger] post.arrays@[j]) is Some && exists|
                a: Array,
            |
                pre.reachable(roots, AnyHandle::Array(a)) && c.arrays[a.spec_index()] == Some(
                    j as u32,
                ),
        forall|j: int|
            0 <= j < post.sets@.len() ==> (#[trigger] post.sets@[j]) is Some && exists|s: JsSet|
                pre.reachable(roots, AnyHandle::JsSet(s)) && c.sets[s.spec_index()] == Some(
                    j as u32,
                ),
        forall|j: int|
            0 <= j < post.set_iterators@.len() ==> (#[trigger] post.set_iterators@[j]) is Some
                && exists|s: SetIterator|
                pre.reachable(roots, AnyHandle::SetIterator(s))
                    && c.set_iterators[s.spec_index()] == Some(j as u32),
{
    lemma_collect_alive(pre, roots, bits, c);
    lemma_count_trues_le(bits.objects@);
    lemma_count_trues_le(bits.arrays@);
    lemma_count_trues_le(bits.sets@);
    lemma_count_trues_le(bits.set_iterators@);
    assert forall|o: OrdinaryObject|
        pre.reachable(roots, AnyHandle::Object(o)) implies {
        #[trigger] c.objects[o.spec_index()] matches Some(v) && v < post.objects@.len()
            && pre.objects@[o.spec_index()].swept(&post.objects@[v as int], c)
    } by {
        let h = AnyHandle::Object(o);
        lemma_reachable_valid(pre, roots, h);
        assert(bits.marked(h));
        lemma_rank_in_range(bits.objects@, o.spec_index());
    }
    assert forall|a: Array|
        pre.reachable(roots, AnyHandle::Array(a)) implies {
        #[trigger] c.arrays[a.spec_index()] matches Some(v) && v < post.arrays@.len()
            && pre.arrays@[a.spec_index()].swept(&post.arrays@[v as int], c)
    } by {
        let h = AnyHandle::Array(a);
        lemma_reachable_valid(pre, roots, h);
        assert(bits.marked(h));
        lemma_rank_in_range(bits.arrays@, a.spec_index());
    }
    assert forall|s: JsSet|
        pre.reachable(roots, AnyHandle::JsSet(s)) implies {
        #[trigger] c.sets[s.spec_index()] matches Some(v) && v < post.sets@.len()
            && pre.sets@[s.spec_index()].swept(&post.sets@[v as int], c)
    } by {
        let h = AnyHandle::JsSet(s);
        lemma_reachable_valid(pre, roots, h);
        assert(bits.marked(h));
        lemma_rank_in_range(bits.sets@, s.spec_index());
    }
    assert forall|s: SetIterator|
        pre.reachable(roots, AnyHandle::SetIterator(s)) implies {
        #[trigger] c.set_iterators[s.spec_index()] matches Some(v) && v
            < post.set_iterators@.len() && pre.set_iterators@[s.spec_index()].swept(
            &post.set_iterators@[v as int],
            c,
        )
    } by {
        let h = AnyHandle::SetIterator(s);
        lemma_reachable_valid(pre, roots, h);
        assert(bits.marked(h));
        lemma_rank_in_range(bits.set_iterators@, s.spec_index());
    }
    assert forall|j: int| 0 <= j < post.objects@.len() implies (#[trigger] post.objects@[j])
        is Some && exists|o: OrdinaryObject|
        pre.reachable(roots, AnyHandle::Object(o)) && c.objects[o.spec_index()] == Some(
            j as u32,
        ) by {
        let i = lemma_origin_object(pre, post, roots, bits, c, j);
        let o = OrdinaryObject(i as u32);
        assert(pre.reachable(roots, AnyHandle::Object(o)) && c.objects[o.spec_index()] == Some(
            j as u32,
        ));
    }
    assert forall|j: int| 0 <= j < post.arrays@.len() implies (#[trigger] post.arrays@[j])
        is Some && exists|a: Array|
        pre.reachable(roots, AnyHandle::Array(a)) && c.arrays[a.spec_index()] == Some(
            j as u32,
        ) by {
        let i = lemma_origin_array(pre, post, roots, bits, c, j);
        let a = Array(i as u32);
        assert(pre.reachable(roots, AnyHandle::Array(a)) && c.arrays[a.spec_index()] == Some(
            j as u32,
        ));
    }
    assert forall|j: int| 0 <= j < post.sets@.len() implies (#[trigger] post.sets@[j]) is Some
        && exists|s: JsSet|
        pre.reachable(roots, AnyHandle::JsSet(s)) && c.sets[s.spec_index()] == Some(
            j as u32,
        ) by {
        let i = lemma_origin_set(pre, post, roots, bits, c, j);
        let s = JsSet(i as u32);
        assert(pre.reachable(roots, AnyHandle::JsSet(s)) && c.sets[s.spec_index()] == Some(
            j as u32,
        ));
    }
    assert forall|j: int| 0 <= j < post.set_iterators@.len() implies (#[trigger]
    post.set_iterators@[j]) is Some && exists|s: SetIterator|
        pre.reachable(roots, AnyHandle::SetIterator(s)) && c.set_iterators[s.spec_index()]
            == Some(j as u32) by {
        let i = lemma_origin_set_iterator(pre, post, roots, bits, c, j);
        let s = SetIterator(i as u32);
        assert(pre.reachable(roots, AnyHandle::SetIterator(s)) && c.set_iterators[s.spec_index()]
            == Some(j as u32));
    }
    assert forall|j: int|
        0 <= j < post.objects@.len() implies ((#[trigger] post.objects@[j]) matches Some(d)
        ==> d.wf()) by {
        let i = lemma_origin_object(pre, post, roots, bits, c, j);
        assert(pre.objects@[i] is Some);
        assert(pre.objects@[i] matches Some(d0) ==> d0.wf());
    }
    assert forall|a2: AnyHandle, b2: AnyHandle| #[trigger] post.holds(a2, b2) implies post.valid(
        b2,
    ) by {
        match a2 {
            AnyHandle::Object(o2) => {
                let j = o2.spec_index();
                let i = lemma_origin_object(pre, post, roots, bits, c, j);
                let d0 = pre.objects@[i]->0;
                let d1 = post.objects@[j]->0;
                assert(d0.swept(&d1, c));
                assert(d1.holds_handle(b2));
                lemma_object_swept_holds(d0, d1, c, b2);
                let b1 = choose|b1: AnyHandle| #[trigger] d0.holds_handle(b1) && b2 == c.remap(b1);
                let orig = AnyHandle::Object(OrdinaryObject(i as u32));
                assert(pre.holds(orig, b1));
                lemma_reach_step(pre, roots, orig, b1);
                lemma_remap_valid(pre, post, roots, bits, c, b1);
            },
            AnyHandle::Array(a) => {
                let j = a.spec_index();
                let i = lemma_origin_array(pre, post, roots, bits, c, j);
                let d0 = pre.arrays@[i]->0;
                let d1 = post.arrays@[j]->0;
                assert(d0.swept(&d1, c));
                assert(d1.holds_handle(b2));
                lemma_array_swept_holds(d0, d1, c, b2);
                let b1 = choose|b1: AnyHandle| #[trigger] d0.holds_handle(b1) && b2 == c.remap(b1);
                let orig = AnyHandle::Array(Array(i as u32));
                assert(pre.holds(orig, b1));
                lemma_reach_step(pre, roots, orig, b1);
                lemma_remap_valid(pre, post, roots, bits, c, b1);
            },
            AnyHandle::JsSet(s) => {
                let j = s.spec_index();
                let i = lemma_origin_set(pre, post, roots, bits, c, j);
                let d0 = pre.sets@[i]->0;
                let d1 = post.sets@[j]->0;
                assert(d0.swept(&d1, c));
                assert(d1.holds_handle(b2));
                lemma_set_swept_holds(d0, d1, c, b2);
                let b1 = choose|b1: AnyHandle| #[trigger] d0.holds_handle(b1) && b2 == c.remap(b1);
                let orig = AnyHandle::JsSet(JsSet(i as u32));
                assert(pre.holds(orig, b1));
                lemma_reach_step(pre, roots, orig, b1);
                lemma_remap_valid(pre, post, roots, bits, c, b1);
            },
            AnyHandle::SetIterator(s) => {
                let j = s.spec_index();
                let i = lemma_origin_set_iterator(pre, post, roots, bits, c, j);
                let d0 = pre.set_iterators@[i]->0;
                let d1 = post.set_iterators@[j]->0;
                assert(d0.swept(&d1, c));
                assert(d1.holds_handle(b2));
                lemma_set_iterator_swept_holds(d0, d1, c, b2);
                let b1 = choose|b1: AnyHandle| #[trigger] d0.holds_handle(b1) && b2 == c.remap(b1);
                let orig = AnyHandle::SetIterator(SetIterator(i as u32));
                assert(pre.holds(orig, b1));
                lemma_reach_step(pre, roots, orig, b1);
                lemma_remap_valid(pre, post, roots, bits, c, b1);
            },
        }
    }
}

/// Walk a retain mask once, assigning each retained slot the next
/// ascending free position and recording removal for the rest.
pub fn build_compaction_list(bits: &Vec<bool>) -> (t: CompactionList)
    requires
        bits@.len() <= u32::MAX as usize,
    ensures
        t@.len() == bits@.len(),
        forall|i: int| 0 <= i < bits@.len() ==> ((#[trigger] t@[i]) is Some) == bits@[i],
        forall|i: int|
            0 <= i < bits@.len() && bits@[i] ==> t@[i] == Some(rank(bits@, i) as u32),
{
    let n = bits.len();
    let mut entries: Vec<Option<u32>> = Vec::new();
    let mut next: u32 = 0;
    let mut i: usize = 0;
    proof {
        assert(bits@.take(0) =~= Seq::<bool>::empty());
    }
    while i < n
        invariant
            n == bits@.len(),
            n <= u32::MAX as usize,
            i <= n,
            entries@.len() == i,
            next == rank(bits@, i as int),
            forall|j: int| 0 <= j < i ==> ((#[trigger] entries@[j]) is Some) == bits@[j],
            forall|j: int|
                0 <= j < i && bits@[j] ==> entries@[j] == Some(rank(bits@, j) as u32),
        decreases n - i,
    {
        proof {
            lemma_count_trues_step(bits@, i as int);
            lemma_count_trues_le(bits@.take(i as int));
        }
        if bits[i] {
            entries.push(Some(next));
            next = next + 1;
        } else {
            entries.push(None);
        }
        i += 1;
    }
    CompactionList(entries)
}

impl Heap {
    /// One whole collection cycle: trace from the supplied roots, compute
    /// the per-arena compaction tables, compact every arena, and rewrite
    /// every surviving embedded handle. Exactly the transitively reachable
    /// slots survive; each survivor's content is unchanged except that its
    /// handles now name post-compaction positions. The returned tables let
    /// the caller patch handles it holds outside the heap; they describe
    /// the position of every surviving pre-sweep slot.
    pub fn collect(&mut self, roots: &Vec<AnyHandle>) -> (compactions: CompactionLists)
        requires
            old(self).wf(),
            forall|i: int| 0 <= i < roots@.len() ==> old(self).valid(#[trigger] roots@[i]),
        ensures
            final(self).wf(),
            final(self).alloc_counter == old(self).alloc_counter,
            compactions@.objects.len() == old(self).objects@.len(),
            compactions@.arrays.len() == old(self).arrays@.len(),
            compactions@.sets.len() == old(self).sets@.len(),
            compactions@.set_iterators.len() == old(self).set_iterators@.len(),
            forall|h: AnyHandle|
                #[trigger] compactions@.alive(h) == old(self).reachable(roots@, h),
            forall|o: OrdinaryObject|
                old(self).reachable(roots@, AnyHandle::Object(o)) ==> {
                    #[trigger] compactions@.objects[o.spec_index()] matches Some(v)
                        && v < final(self).objects@.len() && old(self).objects@[o.spec_index()].swept(
                        &final(self).objects@[v as int],
                        compactions@,
                    )
                },
            forall|a: Array|
                old(self).reachable(roots@, AnyHandle::Array(a)) ==> {
                    #[trigger] compactions@.arrays[a.spec_index()] matches Some(v)
                        && v < final(self).arrays@.len() && old(self).arrays@[a.spec_index()].swept(
                        &final(self).arrays@[v as int],
                        compactions@,
                    )
                },
            forall|s: JsSet|
                old(self).reachable(roots@, AnyHandle::JsSet(s)) ==> {
                    #[trigger] compactions@.sets[s.spec_index()] matches Some(v)
                        && v < final(self).sets@.len() && old(self).sets@[s.spec_index()].swept(
                        &final(self).sets@[v as int],
                        compactions@,
                    )
                },
            forall|s: SetIterator|
                old(self).reachable(roots@, AnyHandle::SetIterator(s)) ==> {
                    #[trigger] compactions@.set_iterators[s.spec_index()] matches Some(v)
                        && v < final(self).set_iterators@.len()
                        && old(self).set_iterators@[s.spec_index()].swept(
                        &final(self).set_iterators@[v as int],
                        compactions@,
                    )
                },
            forall|j: int|
                0 <= j < final(self).objects@.len() ==> (#[trigger] final(self).objects@[j])
                    is Some && exists|o: OrdinaryObject|
                    old(self).reachable(roots@, AnyHandle::Object(o))
                        && compactions@.objects[o.spec_index()] == Some(j as u32),
            forall|j: int|
                0 <= j < final(self).arrays@.len() ==> (#[trigger] final(self).arrays@[j])
                    is Some && exists|a: Array|
                    old(self).reachable(roots@, AnyHandle::Array(a))
                        && compactions@.arrays[a.spec_index()] == Some(j as u32),
            forall|j: int|
                0 <= j < final(self).sets@.len() ==> (#[trigger] final(self).sets@[j]) is Some
                    && exists|s: JsSet|
                    old(self).reachable(roots@, AnyHandle::JsSet(s))
                        && compactions@.sets[s.spec_index()] == Some(j as u32),
            forall|j: int|
                0 <= j < final(self).set_iterators@.len() ==> (#[trigger]
                final(self).set_iterators@[j]) is Some && exists|s: SetIterator|
                    old(self).reachable(roots@, AnyHandle::SetIterator(s))
                        && compactions@.set_iterators[s.spec_index()] == Some(j as u32),
    {
        let bits = self.trace(roots);
        let compactions = CompactionLists {
            objects: build_compaction_list(&bits.objects),
            arrays: build_compaction_list(&bits.arrays),
            sets: build_compaction_list(&bits.sets),
            set_iterators: build_compaction_list(&bits.set_iterators),
        };
        proof {
            lemma_collect_alive(*self, roots@, bits, compactions@);
            lemma_collect_sweep_pre(*self, roots@, bits, compactions@);
        }
        self.objects.sweep(&compactions, bits.objects.as_slice());
        self.arrays.sweep(&compactions, bits.arrays.as_slice());
        self.sets.sweep(&compactions, bits.sets.as_slice());
        self.set_iterators.sweep(&compactions, bits.set_iterators.as_slice());
        proof {
            lemma_collect_post(*old(self), *self, roots@, bits, compactions@);
        }
        compactions
    }
}

} // verus!
