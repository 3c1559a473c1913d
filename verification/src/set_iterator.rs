//! Set iterators: a heap-resident collaborator type that consumes the heap
//! through handles and conforms to the mark/sweep-adjust protocol.

use vstd::prelude::*;

use crate::handles::{AnyHandle, JsSet, OrdinaryObject, SetIterator};
use crate::heap::{CreateHeapData, Heap};
use crate::heap_data::ObjectHeapData;
use crate::mark_sweep::{CompactionLists, CompactionsView, HeapMarkAndSweep, WorkQueues};
use crate::value::{Object, Value};

verus! {

/// What a collection iterator yields on each step.
#[derive(Debug, Clone, Copy, PartialEq, Eq, Structural)]
pub enum CollectionIteratorKind {
    KeyAndValue,
    Key,
    Value,
}

impl Default for CollectionIteratorKind {
    fn default() -> (r: Self)
        ensures
            r == CollectionIteratorKind::KeyAndValue,
    {
        CollectionIteratorKind::KeyAndValue
    }
}

/// A set iterator's payload: an optional backing object, the iterated set,
/// the cursor, and the iteration kind.
#[derive(Debug, Clone, Copy)]
pub struct SetIteratorHeapData {
    pub object_index: Option<OrdinaryObject>,
    pub set: Option<JsSet>,
    pub next_index: usize,
    pub kind: CollectionIteratorKind,
}

impl Default for SetIteratorHeapData {
    fn default() -> (r: Self)
        ensures
            r.object_index is None,
            r.set is None,
            r.next_index == 0,
            r.kind == CollectionIteratorKind::KeyAndValue,
    {
        SetIteratorHeapData {
            object_index: None,
            set: None,
            next_index: 0,
            kind: CollectionIteratorKind::KeyAndValue,
        }
    }
}

impl HeapMarkAndSweep for SetIteratorHeapData {
    open spec fn holds_handle(&self, h: AnyHandle) -> bool {
        ||| match self.object_index {
            Some(o) => h == AnyHandle::Object(o),
            None => false,
        }
        ||| match self.set {
            Some(s) => h == AnyHandle::JsSet(s),
            None => false,
        }
    }

    open spec fn swept(&self, post: &Self, compactions: CompactionsView) -> bool {
        &&& post.object_index == compactions.remap_opt_object(self.object_index)
        &&& post.set == compactions.remap_opt_set(self.set)
        &&& post.next_index == self.next_index
        &&& post.kind == self.kind
    }

    fn mark_values(&self, queues: &mut WorkQueues) {
        if let Some(o) = self.object_index {
            queues.push(AnyHandle::Object(o));
        }
        if let Some(s) = self.set {
            queues.push(AnyHandle::JsSet(s));
        }
    }

    fn sweep_values(&mut self, compactions: &CompactionLists) {
        if let Some(o) = self.object_index {
            proof {
                assert(old(self).holds_handle(AnyHandle::Object(o)));
            }
            self.object_index = Some(OrdinaryObject(compactions.objects.shift_index(o.0)));
        }
        if let Some(s) = self.set {
            proof {
                assert(old(self).holds_handle(AnyHandle::JsSet(s)));
            }
            self.set = Some(JsSet(compactions.sets.shift_index(s.0)));
        }
    }
}

impl SetIterator {
    /// Allocate a fresh iterator over a set, cursor at the start.
    pub fn from_set(heap: &mut Heap, set: JsSet, kind: CollectionIteratorKind) -> (s:
        SetIterator)
        requires
            old(heap).wf(),
            old(heap).valid(AnyHandle::JsSet(set)),
            old(heap).set_iterators@.len() < u32::MAX as usize,
        ensures
            final(heap).wf(),
            s.spec_index() == old(heap).set_iterators@.len(),
            final(heap).set_iterators@ == old(heap).set_iterators@.push(
                Some(
                    SetIteratorHeapData {
                        object_index: None,
                        set: Some(set),
                        next_index: 0,
                        kind,
                    },
                ),
            ),
            final(heap).objects@ == old(heap).objects@,
            final(heap).arrays@ == old(heap).arrays@,
            final(heap).sets@ == old(heap).sets@,
            final(heap).alloc_counter == old(heap).alloc_counter,
    {
        let data = SetIteratorHeapData { object_index: None, set: Some(set), next_index: 0, kind };
        proof {
            assert forall|h: AnyHandle| #[trigger] data.holds_handle(h) implies old(heap).valid(
                h,
            ) by {
                assert(h == AnyHandle::JsSet(set));
            }
        }
        heap.create(data)
    }

    /// The iterator's backing object, if one has been created for it.
    pub fn get_backing_object(self, heap: &Heap) -> (r: Option<OrdinaryObject>)
        requires
            heap.wf(),
            heap.valid(AnyHandle::SetIterator(self)),
        ensures
            heap.set_iterators@[self.spec_index()] matches Some(d) && r == d.object_index,
    {
        let data = heap.set_iterators.get(self).unwrap();
        data.object_index
    }

    /// Allocate an empty ordinary object as this iterator's backing object
    /// and record it in the iterator's slot.
    pub fn create_backing_object(self, heap: &mut Heap, prototype: Option<OrdinaryObject>) -> (
        backing: OrdinaryObject)
        requires
            old(heap).wf(),
            old(heap).valid(AnyHandle::SetIterator(self)),
            old(heap).objects@.len() < u32::MAX as usize,
            match prototype {
                Some(p) => old(heap).valid(AnyHandle::Object(p)),
                None => true,
            },
        ensures
            final(heap).wf(),
            backing.spec_index() == old(heap).objects@.len(),
            final(heap).objects@.len() == old(heap).objects@.len() + 1,
            forall|j: int|
                0 <= j < old(heap).objects@.len() ==> final(heap).objects@[j] == old(
                    heap,
                ).objects@[j],
            final(heap).objects@[backing.spec_index()] matches Some(d) && {
                &&& d.extensible == true
                &&& d.prototype == prototype
                &&& d.keys@.len() == 0
                &&& d.values@.len() == 0
                &&& d.descriptors@.len() == 0
            },
            final(heap).set_iterators@.len() == old(heap).set_iterators@.len(),
            forall|j: int|
                0 <= j < old(heap).set_iterators@.len() && j != self.spec_index() ==> final(heap).set_iterators@[j] == old(heap).set_iterators@[j],
            final(heap).set_iterators@[self.spec_index()] matches Some(d)
                && old(heap).set_iterators@[self.spec_index()] matches Some(d0) && {
                &&& d.object_index == Some(backing)
                &&& d.set == d0.set
                &&& d.next_index == d0.next_index
                &&& d.kind == d0.kind
            },
            final(heap).arrays@ == old(heap).arrays@,
            final(heap).sets@ == old(heap).sets@,
            final(heap).alloc_counter == old(heap).alloc_counter,
    {
        let object_data = ObjectHeapData {
            extensible: true,
            prototype,
            keys: Vec::new(),
            values: Vec::new(),
            descriptors: Vec::new(),
        };
        proof {
            assert forall|h: AnyHandle| #[trigger] object_data.holds_handle(h) implies old(
                heap,
            ).valid(h) by {
                match prototype {
                    Some(p) => {
                        assert(h == AnyHandle::Object(p));
                    },
                    None => {},
                }
            }
            assert(object_data.wf());
        }
        let backing = heap.create(object_data);
        let ghost mid = *heap;
        let mut data = heap.set_iterators.take_slot(self).unwrap();
        let ghost data0 = data;
        data.object_index = Some(backing);
        heap.set_iterators.set_slot(self, data);
        proof {
            assert forall|h: AnyHandle| mid.valid(h) implies heap.valid(h) by {}
            assert forall|h: AnyHandle| heap.valid(h) implies mid.valid(h) by {
                match h {
                    AnyHandle::SetIterator(x) => {
                        if x.spec_index() != self.spec_index() && 0 <= x.spec_index() < mid.set_iterators@.len() {
                            assert(heap.set_iterators@[x.spec_index()]
                                == mid.set_iterators@[x.spec_index()]);
                        }
                    },
                    _ => {},
                }
            }
            assert forall|a: AnyHandle, b: AnyHandle| #[trigger] heap.holds(a, b) implies heap.valid(
                b,
            ) by {
                match a {
                    AnyHandle::SetIterator(x) => {
                        if x.spec_index() == self.spec_index() {
                            assert(data.holds_handle(b));
                            if (match data.object_index {
                                Some(o) => b == AnyHandle::Object(o),
                                None => false,
                            }) {
                                assert(b == AnyHandle::Object(backing));
                                assert(mid.valid(b));
                            } else {
                                assert(data0.holds_handle(b));
                                assert(mid.holds(a, b));
                            }
                        } else {
                            assert(mid.holds(a, b));
                        }
                    },
                    _ => {
                        assert(mid.holds(a, b));
                    },
                }
            }
        }
        backing
    }

    pub fn into_value(self) -> (v: Value)
        ensures
            v == Value::SetIterator(self),
    {
        Value::SetIterator(self)
    }

    pub fn into_object(self) -> (o: Object)
        ensures
            o == Object::SetIterator(self),
    {
        Object::SetIterator(self)
    }

    /// The set-iterator handle an object reference carries, if it carries
    /// one.
    pub fn try_from_object(value: Object) -> (r: Result<SetIterator, ()>)
        ensures
            match value {
                Object::SetIterator(s) => r == Result::<SetIterator, ()>::Ok(s),
                _ => r is Err,
            },
    {
        match value {
            Object::SetIterator(data) => Ok(data),
            _ => Err(()),
        }
    }

    /// The set-iterator handle a value carries, if it carries one.
    pub fn try_from(value: Value) -> (r: Result<SetIterator, ()>)
        ensures
            match value {
                Value::SetIterator(s) => r == Result::<SetIterator, ()>::Ok(s),
                _ => r is Err,
            },
    {
        match value {
            Value::SetIterator(data) => Ok(data),
            _ => Err(()),
        }
    }
}

impl From<SetIterator> for Object {
    fn from(value: SetIterator) -> (r: Self) {
        Object::SetIterator(value)
    }
}

impl vstd::std_specs::convert::FromSpecImpl<SetIterator> for Object {
    open spec fn obeys_from_spec() -> bool {
        true
    }

    open spec fn from_spec(value: SetIterator) -> Self {
        Object::SetIterator(value)
    }
}

impl From<SetIterator> for Value {
    fn from(value: SetIterator) -> (r: Self) {
        Value::SetIterator(value)
    }
}

impl vstd::std_specs::convert::FromSpecImpl<SetIterator> for Value {
    open spec fn obeys_from_spec() -> bool {
        true
    }

    open spec fn from_spec(value: SetIterator) -> Self {
        Value::SetIterator(value)
    }
}

} // verus!
