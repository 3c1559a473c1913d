//! Heap-resident payloads: one data kind per arena. Each implements the
//! mark/sweep-adjust protocol over exactly its handle-typed fields.

use vstd::prelude::*;

use crate::handles::{AnyHandle, OrdinaryObject};
use crate::mark_sweep::{
    descriptor_entry_alive, CompactionLists, CompactionsView, HeapMarkAndSweep, WorkQueues,
};
use crate::value::{
    descriptor_entry_holds, value_handle, value_holds, ElementDescriptor, PropertyKey, Value,
};

verus! {

/// An ordinary object's payload: two positionally paired arrays (`keys[i]`
/// belongs to `values[i]`), a parallel attribute table holding an entry only
/// for properties that deviate from the default, an optional prototype, and
/// the extensibility flag.
#[derive(Debug)]
pub struct ObjectHeapData {
    pub extensible: bool,
    pub prototype: Option<OrdinaryObject>,
    pub keys: Vec<PropertyKey>,
    pub values: Vec<Value>,
    pub descriptors: Vec<Option<ElementDescriptor>>,
}

impl ObjectHeapData {
    /// The structural invariant: the key, value, and attribute arrays pair
    /// positionally, and no key occurs twice.
    pub open spec fn wf(self) -> bool {
        &&& self.values@.len() == self.keys@.len()
        &&& self.descriptors@.len() == self.keys@.len()
        &&& forall|i: int, j: int|
            0 <= i < j < self.keys@.len() ==> self.keys@[i] != self.keys@[j]
    }
}

impl HeapMarkAndSweep for ObjectHeapData {
    open spec fn holds_handle(&self, h: AnyHandle) -> bool {
        ||| match self.prototype {
            Some(p) => h == AnyHandle::Object(p),
            None => false,
        }
        ||| exists|i: int| 0 <= i < self.values@.len() && value_holds(#[trigger] self.values@[i], h)
        ||| exists|i: int|
            0 <= i < self.descriptors@.len() && descriptor_entry_holds(
                #[trigger] self.descriptors@[i],
                h,
            )
    }

    open spec fn swept(&self, post: &Self, compactions: CompactionsView) -> bool {
        &&& post.extensible == self.extensible
        &&& post.prototype == compactions.remap_opt_object(self.prototype)
        &&& post.keys@ == self.keys@
        &&& post.values@.len() == self.values@.len()
        &&& forall|i: int|
            0 <= i < self.values@.len() ==> post.values@[i] == compactions.remap_value(
                #[trigger] self.values@[i],
            )
        &&& post.descriptors@.len() == self.descriptors@.len()
        &&& forall|i: int|
            0 <= i < self.descriptors@.len() ==> post.descriptors@[i]
                == remap_descriptor_entry(compactions, #[trigger] self.descriptors@[i])
    }

    fn mark_values(&self, queues: &mut WorkQueues) {
        if let Some(p) = self.prototype {
            queues.push(AnyHandle::Object(p));
        }
        let n = self.values.len();
        let mut i: usize = 0;
        while i < n
            invariant
                n == self.values@.len(),
                i <= n,
                forall|x: AnyHandle|
                    queues.contains(x) == {
                        ||| old(queues).contains(x)
                        ||| match self.prototype {
                            Some(p) => x == AnyHandle::Object(p),
                            None => false,
                        }
                        ||| exists|j: int|
                            0 <= j < i && value_holds(#[trigger] self.values@[j], x)
                    },
            decreases n - i,
        {
            queues.push_value(self.values[i]);
            i += 1;
        }
        let m = self.descriptors.len();
        let mut k: usize = 0;
        while k < m
            invariant
                m == self.descriptors@.len(),
                k <= m,
                forall|x: AnyHandle|
                    queues.contains(x) == {
                        ||| old(queues).contains(x)
                        ||| match self.prototype {
                            Some(p) => x == AnyHandle::Object(p),
                            None => false,
                        }
                        ||| exists|j: int|
                            0 <= j < self.values@.len() && value_holds(
                                #[trigger] self.values@[j],
                                x,
                            )
                        ||| exists|j: int|
                            0 <= j < k && descriptor_entry_holds(
                                #[trigger] self.descriptors@[j],
                                x,
                            )
                    },
            decreases m - k,
        {
            match self.descriptors[k] {
                Some(ElementDescriptor::Accessor { getter, setter, .. }) => {
                    if let Some(g) = getter {
                        queues.push_value(g);
                    }
                    if let Some(s) = setter {
                        queues.push_value(s);
                    }
                },
                _ => (),
            }
            k += 1;
        }
    }

    fn sweep_values(&mut self, compactions: &CompactionLists)
    {
        if let Some(p) = self.prototype {
            proof {
                assert(old(self).holds_handle(AnyHandle::Object(p)));
            }
            self.prototype = Some(OrdinaryObject(compactions.objects.shift_index(p.0)));
        }
        let n = self.values.len();
        let mut i: usize = 0;
        while i < n
            invariant
                n == old(self).values@.len(),
                i <= n,
                self.extensible == old(self).extensible,
                self.prototype == compactions@.remap_opt_object(old(self).prototype),
                self.keys@ == old(self).keys@,
                self.descriptors@ == old(self).descriptors@,
                self.values@.len() == n,
                forall|h: AnyHandle| old(self).holds_handle(h) ==> compactions@.alive(h),
                forall|j: int|
                    i <= j < n ==> self.values@[j] == old(self).values@[j],
                forall|j: int|
                    0 <= j < i ==> self.values@[j] == compactions@.remap_value(
                        #[trigger] old(self).values@[j],
                    ),
            decreases n - i,
        {
            let v = self.values[i];
            proof {
                if value_handle(v) is Some {
                    let h = value_handle(v)->0;
                    assert(value_holds(old(self).values@[i as int], h));
                    assert(old(self).holds_handle(h));
                }
            }
            self.values[i] = compactions.remap_value(v);
            i += 1;
        }
        let m = self.descriptors.len();
        let mut k: usize = 0;
        while k < m
            invariant
                m == old(self).descriptors@.len(),
                k <= m,
                self.extensible == old(self).extensible,
                self.prototype == compactions@.remap_opt_object(old(self).prototype),
                self.keys@ == old(self).keys@,
                self.values@.len() == old(self).values@.len(),
                forall|j: int|
                    0 <= j < self.values@.len() ==> self.values@[j] == compactions@.remap_value(
                        #[trigger] old(self).values@[j],
                    ),
                self.descriptors@.len() == m,
                forall|h: AnyHandle| old(self).holds_handle(h) ==> compactions@.alive(h),
                forall|j: int|
                    k <= j < m ==> self.descriptors@[j] == old(self).descriptors@[j],
                forall|j: int|
                    0 <= j < k ==> self.descriptors@[j] == remap_descriptor_entry(
                        compactions@,
                        #[trigger] old(self).descriptors@[j],
                    ),
            decreases m - k,
        {
            let entry = self.descriptors[k];
            proof {
                lemma_descriptor_entry_alive(*old(self), compactions@, k as int);
            }
            self.descriptors[k] = remap_descriptor_entry_exec(compactions, entry);
            k += 1;
        }
    }
}

/// An array's payload: dense, contiguous element storage plus an optional
/// backing object for its non-index properties.
#[derive(Debug)]
pub struct ArrayHeapData {
    pub object_index: Option<OrdinaryObject>,
    pub elements: Vec<Value>,
}

impl HeapMarkAndSweep for ArrayHeapData {
    open spec fn holds_handle(&self, h: AnyHandle) -> bool {
        ||| match self.object_index {
            Some(o) => h == AnyHandle::Object(o),
            None => false,
        }
        ||| exists|i: int|
            0 <= i < self.elements@.len() && value_holds(#[trigger] self.elements@[i], h)
    }

    open spec fn swept(&self, post: &Self, compactions: CompactionsView) -> bool {
        &&& post.object_index == compactions.remap_opt_object(self.object_index)
        &&& post.elements@.len() == self.elements@.len()
        &&& forall|i: int|
            0 <= i < self.elements@.len() ==> post.elements@[i] == compactions.remap_value(
                #[trigger] self.elements@[i],
            )
    }

    fn mark_values(&self, queues: &mut WorkQueues) {
        if let Some(o) = self.object_index {
            queues.push(AnyHandle::Object(o));
        }
        let n = self.elements.len();
        let mut i: usize = 0;
        while i < n
            invariant
                n == self.elements@.len(),
                i <= n,
                forall|x: AnyHandle|
                    queues.contains(x) == {
                        ||| old(queues).contains(x)
                        ||| match self.object_index {
                            Some(o) => x == AnyHandle::Object(o),
                            None => false,
                        }
                        ||| exists|j: int|
                            0 <= j < i && value_holds(#[trigger] self.elements@[j], x)
                    },
            decreases n - i,
        {
            queues.push_value(self.elements[i]);
            i += 1;
        }
    }

    fn sweep_values(&mut self, compactions: &CompactionLists) {
        if let Some(o) = self.object_index {
            proof {
                assert(old(self).holds_handle(AnyHandle::Object(o)));
            }
            self.object_index = Some(OrdinaryObject(compactions.objects.shift_index(o.0)));
        }
        let n = self.elements.len();
        let mut i: usize = 0;
        while i < n
            invariant
                n == old(self).elements@.len(),
                i <= n,
                self.object_index == compactions@.remap_opt_object(old(self).object_index),
                self.elements@.len() == n,
                forall|h: AnyHandle| old(self).holds_handle(h) ==> compactions@.alive(h),
                forall|j: int| i <= j < n ==> self.elements@[j] == old(self).elements@[j],
                forall|j: int|
                    0 <= j < i ==> self.elements@[j] == compactions@.remap_value(
                        #[trigger] old(self).elements@[j],
                    ),
            decreases n - i,
        {
            let v = self.elements[i];
            proof {
                if value_handle(v) is Some {
                    let h = value_handle(v)->0;
                    assert(value_holds(old(self).elements@[i as int], h));
                    assert(old(self).holds_handle(h));
                }
            }
            self.elements[i] = compactions.remap_value(v);
            i += 1;
        }
    }
}

/// A set's payload: its entry storage plus an optional backing object.
#[derive(Debug)]
pub struct SetHeapData {
    pub object_index: Option<OrdinaryObject>,
    pub values: Vec<Value>,
}

impl HeapMarkAndSweep for SetHeapData {
    open spec fn holds_handle(&self, h: AnyHandle) -> bool {
        ||| match self.object_index {
            Some(o) => h == AnyHandle::Object(o),
            None => false,
        }
        ||| exists|i: int|
            0 <= i < self.values@.len() && value_holds(#[trigger] self.values@[i], h)
    }

    open spec fn swept(&self, post: &Self, compactions: CompactionsView) -> bool {
        &&& post.object_index == compactions.remap_opt_object(self.object_index)
        &&& post.values@.len() == self.values@.len()
        &&& forall|i: int|
            0 <= i < self.values@.len() ==> post.values@[i] == compactions.remap_value(
                #[trigger] self.values@[i],
            )
    }

    fn mark_values(&self, queues: &mut WorkQueues) {
        if let Some(o) = self.object_index {
            queues.push(AnyHandle::Object(o));
        }
        let n = self.values.len();
        let mut i: usize = 0;
        while i < n
            invariant
                n == self.values@.len(),
                i <= n,
                forall|x: AnyHandle|
                    queues.contains(x) == {
                        ||| old(queues).contains(x)
                        ||| match self.object_index {
                            Some(o) => x == AnyHandle::Object(o),
                            None => false,
                        }
                        ||| exists|j: int|
                            0 <= j < i && value_holds(#[trigger] self.values@[j], x)
                    },
            decreases n - i,
        {
            queues.push_value(self.values[i]);
            i += 1;
        }
    }

    fn sweep_values(&mut self, compactions: &CompactionLists) {
        if let Some(o) = self.object_index {
            proof {
                assert(old(self).holds_handle(AnyHandle::Object(o)));
            }
            self.object_index = Some(OrdinaryObject(compactions.objects.shift_index(o.0)));
        }
        let n = self.values.len();
        let mut i: usize = 0;
        while i < n
            invariant
                n == old(self).values@.len(),
                i <= n,
                self.object_index == compactions@.remap_opt_object(old(self).object_index),
                self.values@.len() == n,
                forall|h: AnyHandle| old(self).holds_handle(h) ==> compactions@.alive(h),
                forall|j: int| i <= j < n ==> self.values@[j] == old(self).values@[j],
                forall|j: int|
                    0 <= j < i ==> self.values@[j] == compactions@.remap_value(
                        #[trigger] old(self).values@[j],
                    ),
            decreases n - i,
        {
            let v = self.values[i];
            proof {
                if value_handle(v) is Some {
                    let h = value_handle(v)->0;
                    assert(value_holds(old(self).values@[i as int], h));
                    assert(old(self).holds_handle(h));
                }
            }
            self.values[i] = compactions.remap_value(v);
            i += 1;
        }
    }
}

/// Every handle an attribute-table entry of a protocol-conforming datum
/// holds is alive whenever all the datum's held handles are alive.
proof fn lemma_descriptor_entry_alive(
    pre: ObjectHeapData,
    compactions: CompactionsView,
    k: int,
)
    requires
        0 <= k < pre.descriptors@.len(),
        forall|h: AnyHandle| pre.holds_handle(h) ==> compactions.alive(h),
    ensures
        descriptor_entry_alive(compactions, pre.descriptors@[k]),
{
    match pre.descriptors@[k] {
        Some(ElementDescriptor::Accessor { getter, setter, .. }) => {
            if let Some(g) = getter {
                if value_handle(g) is Some {
                    let h = value_handle(g)->0;
                    assert(descriptor_entry_holds(pre.descriptors@[k], h));
                    assert(pre.holds_handle(h));
                }
            }
            if let Some(s) = setter {
                if value_handle(s) is Some {
                    let h = value_handle(s)->0;
                    assert(descriptor_entry_holds(pre.descriptors@[k], h));
                    assert(pre.holds_handle(h));
                }
            }
        },
        _ => (),
    }
}

/// The post-compaction form of an attribute-table entry: accessor slots
/// rewritten, attribute flags untouched.
pub open spec fn remap_descriptor_entry(
    compactions: CompactionsView,
    entry: Option<ElementDescriptor>,
) -> Option<ElementDescriptor> {
    match entry {
        Some(ElementDescriptor::Accessor { getter, setter, enumerable, configurable }) => Some(
            ElementDescriptor::Accessor {
                getter: compactions.remap_opt_value(getter),
                setter: compactions.remap_opt_value(setter),
                enumerable,
                configurable,
            },
        ),
        other => other,
    }
}

pub fn remap_descriptor_entry_exec(
    compactions: &CompactionLists,
    entry: Option<ElementDescriptor>,
) -> (r: Option<ElementDescriptor>)
    requires
        descriptor_entry_alive(compactions@, entry),
    ensures
        r == remap_descriptor_entry(compactions@, entry),
{
    match entry {
        Some(ElementDescriptor::Accessor { getter, setter, enumerable, configurable }) => {
            let g = match getter {
                Some(x) => Some(compactions.remap_value(x)),
                None => None,
            };
            let s = match setter {
                Some(x) => Some(compactions.remap_value(x)),
                None => None,
            };
            Some(ElementDescriptor::Accessor { getter: g, setter: s, enumerable, configurable })
        },
        other => other,
    }
}

} // verus!
