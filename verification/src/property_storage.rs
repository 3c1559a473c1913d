//! Property storage: a stateless view bound to one object-like handle,
//! implementing has/get/set/remove/entries over that object's parallel
//! key/value arrays and its optional attribute table. All property mutation
//! goes through this facade; no other code path touches those arrays.

use vstd::prelude::*;

use crate::handles::{AnyHandle, OrdinaryObject};
use crate::heap::Heap;
use crate::heap_data::ObjectHeapData;
use crate::mark_sweep::HeapMarkAndSweep;
use crate::value::{
    spec_descriptor_value, value_holds, descriptor_value, ElementDescriptor, Object,
    PropertyDescriptor, PropertyKey, Value, LENGTH_KEY,
};

verus! {

/// The index of the first occurrence of a key in a key array, or `-1`.
pub open spec fn find_key(keys: Seq<PropertyKey>, key: PropertyKey) -> int
    decreases keys.len(),
{
    if keys.len() == 0 {
        -1
    } else if keys[0] == key {
        0
    } else {
        let r = find_key(keys.drop_first(), key);
        if r < 0 {
            -1
        } else {
            r + 1
        }
    }
}

pub proof fn lemma_find_key_bounds(keys: Seq<PropertyKey>, key: PropertyKey)
    ensures
        find_key(keys, key) == -1 || (0 <= find_key(keys, key) < keys.len() && keys[find_key(
            keys,
            key,
        )] == key),
        find_key(keys, key) == -1 ==> forall|i: int| 0 <= i < keys.len() ==> keys[i] != key,
    decreases keys.len(),
{
    if keys.len() > 0 && keys[0] != key {
        lemma_find_key_bounds(keys.drop_first(), key);
        assert forall|i: int| find_key(keys, key) == -1 && 0 <= i < keys.len() implies keys[i]
            != key by {
            if i > 0 {
                assert(keys.drop_first()[i - 1] != key);
            }
        }
    }
}

/// The scan finds the first match: if everything before `i` differs and
/// `keys[i]` matches, the found index is `i`.
pub proof fn lemma_find_key_first(keys: Seq<PropertyKey>, key: PropertyKey, i: int)
    requires
        0 <= i < keys.len(),
        keys[i] == key,
        forall|j: int| 0 <= j < i ==> keys[j] != key,
    ensures
        find_key(keys, key) == i,
    decreases keys.len(),
{
    if i > 0 {
        assert(keys[0] != key);
        assert forall|j: int| 0 <= j < i - 1 implies keys.drop_first()[j] != key by {
            assert(keys[j + 1] != key);
        }
        lemma_find_key_first(keys.drop_first(), key, i - 1);
    }
}

/// Nothing before the found index matches: the scan is a first-match scan.
pub proof fn lemma_find_key_is_first(keys: Seq<PropertyKey>, key: PropertyKey)
    ensures
        find_key(keys, key) >= 0 ==> forall|j: int|
            0 <= j < find_key(keys, key) ==> keys[j] != key,
    decreases keys.len(),
{
    if keys.len() > 0 && keys[0] != key {
        lemma_find_key_bounds(keys, key);
        lemma_find_key_bounds(keys.drop_first(), key);
        lemma_find_key_is_first(keys.drop_first(), key);
        if find_key(keys, key) >= 0 {
            assert forall|j: int| 0 <= j < find_key(keys, key) implies keys[j] != key by {
                if j > 0 {
                    assert(keys.drop_first()[j - 1] != key);
                }
            }
        }
    }
}

/// Appending an absent key puts it at the end of the scan order.
pub proof fn lemma_find_key_push(keys: Seq<PropertyKey>, key: PropertyKey)
    requires
        find_key(keys, key) == -1,
    ensures
        find_key(keys.push(key), key) == keys.len(),
{
    lemma_find_key_bounds(keys, key);
    lemma_find_key_first(keys.push(key), key, keys.len() as int);
}

/// Appending some other key leaves a key's scan result alone.
pub proof fn lemma_find_key_push_other(keys: Seq<PropertyKey>, added: PropertyKey, key: PropertyKey)
    requires
        key != added,
    ensures
        find_key(keys.push(added), key) == find_key(keys, key),
{
    lemma_find_key_bounds(keys, key);
    if find_key(keys, key) == -1 {
        lemma_find_key_bounds(keys.push(added), key);
        if find_key(keys.push(added), key) >= 0 {
            assert(keys.push(added)[find_key(keys.push(added), key)] == key);
        }
    } else {
        let i = find_key(keys, key);
        lemma_find_key_is_first(keys, key);
        assert forall|j: int| 0 <= j < i implies keys.push(added)[j] != key by {
            assert(keys[j] != key);
        }
        lemma_find_key_first(keys.push(added), key, i);
    }
}

/// What `get` reconstructs for a key from an object's arrays.
pub open spec fn object_get(data: ObjectHeapData, key: PropertyKey) -> Option<PropertyDescriptor> {
    let i = find_key(data.keys@, key);
    if i >= 0 {
        Some(
            ElementDescriptor::spec_to_property_descriptor(data.descriptors@[i], data.values@[i]),
        )
    } else {
        None
    }
}

/// How `set` rewrites an object's arrays: overwrite in place on a hit
/// (enumeration order unchanged), append on a miss (insertion order kept).
pub open spec fn object_set_data(
    pre: ObjectHeapData,
    key: PropertyKey,
    descriptor: PropertyDescriptor,
    post: ObjectHeapData,
) -> bool {
    let v = spec_descriptor_value(descriptor);
    let e = ElementDescriptor::spec_from_property_descriptor(descriptor);
    let i = find_key(pre.keys@, key);
    &&& post.extensible == pre.extensible
    &&& post.prototype == pre.prototype
    &&& if i >= 0 {
        &&& post.keys@ == pre.keys@
        &&& post.values@ == pre.values@.update(i, v)
        &&& post.descriptors@ == pre.descriptors@.update(i, e)
    } else {
        &&& post.keys@ == pre.keys@.push(key)
        &&& post.values@ == pre.values@.push(v)
        &&& post.descriptors@ == pre.descriptors@.push(e)
    }
}

/// How `remove` rewrites an object's arrays: close the gap on a hit,
/// preserving the relative order of the rest; a miss is a no-op.
pub open spec fn object_remove_data(
    pre: ObjectHeapData,
    key: PropertyKey,
    post: ObjectHeapData,
) -> bool {
    let i = find_key(pre.keys@, key);
    &&& post.extensible == pre.extensible
    &&& post.prototype == pre.prototype
    &&& if i >= 0 {
        &&& post.keys@ == pre.keys@.remove(i)
        &&& post.values@ == pre.values@.remove(i)
        &&& post.descriptors@ == pre.descriptors@.remove(i)
    } else {
        &&& post.keys@ == pre.keys@
        &&& post.values@ == pre.values@
        &&& post.descriptors@ == pre.descriptors@
    }
}

/// Only the one object's slot changed; every other slot of every arena is
/// untouched.
pub open spec fn heap_object_updated(pre: Heap, post: Heap, o: OrdinaryObject) -> bool {
    &&& post.objects@.len() == pre.objects@.len()
    &&& forall|j: int|
        0 <= j < pre.objects@.len() && j != o.spec_index() ==> post.objects@[j]
            == pre.objects@[j]
    &&& post.objects@[o.spec_index()] is Some
    &&& post.arrays@ == pre.arrays@
    &&& post.sets@ == pre.sets@
    &&& post.set_iterators@ == pre.set_iterators@
}

/// Every handle a descriptor carries (its value and its accessor pair) is
/// valid: what `set` demands before embedding the descriptor in the heap.
pub open spec fn descriptor_handles_valid(heap: Heap, descriptor: PropertyDescriptor) -> bool {
    forall|h: AnyHandle|
        value_holds(spec_descriptor_value(descriptor), h) || crate::value::descriptor_entry_holds(
            ElementDescriptor::spec_from_property_descriptor(descriptor),
            h,
        ) ==> heap.valid(h)
}

/// Saturating byte accounting.
pub open spec fn sat_add_spec(a: usize, b: usize) -> usize {
    if a + b <= usize::MAX {
        (a + b) as usize
    } else {
        usize::MAX
    }
}

fn sat_add(a: usize, b: usize) -> (r: usize)
    ensures
        r == sat_add_spec(a, b),
{
    if a <= usize::MAX - b {
        a + b
    } else {
        usize::MAX
    }
}

/// What one appended property adds to the allocation-byte counter: two
/// value-sized cells, plus an attribute entry when one is stored.
pub open spec fn set_append_counter(counter: usize, entry: Option<ElementDescriptor>) -> usize {
    let so = vstd::layout::size_of::<Option<Value>>() as usize;
    let base = sat_add_spec(sat_add_spec(counter, so), so);
    if entry is Some {
        sat_add_spec(base, vstd::layout::size_of::<(u32, ElementDescriptor)>() as usize)
    } else {
        base
    }
}

/// Validity of every handle is untouched by rewriting one object's slot.
proof fn lemma_updated_valid_eq(pre: Heap, post: Heap, o: OrdinaryObject)
    requires
        heap_object_updated(pre, post, o),
        pre.valid(AnyHandle::Object(o)),
    ensures
        forall|h: AnyHandle| pre.valid(h) == post.valid(h),
{
    assert forall|h: AnyHandle| pre.valid(h) == post.valid(h) by {
        match h {
            AnyHandle::Object(x) => {
                if x.spec_index() != o.spec_index() && 0 <= x.spec_index()
                    < pre.objects@.len() {
                    assert(post.objects@[x.spec_index()] == pre.objects@[x.spec_index()]);
                }
            },
            _ => {},
        }
    }
}

/// Rewriting one object's arrays as `set` does keeps the heap well-formed,
/// provided the descriptor's own handles are valid.
proof fn lemma_set_preserves_wf(
    pre: Heap,
    post: Heap,
    o: OrdinaryObject,
    key: PropertyKey,
    descriptor: PropertyDescriptor,
)
    requires
        pre.wf(),
        pre.valid(AnyHandle::Object(o)),
        descriptor_handles_valid(pre, descriptor),
        heap_object_updated(pre, post, o),
        post.alloc_counter == pre.alloc_counter || post.alloc_counter == set_append_counter(
            pre.alloc_counter,
            ElementDescriptor::spec_from_property_descriptor(descriptor),
        ),
        object_set_data(object_data(pre, o), key, descriptor, object_data(post, o)),
    ensures
        post.wf(),
{
    let d0 = object_data(pre, o);
    let d1 = object_data(post, o);
    let v = spec_descriptor_value(descriptor);
    let e = ElementDescriptor::spec_from_property_descriptor(descriptor);
    let fi = find_key(d0.keys@, key);
    lemma_find_key_bounds(d0.keys@, key);
    assert(d0.wf());
    assert(d1.wf()) by {
        if fi < 0 {
            assert forall|i: int, j: int|
                0 <= i < j < d1.keys@.len() implies d1.keys@[i] != d1.keys@[j] by {
                if j == d1.keys@.len() - 1 {
                    assert(d0.keys@[i] != key);
                } else {
                    assert(d0.keys@[i] != d0.keys@[j]);
                }
            }
        }
    }
    lemma_updated_valid_eq(pre, post, o);
    assert forall|a: AnyHandle, b: AnyHandle| #[trigger] post.holds(a, b) implies post.valid(
        b,
    ) by {
        match a {
            AnyHandle::Object(oa) => {
                if oa.spec_index() == o.spec_index() {
                    assert(d1.holds_handle(b));
                    if (match d1.prototype {
                        Some(p) => b == AnyHandle::Object(p),
                        None => false,
                    }) {
                        assert(d0.holds_handle(b));
                        assert(pre.holds(AnyHandle::Object(o), b));
                    } else if exists|i: int|
                        0 <= i < d1.values@.len() && value_holds(#[trigger] d1.values@[i], b) {
                        let i = choose|i: int|
                            0 <= i < d1.values@.len() && value_holds(
                                #[trigger] d1.values@[i],
                                b,
                            );
                        let target = if fi >= 0 {
                            fi
                        } else {
                            d0.values@.len() as int
                        };
                        if i == target {
                            assert(value_holds(v, b));
                            assert(pre.valid(b));
                        } else {
                            assert(value_holds(d0.values@[i], b));
                            assert(d0.holds_handle(b));
                            assert(pre.holds(AnyHandle::Object(o), b));
                        }
                    } else {
                        let i = choose|i: int|
                            0 <= i < d1.descriptors@.len() && crate::value::descriptor_entry_holds(
                                #[trigger] d1.descriptors@[i],
                                b,
                            );
                        let target = if fi >= 0 {
                            fi
                        } else {
                            d0.descriptors@.len() as int
                        };
                        if i == target {
                            assert(crate::value::descriptor_entry_holds(e, b));
                            assert(pre.valid(b));
                        } else {
                            assert(crate::value::descriptor_entry_holds(d0.descriptors@[i], b));
                            assert(d0.holds_handle(b));
                            assert(pre.holds(AnyHandle::Object(o), b));
                        }
                    }
                } else {
                    assert(pre.holds(a, b));
                }
            },
            _ => {
                assert(pre.holds(a, b));
            },
        }
    }
}

/// Closing the gap over one removed property keeps the heap well-formed:
/// nothing new is embedded and every kept entry already existed.
proof fn lemma_remove_preserves_wf(pre: Heap, post: Heap, o: OrdinaryObject, key: PropertyKey)
    requires
        pre.wf(),
        pre.valid(AnyHandle::Object(o)),
        post.alloc_counter == pre.alloc_counter,
        heap_object_updated(pre, post, o),
        object_remove_data(object_data(pre, o), key, object_data(post, o)),
    ensures
        post.wf(),
{
    let d0 = object_data(pre, o);
    let d1 = object_data(post, o);
    let fi = find_key(d0.keys@, key);
    lemma_find_key_bounds(d0.keys@, key);
    assert(d0.wf());
    if fi >= 0 {
        assert forall|j: int|
            0 <= j < d1.keys@.len() implies d1.keys@[j] == d0.keys@[if j < fi {
            j
        } else {
            j + 1
        }] && d1.values@[j] == d0.values@[if j < fi {
            j
        } else {
            j + 1
        }] && d1.descriptors@[j] == d0.descriptors@[if j < fi {
            j
        } else {
            j + 1
        }] by {}
    }
    assert(d1.wf());
    lemma_updated_valid_eq(pre, post, o);
    assert forall|a: AnyHandle, b: AnyHandle| #[trigger] post.holds(a, b) implies post.valid(
        b,
    ) by {
        match a {
            AnyHandle::Object(oa) => {
                if oa.spec_index() == o.spec_index() && fi >= 0 {
                    assert(d1.holds_handle(b));
                    if (match d1.prototype {
                        Some(p) => b == AnyHandle::Object(p),
                        None => false,
                    }) {
                        assert(d0.holds_handle(b));
                        assert(pre.holds(AnyHandle::Object(o), b));
                    } else if exists|i: int|
                        0 <= i < d1.values@.len() && value_holds(#[trigger] d1.values@[i], b) {
                        let i = choose|i: int|
                            0 <= i < d1.values@.len() && value_holds(
                                #[trigger] d1.values@[i],
                                b,
                            );
                        let i0 = if i < fi {
                            i
                        } else {
                            i + 1
                        };
                        assert(value_holds(d0.values@[i0], b));
                        assert(d0.holds_handle(b));
                        assert(pre.holds(AnyHandle::Object(o), b));
                    } else {
                        let i = choose|i: int|
                            0 <= i < d1.descriptors@.len() && crate::value::descriptor_entry_holds(
                                #[trigger] d1.descriptors@[i],
                                b,
                            );
                        let i0 = if i < fi {
                            i
                        } else {
                            i + 1
                        };
                        assert(crate::value::descriptor_entry_holds(d0.descriptors@[i0], b));
                        assert(d0.holds_handle(b));
                        assert(pre.holds(AnyHandle::Object(o), b));
                    }
                } else {
                    assert(pre.holds(a, b));
                }
            },
            _ => {
                assert(pre.holds(a, b));
            },
        }
    }
}

/// Scan a key array for the first occurrence of a key.
fn scan_keys(keys: &Vec<PropertyKey>, key: PropertyKey) -> (r: Option<usize>)
    ensures
        match r {
            Some(i) => find_key(keys@, key) == i,
            None => find_key(keys@, key) == -1,
        },
{
    let n = keys.len();
    let mut i: usize = 0;
    while i < n
        invariant
            n == keys@.len(),
            i <= n,
            forall|j: int| 0 <= j < i ==> keys@[j] != key,
        decreases n - i,
    {
        if keys[i] == key {
            proof {
                lemma_find_key_first(keys@, key, i as int);
            }
            return Some(i);
        }
        i += 1;
    }
    proof {
        lemma_find_key_bounds(keys@, key);
        if find_key(keys@, key) >= 0 {
            assert(keys@[find_key(keys@, key)] == key);
        }
    }
    None
}

/// After `set(k, d)` a `get(k)` on the same object returns exactly `d`:
/// the stored value and attribute entry reconstruct the descriptor.
pub proof fn lemma_set_then_get(
    pre: ObjectHeapData,
    post: ObjectHeapData,
    key: PropertyKey,
    descriptor: PropertyDescriptor,
)
    requires
        pre.wf(),
        object_set_data(pre, key, descriptor, post),
    ensures
        object_get(post, key) == Some(descriptor),
{
    let fi = find_key(pre.keys@, key);
    lemma_find_key_bounds(pre.keys@, key);
    crate::value::lemma_descriptor_round_trip(descriptor);
    if fi < 0 {
        lemma_find_key_push(pre.keys@, key);
    }
}

/// `set(k, d)` leaves what `get` answers for every other key unchanged:
/// position, value, and attributes of other properties are untouched.
pub proof fn lemma_set_preserves_others(
    pre: ObjectHeapData,
    post: ObjectHeapData,
    key: PropertyKey,
    descriptor: PropertyDescriptor,
    other: PropertyKey,
)
    requires
        pre.wf(),
        object_set_data(pre, key, descriptor, post),
        other != key,
    ensures
        object_get(post, other) == object_get(pre, other),
{
    let fi = find_key(pre.keys@, key);
    let oi = find_key(pre.keys@, other);
    lemma_find_key_bounds(pre.keys@, key);
    lemma_find_key_bounds(pre.keys@, other);
    if fi >= 0 {
        if oi >= 0 {
            assert(pre.keys@[oi] == other && pre.keys@[fi] == key);
            assert(oi != fi);
        }
    } else {
        lemma_find_key_push_other(pre.keys@, key, other);
    }
}

/// `remove(k)` followed by `has(k)` is always false: no other entry can
/// carry the removed key, since keys are unique within one object.
pub proof fn lemma_remove_then_absent(pre: ObjectHeapData, post: ObjectHeapData, key: PropertyKey)
    requires
        pre.wf(),
        object_remove_data(pre, key, post),
    ensures
        find_key(post.keys@, key) == -1,
{
    let fi = find_key(pre.keys@, key);
    lemma_find_key_bounds(pre.keys@, key);
    lemma_find_key_bounds(post.keys@, key);
    if fi >= 0 {
        if find_key(post.keys@, key) >= 0 {
            let j = find_key(post.keys@, key);
            let j0 = if j < fi {
                j
            } else {
                j + 1
            };
            assert(post.keys@[j] == pre.keys@[j0]);
            assert(pre.keys@[j0] == key && pre.keys@[fi] == key && j0 != fi);
            assert(false);
        }
    }
}

/// The key, value, and attribute arrays of every live object of a
/// well-formed heap have equal length, so positional pairing never breaks.
pub proof fn lemma_key_value_lengths(heap: Heap, o: OrdinaryObject)
    requires
        heap.wf(),
        heap.valid(AnyHandle::Object(o)),
    ensures
        object_data(heap, o).keys@.len() == object_data(heap, o).values@.len(),
        object_data(heap, o).keys@.len() == object_data(heap, o).descriptors@.len(),
{
}

/// A stateless property-access view bound to one object-like handle.
#[derive(Debug, Clone, Copy)]
pub struct PropertyStorage(Object);

/// A finite enumeration of an object's (key, descriptor) pairs, in
/// insertion order at the time of the call.
#[derive(Debug)]
pub struct Entries {
    pub pairs: Vec<(PropertyKey, PropertyDescriptor)>,
}

impl Entries {
    pub fn new(pairs: Vec<(PropertyKey, PropertyDescriptor)>) -> (e: Self)
        ensures
            e.pairs == pairs,
    {
        Self { pairs }
    }
}

impl PropertyStorage {
    /// The handle this view is bound to.
    pub closed spec fn spec_object(self) -> Object {
        self.0
    }

    pub fn new(object: Object) -> (s: Self)
        ensures
            s.spec_object() == object,
    {
        Self(object)
    }

    pub fn into_object(self) -> (o: Object)
        ensures
            o == self.spec_object(),
    {
        self.0
    }

    pub fn into_value(self) -> (v: Value)
        ensures
            v == self.spec_object().spec_into_value(),
    {
        self.0.into_value()
    }

    /// Whether the bound handle is valid on this heap.
    pub open spec fn bound_valid(self, heap: Heap) -> bool {
        match self.spec_object() {
            Object::Object(o) => heap.valid(AnyHandle::Object(o)),
            Object::Array(a) => heap.valid(AnyHandle::Array(a)),
            Object::JsSet(s) => heap.valid(AnyHandle::JsSet(s)),
            Object::SetIterator(s) => heap.valid(AnyHandle::SetIterator(s)),
        }
    }
}

/// What `has` answers, per representation: ordinary objects scan their key
/// array; arrays answer the synthetic `length` key, cover integer keys by
/// their dense element storage, and fall back to their backing object.
pub open spec fn spec_has(heap: Heap, obj: Object, key: PropertyKey) -> bool {
    match obj {
        Object::Object(o) => find_key(object_data(heap, o).keys@, key) >= 0,
        Object::Array(a) => {
            let data = heap.arrays@[a.spec_index()]->0;
            if key == PropertyKey::Interned(LENGTH_KEY) {
                true
            } else {
                match key {
                    PropertyKey::Integer(i) => i < data.elements@.len(),
                    _ => match data.object_index {
                        Some(o) => find_key(object_data(heap, o).keys@, key) >= 0,
                        None => false,
                    },
                }
            }
        },
        _ => false,
    }
}

/// The payload of a valid object handle.
pub open spec fn object_data(heap: Heap, o: OrdinaryObject) -> ObjectHeapData {
    heap.objects@[o.spec_index()]->0
}

/// What `get` answers for an ordinary object.
pub open spec fn spec_get(heap: Heap, o: OrdinaryObject, key: PropertyKey) -> Option<
    PropertyDescriptor,
> {
    object_get(object_data(heap, o), key)
}

impl PropertyStorage {
    pub fn has(self, heap: &Heap, key: PropertyKey) -> (r: bool)
        requires
            heap.wf(),
            self.bound_valid(*heap),
            self.spec_object() is Object || self.spec_object() is Array,
        ensures
            r == spec_has(*heap, self.spec_object(), key),
    {
        let object = self.into_value();
        match object {
            Value::Object(o) => {
                let data = heap.objects.get(o).unwrap();
                scan_keys(&data.keys, key).is_some()
            },
            Value::Array(array) => {
                if key == PropertyKey::Interned(LENGTH_KEY) {
                    return true;
                }
                let data = heap.arrays.get(array).unwrap();
                if key.is_integer() {
                    let idx = match key {
                        PropertyKey::Integer(i) => i,
                        _ => 0,
                    };
                    return (idx as usize) < data.elements.len();
                }
                match data.object_index {
                    Some(o) => {
                        proof {
                            assert(heap.holds(AnyHandle::Array(array), AnyHandle::Object(o)));
                        }
                        let object_data = heap.objects.get(o).unwrap();
                        scan_keys(&object_data.keys, key).is_some()
                    },
                    None => false,
                }
            },
            _ => {
                proof {
                    assert(false);
                }
                false
            },
        }
    }

    pub fn get(self, heap: &Heap, key: PropertyKey) -> (r: Option<PropertyDescriptor>)
        requires
            heap.wf(),
            self.bound_valid(*heap),
            self.spec_object() is Object,
        ensures
            self.spec_object() matches Object::Object(o) ==> r == spec_get(*heap, o, key),
    {
        match self.into_object() {
            Object::Object(o) => {
                let data = heap.objects.get(o).unwrap();
                match scan_keys(&data.keys, key) {
                    Some(index) => {
                        proof {
                            lemma_find_key_bounds(data.keys@, key);
                        }
                        let value = data.values[index];
                        let entry = data.descriptors[index];
                        Some(ElementDescriptor::to_property_descriptor(entry, value))
                    },
                    None => None,
                }
            },
            _ => {
                proof {
                    assert(false);
                }
                None
            },
        }
    }

    pub fn set(self, heap: &mut Heap, property_key: PropertyKey, descriptor: PropertyDescriptor)
        requires
            old(heap).wf(),
            self.bound_valid(*old(heap)),
            self.spec_object() is Object,
            descriptor_handles_valid(*old(heap), descriptor),
        ensures
            final(heap).wf(),
            self.spec_object() matches Object::Object(o) ==> {
                &&& heap_object_updated(*old(heap), *final(heap), o)
                &&& object_set_data(
                    object_data(*old(heap), o),
                    property_key,
                    descriptor,
                    object_data(*final(heap), o),
                )
                &&& find_key(object_data(*old(heap), o).keys@, property_key) >= 0 ==> final(heap).alloc_counter == old(heap).alloc_counter
                &&& find_key(object_data(*old(heap), o).keys@, property_key) < 0 ==> final(heap).alloc_counter == set_append_counter(
                    old(heap).alloc_counter,
                    ElementDescriptor::spec_from_property_descriptor(descriptor),
                )
            },
    {
        match self.into_object() {
            Object::Object(o) => {
                let ghost pre = *heap;
                let value = descriptor_value(descriptor);
                let element_descriptor = ElementDescriptor::from_property_descriptor(descriptor);
                let mut data = heap.objects.take_slot(o).unwrap();
                let ghost data0 = data;
                match scan_keys(&data.keys, property_key) {
                    Some(index) => {
                        proof {
                            lemma_find_key_bounds(data.keys@, property_key);
                        }
                        data.keys[index] = property_key;
                        data.values[index] = value;
                        data.descriptors[index] = element_descriptor;
                        proof {
                            assert(data.keys@ =~= data0.keys@);
                        }
                    },
                    None => {
                        data.keys.push(property_key);
                        data.values.push(value);
                        data.descriptors.push(element_descriptor);
                        let so = core::mem::size_of::<Option<Value>>();
                        heap.alloc_counter = sat_add(heap.alloc_counter, so);
                        heap.alloc_counter = sat_add(heap.alloc_counter, so);
                        if element_descriptor.is_some() {
                            let sd = core::mem::size_of::<(u32, ElementDescriptor)>();
                            heap.alloc_counter = sat_add(heap.alloc_counter, sd);
                        }
                    },
                }
                heap.objects.set_slot(o, data);
                proof {
                    lemma_set_preserves_wf(pre, *heap, o, property_key, descriptor);
                }
            },
            _ => {
                proof {
                    assert(false);
                }
            },
        }
    }

    pub fn remove(self, heap: &mut Heap, property_key: PropertyKey)
        requires
            old(heap).wf(),
            self.bound_valid(*old(heap)),
            self.spec_object() is Object,
        ensures
            final(heap).wf(),
            final(heap).alloc_counter == old(heap).alloc_counter,
            self.spec_object() matches Object::Object(o) ==> {
                &&& heap_object_updated(*old(heap), *final(heap), o)
                &&& object_remove_data(
                    object_data(*old(heap), o),
                    property_key,
                    object_data(*final(heap), o),
                )
                &&& find_key(object_data(*old(heap), o).keys@, property_key) < 0 ==> *final(heap)
                    == *old(heap)
            },
    {
        match self.into_object() {
            Object::Object(o) => {
                let ghost pre = *heap;
                let found = {
                    let data = heap.objects.get(o).unwrap();
                    scan_keys(&data.keys, property_key)
                };
                match found {
                    Some(index) => {
                        let mut data = heap.objects.take_slot(o).unwrap();
                        proof {
                            lemma_find_key_bounds(data.keys@, property_key);
                        }
                        data.keys.remove(index);
                        data.values.remove(index);
                        data.descriptors.remove(index);
                        heap.objects.set_slot(o, data);
                        proof {
                            lemma_remove_preserves_wf(pre, *heap, o, property_key);
                        }
                    },
                    None => {},
                }
            },
            _ => {
                proof {
                    assert(false);
                }
            },
        }
    }

    pub fn entries(self, heap: &Heap) -> (e: Entries)
        requires
            heap.wf(),
            self.bound_valid(*heap),
            self.spec_object() is Object,
        ensures
            self.spec_object() matches Object::Object(o) ==> {
                let data = object_data(*heap, o);
                &&& e.pairs@.len() == data.keys@.len()
                &&& forall|i: int|
                    0 <= i < data.keys@.len() ==> e.pairs@[i] == (
                        data.keys@[i],
                        ElementDescriptor::spec_to_property_descriptor(
                            data.descriptors@[i],
                            data.values@[i],
                        ),
                    )
            },
    {
        match self.into_object() {
            Object::Object(o) => {
                let data = heap.objects.get(o).unwrap();
                let n = data.keys.len();
                let mut pairs: Vec<(PropertyKey, PropertyDescriptor)> = Vec::new();
                let mut i: usize = 0;
                while i < n
                    invariant
                        n == data.keys@.len(),
                        data.wf(),
                        i <= n,
                        pairs@.len() == i,
                        forall|j: int|
                            0 <= j < i ==> pairs@[j] == (
                                data.keys@[j],
                                ElementDescriptor::spec_to_property_descriptor(
                                    data.descriptors@[j],
                                    data.values@[j],
                                ),
                            ),
                    decreases n - i,
                {
                    let key = data.keys[i];
                    let d = ElementDescriptor::to_property_descriptor(
                        data.descriptors[i],
                        data.values[i],
                    );
                    pairs.push((key, d));
                    i += 1;
                }
                Entries::new(pairs)
            },
            _ => {
                proof {
                    assert(false);
                }
                Entries::new(Vec::new())
            },
        }
    }
}

} // verus!
