use nova_heap::handles::{AnyHandle, OrdinaryObject};
use nova_heap::heap::{CreateHeapData, Heap};
use nova_heap::heap_data::{ObjectHeapData, SetHeapData};
use nova_heap::mark_sweep::{HeapMarkAndSweep, WorkQueues};
use nova_heap::property_storage::PropertyStorage;
use nova_heap::set_iterator::{CollectionIteratorKind, SetIteratorHeapData};
use nova_heap::value::{Object, PropertyDescriptor, PropertyKey, Value};

fn empty_object(heap: &mut Heap) -> OrdinaryObject {
    heap.create(ObjectHeapData {
        extensible: true,
        prototype: None,
        keys: Vec::new(),
        values: Vec::new(),
        descriptors: Vec::new(),
    })
}

fn data_descriptor(value: Value) -> PropertyDescriptor {
    PropertyDescriptor::Data { value, writable: true, enumerable: true, configurable: true }
}

const KEY_X: PropertyKey = PropertyKey::Interned(1);
const KEY_Y: PropertyKey = PropertyKey::Interned(2);

#[test]
fn rooted_object_and_its_reference_survive_with_content() {
    // Object A has x=1; object B has y=A; the root set is {B}. After a
    // collection both survive, A still answers x=1, and B's y addresses
    // A's (possibly relocated) slot with the same content.
    let mut heap = Heap::new();
    let dead = empty_object(&mut heap);
    let a = empty_object(&mut heap);
    let b = empty_object(&mut heap);
    let _ = dead;
    PropertyStorage::new(Object::Object(a)).set(&mut heap, KEY_X, data_descriptor(Value::Integer(1)));
    PropertyStorage::new(Object::Object(b)).set(&mut heap, KEY_Y, data_descriptor(Value::Object(a)));
    let roots = vec![AnyHandle::Object(b)];
    let compactions = heap.collect(&roots);
    // patch the handles held outside the heap
    let mut a_patched = a;
    a_patched.sweep_values(&compactions);
    let mut b_patched = b;
    b_patched.sweep_values(&compactions);
    assert_eq!(heap.objects.len(), 2);
    let a_storage = PropertyStorage::new(Object::Object(a_patched));
    assert_eq!(a_storage.get(&heap, KEY_X), Some(data_descriptor(Value::Integer(1))));
    let b_storage = PropertyStorage::new(Object::Object(b_patched));
    let y = b_storage.get(&heap, KEY_Y);
    assert_eq!(y, Some(data_descriptor(Value::Object(a_patched))));
}

#[test]
fn unrooted_objects_are_collected() {
    // Objects A, B, C with no relationships and root set {B}: only B
    // survives; A's and C's slots are removed from the arena.
    let mut heap = Heap::new();
    let a = empty_object(&mut heap);
    let b = empty_object(&mut heap);
    let c = empty_object(&mut heap);
    PropertyStorage::new(Object::Object(b)).set(&mut heap, KEY_X, data_descriptor(Value::Integer(8)));
    let roots = vec![AnyHandle::Object(b)];
    let compactions = heap.collect(&roots);
    assert_eq!(heap.objects.len(), 1);
    // the tables mark A and C removed
    assert_eq!(compactions.objects.0[a.get_index()], None);
    assert_eq!(compactions.objects.0[c.get_index()], None);
    assert!(compactions.objects.0[b.get_index()].is_some());
    let mut b_patched = b;
    b_patched.sweep_values(&compactions);
    assert_eq!(b_patched.get_index(), 0);
    let b_storage = PropertyStorage::new(Object::Object(b_patched));
    assert_eq!(b_storage.get(&heap, KEY_X), Some(data_descriptor(Value::Integer(8))));
}

#[test]
fn unrooted_cycle_is_collected() {
    let mut heap = Heap::new();
    let a = empty_object(&mut heap);
    let b = empty_object(&mut heap);
    PropertyStorage::new(Object::Object(a)).set(&mut heap, KEY_X, data_descriptor(Value::Object(b)));
    PropertyStorage::new(Object::Object(b)).set(&mut heap, KEY_X, data_descriptor(Value::Object(a)));
    let roots: Vec<AnyHandle> = Vec::new();
    heap.collect(&roots);
    assert_eq!(heap.objects.len(), 0);
}

#[test]
fn prototype_references_keep_objects_alive_and_are_patched() {
    let mut heap = Heap::new();
    let _dead = empty_object(&mut heap);
    let proto = empty_object(&mut heap);
    let o = heap.create(ObjectHeapData {
        extensible: true,
        prototype: Some(proto),
        keys: Vec::new(),
        values: Vec::new(),
        descriptors: Vec::new(),
    });
    let roots = vec![AnyHandle::Object(o)];
    let compactions = heap.collect(&roots);
    assert_eq!(heap.objects.len(), 2);
    let mut o_patched = o;
    o_patched.sweep_values(&compactions);
    let mut proto_patched = proto;
    proto_patched.sweep_values(&compactions);
    let data = heap.objects.get(o_patched).unwrap();
    assert_eq!(data.prototype, Some(proto_patched));
}

#[test]
fn duplicate_roots_mark_once_and_change_nothing() {
    // Marking the same handle through several referrers enqueues it for
    // processing at most once: tracing with a duplicated root yields the
    // same retain masks as tracing with the root once.
    let mut heap = Heap::new();
    let a = empty_object(&mut heap);
    let b = empty_object(&mut heap);
    PropertyStorage::new(Object::Object(a)).set(&mut heap, KEY_X, data_descriptor(Value::Object(b)));
    let once = heap.trace(&vec![AnyHandle::Object(a)]);
    let twice = heap.trace(&vec![AnyHandle::Object(a), AnyHandle::Object(a)]);
    assert_eq!(once.objects, twice.objects);
    assert_eq!(once.arrays, twice.arrays);
    assert_eq!(once.sets, twice.sets);
    assert_eq!(once.set_iterators, twice.set_iterators);
    assert_eq!(once.objects, vec![true, true]);
}

#[test]
fn visiting_a_seen_handle_changes_nothing() {
    let mut heap = Heap::new();
    let a = empty_object(&mut heap);
    PropertyStorage::new(Object::Object(a)).set(&mut heap, KEY_X, data_descriptor(Value::Integer(1)));
    let mut bits = nova_heap::gc::MarkBits::new_for(&heap);
    let mut queues = WorkQueues::new();
    nova_heap::gc::mark_step(&heap, AnyHandle::Object(a), &mut bits, &mut queues);
    assert_eq!(bits.objects, vec![true]);
    let queue_len_after_first = queues.objects.len();
    nova_heap::gc::mark_step(&heap, AnyHandle::Object(a), &mut bits, &mut queues);
    assert_eq!(bits.objects, vec![true]);
    assert_eq!(queues.objects.len(), queue_len_after_first);
}

#[test]
fn set_iterator_keeps_its_set_alive_through_a_cycle() {
    let mut heap = Heap::new();
    let _dead = heap.create(SetHeapData { object_index: None, values: Vec::new() });
    let set = heap.create(SetHeapData {
        object_index: None,
        values: vec![Value::Integer(1), Value::Integer(2)],
    });
    let iterator = nova_heap::handles::SetIterator::from_set(
        &mut heap,
        set,
        CollectionIteratorKind::KeyAndValue,
    );
    let roots = vec![AnyHandle::SetIterator(iterator)];
    let compactions = heap.collect(&roots);
    assert_eq!(heap.sets.len(), 1);
    assert_eq!(heap.set_iterators.len(), 1);
    let mut iterator_patched = iterator;
    iterator_patched.sweep_values(&compactions);
    let data: SetIteratorHeapData = *heap.set_iterators.get(iterator_patched).unwrap();
    let mut set_patched = set;
    set_patched.sweep_values(&compactions);
    assert_eq!(data.set, Some(set_patched));
    assert_eq!(data.next_index, 0);
    assert_eq!(data.kind, CollectionIteratorKind::KeyAndValue);
    let set_data = heap.sets.get(set_patched).unwrap();
    assert_eq!(set_data.values, vec![Value::Integer(1), Value::Integer(2)]);
}

#[test]
fn values_inside_survivors_are_rewritten_to_new_positions() {
    let mut heap = Heap::new();
    let _dead_one = empty_object(&mut heap);
    let _dead_two = empty_object(&mut heap);
    let target = empty_object(&mut heap);
    let holder = empty_object(&mut heap);
    PropertyStorage::new(Object::Object(holder)).set(
        &mut heap,
        KEY_X,
        data_descriptor(Value::Object(target)),
    );
    let compactions = heap.collect(&vec![AnyHandle::Object(holder)]);
    assert_eq!(heap.objects.len(), 2);
    let mut holder_patched = holder;
    holder_patched.sweep_values(&compactions);
    let mut target_patched = target;
    target_patched.sweep_values(&compactions);
    assert!(target_patched.get_index() < 2);
    assert!(holder_patched.get_index() < 2);
    let got = PropertyStorage::new(Object::Object(holder_patched)).get(&heap, KEY_X);
    assert_eq!(got, Some(data_descriptor(Value::Object(target_patched))));
}

#[test]
fn arrays_trace_their_elements_and_backing_object() {
    let mut heap = Heap::new();
    let _dead = empty_object(&mut heap);
    let backing = empty_object(&mut heap);
    let inside = heap.create(nova_heap::heap_data::SetHeapData {
        object_index: None,
        values: Vec::new(),
    });
    let array = heap.create(nova_heap::heap_data::ArrayHeapData {
        object_index: Some(backing),
        elements: vec![Value::JsSet(inside), Value::Integer(1)],
    });
    let compactions = heap.collect(&vec![AnyHandle::Array(array)]);
    assert_eq!(heap.objects.len(), 1);
    assert_eq!(heap.arrays.len(), 1);
    assert_eq!(heap.sets.len(), 1);
    let mut array_patched = array;
    array_patched.sweep_values(&compactions);
    let mut backing_patched = backing;
    backing_patched.sweep_values(&compactions);
    let mut inside_patched = inside;
    inside_patched.sweep_values(&compactions);
    let data = heap.arrays.get(array_patched).unwrap();
    assert_eq!(data.object_index, Some(backing_patched));
    assert_eq!(data.elements, vec![Value::JsSet(inside_patched), Value::Integer(1)]);
}

#[test]
fn collection_preserves_the_allocation_counter() {
    let mut heap = Heap::new();
    let a = empty_object(&mut heap);
    PropertyStorage::new(Object::Object(a)).set(&mut heap, KEY_X, data_descriptor(Value::Integer(1)));
    let counter = heap.alloc_counter;
    heap.collect(&vec![AnyHandle::Object(a)]);
    assert_eq!(heap.alloc_counter, counter);
}
