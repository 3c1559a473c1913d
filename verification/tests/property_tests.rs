use nova_heap::heap::{CreateHeapData, Heap};
use nova_heap::heap_data::{ArrayHeapData, ObjectHeapData};
use nova_heap::property_storage::PropertyStorage;
use nova_heap::value::{
    descriptor_value, ElementDescriptor, Object, PropertyDescriptor, PropertyKey, Value,
    LENGTH_KEY,
};

fn empty_object(heap: &mut Heap) -> nova_heap::handles::OrdinaryObject {
    heap.create(ObjectHeapData {
        extensible: true,
        prototype: None,
        keys: Vec::new(),
        values: Vec::new(),
        descriptors: Vec::new(),
    })
}

fn data_descriptor(value: Value) -> PropertyDescriptor {
    PropertyDescriptor::Data { value, writable: true, enumerable: true, configurable: true }
}

const KEY_A: PropertyKey = PropertyKey::Interned(1);
const KEY_B: PropertyKey = PropertyKey::Interned(2);
const KEY_X: PropertyKey = PropertyKey::Interned(3);

#[test]
fn set_then_get_returns_descriptor() {
    let mut heap = Heap::new();
    let o = empty_object(&mut heap);
    let storage = PropertyStorage::new(Object::Object(o));
    let d = data_descriptor(Value::Integer(7));
    storage.set(&mut heap, KEY_A, d);
    assert_eq!(storage.get(&heap, KEY_A), Some(d));
    assert!(storage.has(&heap, KEY_A));
    assert_eq!(storage.get(&heap, KEY_B), None);
    assert!(!storage.has(&heap, KEY_B));
}

#[test]
fn overwrite_keeps_position_and_value() {
    // set("a",1), set("b",2), set("a",3): enumeration order stays [a, b]
    // and get("a") yields 3.
    let mut heap = Heap::new();
    let o = empty_object(&mut heap);
    let storage = PropertyStorage::new(Object::Object(o));
    storage.set(&mut heap, KEY_A, data_descriptor(Value::Integer(1)));
    storage.set(&mut heap, KEY_B, data_descriptor(Value::Integer(2)));
    storage.set(&mut heap, KEY_A, data_descriptor(Value::Integer(3)));
    let entries = storage.entries(&heap);
    assert_eq!(entries.pairs.len(), 2);
    assert_eq!(entries.pairs[0].0, KEY_A);
    assert_eq!(entries.pairs[1].0, KEY_B);
    assert_eq!(entries.pairs[0].1, data_descriptor(Value::Integer(3)));
    assert_eq!(entries.pairs[1].1, data_descriptor(Value::Integer(2)));
    assert_eq!(storage.get(&heap, KEY_A), Some(data_descriptor(Value::Integer(3))));
}

#[test]
fn remove_then_has_is_false() {
    let mut heap = Heap::new();
    let o = empty_object(&mut heap);
    let storage = PropertyStorage::new(Object::Object(o));
    storage.set(&mut heap, KEY_A, data_descriptor(Value::Integer(1)));
    storage.set(&mut heap, KEY_B, data_descriptor(Value::Integer(2)));
    storage.remove(&mut heap, KEY_A);
    assert!(!storage.has(&heap, KEY_A));
    assert!(storage.has(&heap, KEY_B));
    assert_eq!(storage.get(&heap, KEY_A), None);
}

#[test]
fn remove_absent_key_is_noop() {
    let mut heap = Heap::new();
    let o = empty_object(&mut heap);
    let storage = PropertyStorage::new(Object::Object(o));
    storage.set(&mut heap, KEY_A, data_descriptor(Value::Integer(1)));
    let before_counter = heap.alloc_counter;
    storage.remove(&mut heap, KEY_X);
    let data = heap.objects.get(o).unwrap();
    assert_eq!(data.keys.len(), 1);
    assert_eq!(data.values.len(), 1);
    assert_eq!(heap.alloc_counter, before_counter);
    assert_eq!(storage.get(&heap, KEY_A), Some(data_descriptor(Value::Integer(1))));
}

#[test]
fn key_and_value_arrays_pair_after_every_operation() {
    let mut heap = Heap::new();
    let o = empty_object(&mut heap);
    let storage = PropertyStorage::new(Object::Object(o));
    let check = |heap: &Heap| {
        let data = heap.objects.get(o).unwrap();
        assert_eq!(data.keys.len(), data.values.len());
        assert_eq!(data.keys.len(), data.descriptors.len());
    };
    check(&heap);
    storage.set(&mut heap, KEY_A, data_descriptor(Value::Integer(1)));
    check(&heap);
    storage.set(&mut heap, KEY_B, data_descriptor(Value::Boolean(true)));
    check(&heap);
    storage.set(&mut heap, KEY_A, data_descriptor(Value::Undefined));
    check(&heap);
    storage.remove(&mut heap, KEY_A);
    check(&heap);
    storage.remove(&mut heap, KEY_A);
    check(&heap);
}

#[test]
fn remove_closes_the_gap_in_order() {
    let mut heap = Heap::new();
    let o = empty_object(&mut heap);
    let storage = PropertyStorage::new(Object::Object(o));
    storage.set(&mut heap, KEY_A, data_descriptor(Value::Integer(1)));
    storage.set(&mut heap, KEY_B, data_descriptor(Value::Integer(2)));
    storage.set(&mut heap, KEY_X, data_descriptor(Value::Integer(3)));
    storage.remove(&mut heap, KEY_A);
    let entries = storage.entries(&heap);
    assert_eq!(entries.pairs.len(), 2);
    assert_eq!(entries.pairs[0].0, KEY_B);
    assert_eq!(entries.pairs[1].0, KEY_X);
    assert_eq!(storage.get(&heap, KEY_B), Some(data_descriptor(Value::Integer(2))));
    assert_eq!(storage.get(&heap, KEY_X), Some(data_descriptor(Value::Integer(3))));
}

#[test]
fn non_default_attributes_round_trip() {
    let mut heap = Heap::new();
    let o = empty_object(&mut heap);
    let storage = PropertyStorage::new(Object::Object(o));
    let d = PropertyDescriptor::Data {
        value: Value::Integer(5),
        writable: false,
        enumerable: true,
        configurable: false,
    };
    storage.set(&mut heap, KEY_A, d);
    assert_eq!(storage.get(&heap, KEY_A), Some(d));
}

#[test]
fn accessor_descriptor_round_trips() {
    let mut heap = Heap::new();
    let target = empty_object(&mut heap);
    let o = empty_object(&mut heap);
    let storage = PropertyStorage::new(Object::Object(o));
    let d = PropertyDescriptor::Accessor {
        getter: Some(Value::Object(target)),
        setter: None,
        enumerable: true,
        configurable: true,
    };
    storage.set(&mut heap, KEY_A, d);
    assert_eq!(storage.get(&heap, KEY_A), Some(d));
}

#[test]
fn appending_a_property_grows_the_allocation_counter() {
    let mut heap = Heap::new();
    let o = empty_object(&mut heap);
    let storage = PropertyStorage::new(Object::Object(o));
    assert_eq!(heap.alloc_counter, 0);
    storage.set(&mut heap, KEY_A, data_descriptor(Value::Integer(1)));
    let grown = heap.alloc_counter;
    assert!(grown > 0);
    // overwriting in place accounts nothing further
    storage.set(&mut heap, KEY_A, data_descriptor(Value::Integer(2)));
    assert_eq!(heap.alloc_counter, grown);
}

#[test]
fn array_answers_length_and_dense_indices() {
    let mut heap = Heap::new();
    let backing = empty_object(&mut heap);
    PropertyStorage::new(Object::Object(backing)).set(
        &mut heap,
        KEY_X,
        data_descriptor(Value::Integer(9)),
    );
    let a = heap.create(ArrayHeapData {
        object_index: Some(backing),
        elements: vec![Value::Integer(10), Value::Integer(20)],
    });
    let storage = PropertyStorage::new(Object::Array(a));
    assert!(storage.has(&heap, PropertyKey::Interned(LENGTH_KEY)));
    assert!(storage.has(&heap, PropertyKey::Integer(0)));
    assert!(storage.has(&heap, PropertyKey::Integer(1)));
    assert!(!storage.has(&heap, PropertyKey::Integer(2)));
    // non-index keys fall back to the backing object
    assert!(storage.has(&heap, KEY_X));
    assert!(!storage.has(&heap, KEY_A));
}

#[test]
fn array_without_backing_object_has_no_named_properties() {
    let mut heap = Heap::new();
    let a = heap.create(ArrayHeapData { object_index: None, elements: Vec::new() });
    let storage = PropertyStorage::new(Object::Array(a));
    assert!(storage.has(&heap, PropertyKey::Interned(LENGTH_KEY)));
    assert!(!storage.has(&heap, PropertyKey::Integer(0)));
    assert!(!storage.has(&heap, KEY_A));
}

#[test]
fn descriptor_conversions_are_exact() {
    let default = data_descriptor(Value::Integer(4));
    assert_eq!(ElementDescriptor::from_property_descriptor(default), None);
    assert_eq!(descriptor_value(default), Value::Integer(4));
    let ro = PropertyDescriptor::Data {
        value: Value::Integer(4),
        writable: false,
        enumerable: false,
        configurable: true,
    };
    assert_eq!(
        ElementDescriptor::from_property_descriptor(ro),
        Some(ElementDescriptor::Data { writable: false, enumerable: false, configurable: true })
    );
    assert_eq!(
        ElementDescriptor::to_property_descriptor(
            ElementDescriptor::from_property_descriptor(ro),
            Value::Integer(4)
        ),
        ro
    );
    let acc = PropertyDescriptor::Accessor {
        getter: None,
        setter: Some(Value::Undefined),
        enumerable: true,
        configurable: false,
    };
    assert_eq!(descriptor_value(acc), Value::Undefined);
    assert_eq!(
        ElementDescriptor::to_property_descriptor(
            ElementDescriptor::from_property_descriptor(acc),
            Value::Undefined
        ),
        acc
    );
}

#[test]
fn property_storage_wraps_its_object() {
    let mut heap = Heap::new();
    let o = empty_object(&mut heap);
    let storage = PropertyStorage::new(Object::Object(o));
    assert_eq!(storage.into_object(), Object::Object(o));
    assert_eq!(storage.into_value(), Value::Object(o));
}
