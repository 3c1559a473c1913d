use nova_heap::conversion_traits::{HeapFrom, HeapInto, TryHeapFrom, TryHeapInto};
use nova_heap::gc::build_compaction_list;
use nova_heap::handles::{AnyHandle, JsSet, OrdinaryObject, PrivateEnvironment, SetIterator};
use nova_heap::heap::{CreateHeapData, Heap};
use nova_heap::heap_data::ObjectHeapData;
use nova_heap::mark_sweep::{CompactionList, CompactionLists, HeapMarkAndSweep, WorkQueues};
use nova_heap::private_environment::{new_private_environment, PrivateName};
use nova_heap::set_iterator::{CollectionIteratorKind, SetIteratorHeapData};
use nova_heap::subspace::{IsoSubspace, SubspaceKey, SubspaceStorage};
use nova_heap::value::Value;

#[test]
fn handles_report_their_raw_index() {
    assert_eq!(OrdinaryObject(5).get_index(), 5);
    assert_eq!(JsSet(7).get_index(), 7);
    assert_eq!(SetIterator(9).get_index(), 9);
    assert_eq!(SetIterator::_def().get_index(), 0);
    assert_eq!(<OrdinaryObject as SubspaceKey>::from_raw_index(3).get_index(), 3);
    assert!(OrdinaryObject(1) < OrdinaryObject(2));
}

#[test]
fn subspace_allocate_get_len_size() {
    let mut arena: IsoSubspace<SetIterator> = IsoSubspace::with_capacity(4);
    assert_eq!(arena.len(), 0);
    assert!(arena.is_empty());
    assert_eq!(arena.size(), 0);
    let data = SetIteratorHeapData::default();
    let key = arena.allocate(data);
    assert_eq!(key.get_index(), 0);
    assert_eq!(arena.len(), 1);
    assert!(!arena.is_empty());
    assert_eq!(arena.size(), core::mem::size_of::<SetIteratorHeapData>());
    let stored = arena.get(key).unwrap();
    assert_eq!(stored.next_index, 0);
    assert!(stored.set.is_none());
}

#[test]
fn subspace_sweep_compacts_in_order() {
    let mut arena: IsoSubspace<SetIterator> = IsoSubspace::with_capacity(0);
    for cursor in 0..4usize {
        let mut data = SetIteratorHeapData::default();
        data.next_index = cursor;
        arena.allocate(data);
    }
    let bits = vec![true, false, true, false];
    let compactions = CompactionLists {
        objects: build_compaction_list(&Vec::new()),
        arrays: build_compaction_list(&Vec::new()),
        sets: build_compaction_list(&Vec::new()),
        set_iterators: build_compaction_list(&bits),
    };
    arena.sweep(&compactions, &bits);
    assert_eq!(arena.len(), 2);
    assert_eq!(arena.get(SetIterator(0)).unwrap().next_index, 0);
    assert_eq!(arena.get(SetIterator(1)).unwrap().next_index, 2);
}

#[test]
fn compaction_list_assigns_ascending_ranks() {
    let bits = vec![false, true, true, false, true];
    let table = build_compaction_list(&bits);
    assert_eq!(table.0, vec![None, Some(0), Some(1), None, Some(2)]);
    assert_eq!(table.shift_index(2), 1);
}

#[test]
fn work_queues_push_and_pop_every_kind() {
    let mut queues = WorkQueues::new();
    assert!(queues.is_empty());
    assert_eq!(queues.pop(), None);
    queues.push(AnyHandle::Object(OrdinaryObject(1)));
    queues.push_value(Value::JsSet(JsSet(2)));
    queues.push_value(Value::Integer(3));
    assert!(!queues.is_empty());
    let first = queues.pop().unwrap();
    let second = queues.pop().unwrap();
    assert!(queues.pop().is_none());
    let mut popped = vec![first, second];
    popped.sort();
    assert_eq!(popped, vec![AnyHandle::Object(OrdinaryObject(1)), AnyHandle::JsSet(JsSet(2))]);
}

#[test]
fn handle_sweep_adjust_rewrites_through_the_table() {
    let compactions = CompactionLists {
        objects: CompactionList(vec![None, Some(0), Some(1)]),
        arrays: CompactionList(Vec::new()),
        sets: CompactionList(Vec::new()),
        set_iterators: CompactionList(Vec::new()),
    };
    let mut handle = OrdinaryObject(2);
    handle.sweep_values(&compactions);
    assert_eq!(handle, OrdinaryObject(1));
    let mut queues = WorkQueues::new();
    OrdinaryObject(2).mark_values(&mut queues);
    assert_eq!(queues.objects, vec![OrdinaryObject(2)]);
}

#[test]
fn private_environment_records_nest() {
    let outer = new_private_environment(None);
    assert!(outer.outer_private_environment.is_none());
    let inner = new_private_environment(Some(PrivateEnvironment(4)));
    assert_eq!(inner.outer_private_environment, Some(PrivateEnvironment(4)));
    assert_eq!(inner.names.len(), 0);
    let name = PrivateName::Field(Some(Value::Integer(1)));
    assert_eq!(name.description(), "identifier");
    assert_eq!(PrivateName::Accessor(None, None).description(), "identifier");
}

#[test]
fn heap_conversions_thread_the_heap() {
    let mut heap = Heap::new();
    let iterator = SetIterator(3);
    let as_value = Value::heap_from(&mut heap, iterator);
    assert_eq!(as_value, Value::SetIterator(iterator));
    let round: Value = SetIterator::heap_into(&mut heap, iterator);
    assert_eq!(round, Value::SetIterator(iterator));
    let back = SetIterator::try_heap_from(&mut heap, as_value);
    assert_eq!(back, Ok(iterator));
    let err: Result<SetIterator, ()> = Value::try_heap_into(&mut heap, Value::Undefined);
    assert_eq!(err, Err(()));
    assert_eq!(SetIterator::try_from(Value::Boolean(true)), Err(()));
    assert_eq!(iterator.into_value(), Value::SetIterator(iterator));
}

#[test]
fn set_iterator_converts_to_object_and_value() {
    let iterator = SetIterator(6);
    assert_eq!(
        nova_heap::value::Object::from(iterator),
        nova_heap::value::Object::SetIterator(iterator)
    );
    assert_eq!(Value::from(iterator), Value::SetIterator(iterator));
    assert_eq!(iterator.into_object(), nova_heap::value::Object::SetIterator(iterator));
    assert_eq!(
        SetIterator::try_from_object(nova_heap::value::Object::SetIterator(iterator)),
        Ok(iterator)
    );
    assert_eq!(
        SetIterator::try_from_object(nova_heap::value::Object::Object(OrdinaryObject(0))),
        Err(())
    );
}

#[test]
fn any_handle_participates_in_the_protocol() {
    let compactions = CompactionLists {
        objects: CompactionList(vec![Some(0)]),
        arrays: CompactionList(Vec::new()),
        sets: CompactionList(vec![None, Some(0)]),
        set_iterators: CompactionList(Vec::new()),
    };
    let mut root = AnyHandle::JsSet(JsSet(1));
    root.sweep_values(&compactions);
    assert_eq!(root, AnyHandle::JsSet(JsSet(0)));
    let mut queues = WorkQueues::new();
    root.mark_values(&mut queues);
    assert_eq!(queues.sets, vec![JsSet(0)]);
}

#[test]
fn iterator_kind_defaults_to_key_and_value() {
    assert_eq!(CollectionIteratorKind::default(), CollectionIteratorKind::KeyAndValue);
    let data = SetIteratorHeapData::default();
    assert!(data.object_index.is_none());
    assert!(data.set.is_none());
    assert_eq!(data.kind, CollectionIteratorKind::KeyAndValue);
}

#[test]
fn backing_object_is_created_and_recorded() {
    let mut heap = Heap::new();
    let set = heap.create(nova_heap::heap_data::SetHeapData {
        object_index: None,
        values: Vec::new(),
    });
    let iterator = SetIterator::from_set(&mut heap, set, CollectionIteratorKind::Key);
    let proto = heap.create(ObjectHeapData {
        extensible: true,
        prototype: None,
        keys: Vec::new(),
        values: Vec::new(),
        descriptors: Vec::new(),
    });
    assert_eq!(iterator.get_backing_object(&heap), None);
    let backing = iterator.create_backing_object(&mut heap, Some(proto));
    assert_eq!(iterator.get_backing_object(&heap), Some(backing));
    let data = heap.set_iterators.get(iterator).unwrap();
    assert_eq!(data.object_index, Some(backing));
    assert_eq!(data.kind, CollectionIteratorKind::Key);
    let backing_data = heap.objects.get(backing).unwrap();
    assert_eq!(backing_data.prototype, Some(proto));
    assert!(backing_data.extensible);
    assert_eq!(backing_data.keys.len(), 0);
}
