//! Heap-threaded conversions: like `From`/`Into` and their fallible
//! counterparts, but every conversion is handed the heap explicitly, since
//! converting an engine value may need to allocate or read heap data.

use vstd::prelude::*;

use crate::handles::SetIterator;
use crate::heap::Heap;
use crate::value::Value;

verus! {

/// Conversion from `T`, with the heap threaded through.
pub trait HeapFrom<T>: Sized {
    /// What the conversion demands of the heap and the value.
    spec fn heap_from_pre(pre: &Heap, value: &T) -> bool;

    /// How the converted value and the possibly changed heap relate to
    /// what was handed in.
    spec fn heap_from_rel(pre: &Heap, post: &Heap, value: &T, r: &Self) -> bool;

    fn heap_from(heap: &mut Heap, value: T) -> (r: Self)
        requires
            Self::heap_from_pre(old(heap), &value),
        ensures
            Self::heap_from_rel(old(heap), final(heap), &value, &r),
    ;
}

/// Conversion into `T`, with the heap threaded through: the reverse-field
/// counterpart of [`HeapFrom`], implemented once for everything it covers.
pub trait HeapInto<T>: Sized {
    spec fn heap_into_pre(pre: &Heap, value: &Self) -> bool;

    spec fn heap_into_rel(pre: &Heap, post: &Heap, value: &Self, r: &T) -> bool;

    fn heap_into(heap: &mut Heap, value: Self) -> (r: T)
        requires
            Self::heap_into_pre(old(heap), &value),
        ensures
            Self::heap_into_rel(old(heap), final(heap), &value, &r),
    ;
}

/// Fallible conversion from `T`, with the heap threaded through.
pub trait TryHeapFrom<T>: Sized {
    type Error;

    spec fn try_heap_from_rel(pre: &Heap, post: &Heap, value: &T, r: &Result<Self, Self::Error>) -> bool;

    fn try_heap_from(heap: &mut Heap, value: T) -> (r: Result<Self, Self::Error>)
        ensures
            Self::try_heap_from_rel(old(heap), final(heap), &value, &r),
    ;
}

/// Fallible conversion into `T`, with the heap threaded through.
pub trait TryHeapInto<T>: Sized {
    type Error;

    spec fn try_heap_into_rel(pre: &Heap, post: &Heap, value: &Self, r: &Result<T, Self::Error>) -> bool;

    fn try_heap_into(heap: &mut Heap, value: Self) -> (r: Result<T, Self::Error>)
        ensures
            Self::try_heap_into_rel(old(heap), final(heap), &value, &r),
    ;
}

impl<T, U: HeapFrom<T>> HeapInto<U> for T {
    open spec fn heap_into_pre(pre: &Heap, value: &T) -> bool {
        U::heap_from_pre(pre, value)
    }

    open spec fn heap_into_rel(pre: &Heap, post: &Heap, value: &T, r: &U) -> bool {
        U::heap_from_rel(pre, post, value, r)
    }

    fn heap_into(heap: &mut Heap, value: T) -> (r: U) {
        U::heap_from(heap, value)
    }
}

impl<T, U: TryHeapFrom<T>> TryHeapInto<U> for T {
    type Error = U::Error;

    open spec fn try_heap_into_rel(
        pre: &Heap,
        post: &Heap,
        value: &T,
        r: &Result<U, U::Error>,
    ) -> bool {
        U::try_heap_from_rel(pre, post, value, r)
    }

    fn try_heap_into(heap: &mut Heap, value: T) -> (r: Result<U, U::Error>) {
        U::try_heap_from(heap, value)
    }
}

impl HeapFrom<SetIterator> for Value {
    open spec fn heap_from_pre(pre: &Heap, value: &SetIterator) -> bool {
        true
    }

    open spec fn heap_from_rel(pre: &Heap, post: &Heap, value: &SetIterator, r: &Value) -> bool {
        *post == *pre && *r == Value::SetIterator(*value)
    }

    fn heap_from(heap: &mut Heap, value: SetIterator) -> (r: Value) {
        value.into_value()
    }
}

impl TryHeapFrom<Value> for SetIterator {
    type Error = ();

    open spec fn try_heap_from_rel(
        pre: &Heap,
        post: &Heap,
        value: &Value,
        r: &Result<SetIterator, ()>,
    ) -> bool {
        *post == *pre && match *value {
            Value::SetIterator(s) => *r == Result::<SetIterator, ()>::Ok(s),
            _ => *r is Err,
        }
    }

    fn try_heap_from(heap: &mut Heap, value: Value) -> (r: Result<SetIterator, ()>) {
        SetIterator::try_from(value)
    }
}

} // verus!
