//! The closed set of engine values, property keys, and property descriptors.
//!
//! Values are plain tagged unions: primitives carry their payload inline,
//! everything heap-resident is referred to through a typed handle. Property
//! keys compare structurally; string-valued keys are interned-string ids
//! assigned by the embedder, so key comparison never touches the heap.

use vstd::prelude::*;

use crate::handles::{AnyHandle, Array, JsSet, OrdinaryObject, SetIterator};

verus! {

/// The well-known interned-string id of the string `length`, the synthetic
/// key every array answers for.
pub const LENGTH_KEY: u32 = 0;

/// A property key: either an array-index key or an interned string id.
#[derive(Debug, Clone, Copy, PartialEq, Eq, Structural)]
pub enum PropertyKey {
    Integer(u32),
    Interned(u32),
}

impl PropertyKey {
    pub fn is_integer(self) -> (r: bool)
        ensures
            r == (self is Integer),
    {
        matches!(self, PropertyKey::Integer(_))
    }
}

/// An engine value: a primitive, or a typed handle to heap-resident data.
#[derive(Debug, Clone, Copy, PartialEq, Eq, Structural)]
pub enum Value {
    Undefined,
    Boolean(bool),
    Integer(i64),
    Object(OrdinaryObject),
    Array(Array),
    JsSet(JsSet),
    SetIterator(SetIterator),
}

/// The handle a value directly holds, if it holds one.
pub open spec fn value_handle(v: Value) -> Option<AnyHandle> {
    match v {
        Value::Object(o) => Some(AnyHandle::Object(o)),
        Value::Array(a) => Some(AnyHandle::Array(a)),
        Value::JsSet(s) => Some(AnyHandle::JsSet(s)),
        Value::SetIterator(s) => Some(AnyHandle::SetIterator(s)),
        _ => None,
    }
}

pub open spec fn value_holds(v: Value, h: AnyHandle) -> bool {
    value_handle(v) == Some(h)
}

pub open spec fn opt_value_holds(v: Option<Value>, h: AnyHandle) -> bool {
    match v {
        Some(x) => value_holds(x, h),
        None => false,
    }
}

/// An object-like reference: the closed set of representations property
/// storage dispatches over.
#[derive(Debug, Clone, Copy, PartialEq, Eq, Structural)]
pub enum Object {
    Object(OrdinaryObject),
    Array(Array),
    JsSet(JsSet),
    SetIterator(SetIterator),
}

impl Object {
    pub open spec fn spec_into_value(self) -> Value {
        match self {
            Object::Object(o) => Value::Object(o),
            Object::Array(a) => Value::Array(a),
            Object::JsSet(s) => Value::JsSet(s),
            Object::SetIterator(s) => Value::SetIterator(s),
        }
    }

    pub fn into_value(self) -> (v: Value)
        ensures
            v == self.spec_into_value(),
    {
        match self {
            Object::Object(o) => Value::Object(o),
            Object::Array(a) => Value::Array(a),
            Object::JsSet(s) => Value::JsSet(s),
            Object::SetIterator(s) => Value::SetIterator(s),
        }
    }
}

/// A full property descriptor, as handed to and reconstructed by property
/// storage. Accessor slots hold values (the engine's callables are values
/// like any other).
#[derive(Debug, Clone, Copy, PartialEq, Eq)]
pub enum PropertyDescriptor {
    Data { value: Value, writable: bool, enumerable: bool, configurable: bool },
    Accessor {
        getter: Option<Value>,
        setter: Option<Value>,
        enumerable: bool,
        configurable: bool,
    },
}

/// An out-of-line attribute-table entry: stored only for properties that
/// deviate from the default writable/enumerable/configurable data property.
#[derive(Debug, Clone, Copy, PartialEq, Eq)]
pub enum ElementDescriptor {
    Data { writable: bool, enumerable: bool, configurable: bool },
    Accessor {
        getter: Option<Value>,
        setter: Option<Value>,
        enumerable: bool,
        configurable: bool,
    },
}

/// The value slot a descriptor stores: accessors store no data value.
pub open spec fn spec_descriptor_value(descriptor: PropertyDescriptor) -> Value {
    match descriptor {
        PropertyDescriptor::Data { value, .. } => value,
        PropertyDescriptor::Accessor { .. } => Value::Undefined,
    }
}

pub fn descriptor_value(descriptor: PropertyDescriptor) -> (v: Value)
    ensures
        v == spec_descriptor_value(descriptor),
{
    match descriptor {
        PropertyDescriptor::Data { value, .. } => value,
        PropertyDescriptor::Accessor { .. } => Value::Undefined,
    }
}

impl ElementDescriptor {
    /// The attribute-table entry for a descriptor: `None` exactly when the
    /// descriptor is the default data descriptor.
    pub open spec fn spec_from_property_descriptor(descriptor: PropertyDescriptor) -> Option<
        ElementDescriptor,
    > {
        match descriptor {
            PropertyDescriptor::Data { value: _, writable, enumerable, configurable } => {
                if writable && enumerable && configurable {
                    None
                } else {
                    Some(ElementDescriptor::Data { writable, enumerable, configurable })
                }
            },
            PropertyDescriptor::Accessor { getter, setter, enumerable, configurable } => Some(
                ElementDescriptor::Accessor { getter, setter, enumerable, configurable },
            ),
        }
    }

    pub fn from_property_descriptor(descriptor: PropertyDescriptor) -> (r: Option<
        ElementDescriptor,
    >)
        ensures
            r == Self::spec_from_property_descriptor(descriptor),
    {
        match descriptor {
            PropertyDescriptor::Data { value: _, writable, enumerable, configurable } => {
                if writable && enumerable && configurable {
                    None
                } else {
                    Some(ElementDescriptor::Data { writable, enumerable, configurable })
                }
            },
            PropertyDescriptor::Accessor { getter, setter, enumerable, configurable } => Some(
                ElementDescriptor::Accessor { getter, setter, enumerable, configurable },
            ),
        }
    }

    /// Reconstruct a full descriptor from a stored value and the optional
    /// attribute-table entry at the same index.
    pub open spec fn spec_to_property_descriptor(
        entry: Option<ElementDescriptor>,
        value: Value,
    ) -> PropertyDescriptor {
        match entry {
            None => PropertyDescriptor::Data {
                value,
                writable: true,
                enumerable: true,
                configurable: true,
            },
            Some(ElementDescriptor::Data { writable, enumerable, configurable }) =>
                PropertyDescriptor::Data { value, writable, enumerable, configurable },
            Some(
                ElementDescriptor::Accessor { getter, setter, enumerable, configurable },
            ) => PropertyDescriptor::Accessor { getter, setter, enumerable, configurable },
        }
    }

    pub fn to_property_descriptor(entry: Option<ElementDescriptor>, value: Value) -> (r:
        PropertyDescriptor)
        ensures
            r == Self::spec_to_property_descriptor(entry, value),
    {
        match entry {
            None => PropertyDescriptor::Data {
                value,
                writable: true,
                enumerable: true,
                configurable: true,
            },
            Some(ElementDescriptor::Data { writable, enumerable, configurable }) =>
                PropertyDescriptor::Data { value, writable, enumerable, configurable },
            Some(
                ElementDescriptor::Accessor { getter, setter, enumerable, configurable },
            ) => PropertyDescriptor::Accessor { getter, setter, enumerable, configurable },
        }
    }
}

/// Round trip: splitting a descriptor into a value and an attribute-table
/// entry and reconstructing it gives back exactly the descriptor.
pub proof fn lemma_descriptor_round_trip(descriptor: PropertyDescriptor)
    ensures
        ElementDescriptor::spec_to_property_descriptor(
            ElementDescriptor::spec_from_property_descriptor(descriptor),
            spec_descriptor_value(descriptor),
        ) == descriptor,
{
}

/// The handles an attribute-table entry holds: the accessor pair, if any.
pub open spec fn descriptor_entry_holds(entry: Option<ElementDescriptor>, h: AnyHandle) -> bool {
    match entry {
        Some(ElementDescriptor::Accessor { getter, setter, .. }) => opt_value_holds(getter, h)
            || opt_value_holds(setter, h),
        _ => false,
    }
}

} // verus!
