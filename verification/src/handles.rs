//! Typed handles: opaque, copyable, ordered references to one slot within a
//! specific arena. A handle carries no data of its own; validity is
//! guaranteed only between collection cycles unless the handle is patched by
//! the sweep-adjust protocol.

use vstd::prelude::*;

verus! {

/// Handle to an ordinary object's slot in the objects arena.
#[derive(Debug, Clone, Copy, PartialEq, Eq, PartialOrd, Ord, Hash, Structural)]
pub struct OrdinaryObject(pub u32);

/// Handle to an array's slot in the arrays arena.
#[derive(Debug, Clone, Copy, PartialEq, Eq, PartialOrd, Ord, Hash, Structural)]
pub struct Array(pub u32);

/// Handle to a set's slot in the sets arena.
#[derive(Debug, Clone, Copy, PartialEq, Eq, PartialOrd, Ord, Hash, Structural)]
pub struct JsSet(pub u32);

/// Handle to a set iterator's slot in the set-iterators arena.
#[derive(Debug, Clone, Copy, PartialEq, Eq, PartialOrd, Ord, Hash, Structural)]
pub struct SetIterator(pub u32);

/// Handle to a private-environment record; such records do not yet live in a
/// swept arena, so this handle is not part of the collector's closed world.
#[derive(Debug, Clone, Copy, PartialEq, Eq, PartialOrd, Ord, Hash, Structural)]
pub struct PrivateEnvironment(pub u32);

/// A (kind, raw-index) pair naming one slot of one arena; the common currency
/// of the collector's work queues and root sets.
#[derive(Debug, Clone, Copy, PartialEq, Eq, PartialOrd, Ord, Hash, Structural)]
pub enum AnyHandle {
    Object(OrdinaryObject),
    Array(Array),
    JsSet(JsSet),
    SetIterator(SetIterator),
}

impl OrdinaryObject {
    pub open spec fn spec_index(self) -> int {
        self.0 as int
    }

    pub fn get_index(self) -> (i: usize)
        ensures
            i == self.spec_index(),
    {
        self.0 as usize
    }
}

impl Array {
    pub open spec fn spec_index(self) -> int {
        self.0 as int
    }

    pub fn get_index(self) -> (i: usize)
        ensures
            i == self.spec_index(),
    {
        self.0 as usize
    }
}

impl JsSet {
    pub open spec fn spec_index(self) -> int {
        self.0 as int
    }

    pub fn get_index(self) -> (i: usize)
        ensures
            i == self.spec_index(),
    {
        self.0 as usize
    }
}

impl SetIterator {
    /// # Do not use this
    /// This is only for discriminant creation; the handle must never be
    /// dereferenced.
    pub fn _def() -> (s: Self)
        ensures
            s.spec_index() == 0,
    {
        SetIterator(0)
    }

    pub open spec fn spec_index(self) -> int {
        self.0 as int
    }

    pub fn get_index(self) -> (i: usize)
        ensures
            i == self.spec_index(),
    {
        self.0 as usize
    }
}

} // verus!
