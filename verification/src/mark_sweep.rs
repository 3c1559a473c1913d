//! The mark/sweep-adjust protocol: the capability every heap-resident type
//! and every handle-embedding type implements, plus the collector-cycle
//! data it is driven by (per-kind work queues and compaction tables).

use vstd::prelude::*;

use crate::handles::{AnyHandle, Array, JsSet, OrdinaryObject, SetIterator};
use crate::value::{value_handle, Value};

verus! {

broadcast use vstd::seq_lib::lemma_seq_contains_after_push;

/// One pending-set per arena kind: the collector's worklist during tracing.
#[derive(Debug)]
pub struct WorkQueues {
    pub objects: Vec<OrdinaryObject>,
    pub arrays: Vec<Array>,
    pub sets: Vec<JsSet>,
    pub set_iterators: Vec<SetIterator>,
}

impl WorkQueues {
    pub open spec fn contains(self, h: AnyHandle) -> bool {
        match h {
            AnyHandle::Object(o) => self.objects@.contains(o),
            AnyHandle::Array(a) => self.arrays@.contains(a),
            AnyHandle::JsSet(s) => self.sets@.contains(s),
            AnyHandle::SetIterator(s) => self.set_iterators@.contains(s),
        }
    }

    pub open spec fn total_len(self) -> nat {
        self.objects@.len() + self.arrays@.len() + self.sets@.len() + self.set_iterators@.len()
    }

    pub fn new() -> (q: WorkQueues)
        ensures
            q.total_len() == 0,
            forall|h: AnyHandle| !q.contains(h),
    {
        let q = WorkQueues {
            objects: Vec::new(),
            arrays: Vec::new(),
            sets: Vec::new(),
            set_iterators: Vec::new(),
        };
        assert forall|h: AnyHandle| !q.contains(h) by {
            assert(q.objects@.len() == 0);
        }
        q
    }

    /// Enqueue one handle on the queue for its kind.
    pub fn push(&mut self, h: AnyHandle)
        ensures
            forall|x: AnyHandle| final(self).contains(x) == (old(self).contains(x) || x == h),
            final(self).total_len() == old(self).total_len() + 1,
    {
        match h {
            AnyHandle::Object(o) => self.objects.push(o),
            AnyHandle::Array(a) => self.arrays.push(a),
            AnyHandle::JsSet(s) => self.sets.push(s),
            AnyHandle::SetIterator(s) => self.set_iterators.push(s),
        }
    }

    /// Enqueue the handle a value holds, if it holds one.
    pub fn push_value(&mut self, v: Value)
        ensures
            forall|x: AnyHandle|
                final(self).contains(x) == (old(self).contains(x) || value_handle(v) == Some(x)),
            final(self).total_len() <= old(self).total_len() + 1,
    {
        match v {
            Value::Object(o) => self.push(AnyHandle::Object(o)),
            Value::Array(a) => self.push(AnyHandle::Array(a)),
            Value::JsSet(s) => self.push(AnyHandle::JsSet(s)),
            Value::SetIterator(s) => self.push(AnyHandle::SetIterator(s)),
            _ => (),
        }
    }

    /// Pop a handle from any non-empty queue; `None` exactly when every
    /// queue is empty.
    pub fn pop(&mut self) -> (r: Option<AnyHandle>)
        ensures
            r is None ==> old(self).total_len() == 0 && final(self).total_len() == 0 && (forall|
                x: AnyHandle,
            | final(self).contains(x) == old(self).contains(x)),
            r is Some ==> {
                &&& old(self).contains(r->0)
                &&& final(self).total_len() == old(self).total_len() - 1
                &&& forall|x: AnyHandle| final(self).contains(x) ==> old(self).contains(x)
                &&& forall|x: AnyHandle|
                    old(self).contains(x) ==> final(self).contains(x) || x == r->0
            },
    {
        if let Some(o) = self.objects.pop() {
            proof {
                lemma_pop_contains(old(self).objects@, self.objects@);
            }
            return Some(AnyHandle::Object(o));
        }
        if let Some(a) = self.arrays.pop() {
            proof {
                lemma_pop_contains(old(self).arrays@, self.arrays@);
            }
            return Some(AnyHandle::Array(a));
        }
        if let Some(s) = self.sets.pop() {
            proof {
                lemma_pop_contains(old(self).sets@, self.sets@);
            }
            return Some(AnyHandle::JsSet(s));
        }
        if let Some(s) = self.set_iterators.pop() {
            proof {
                lemma_pop_contains(old(self).set_iterators@, self.set_iterators@);
            }
            return Some(AnyHandle::SetIterator(s));
        }
        None
    }

    pub fn is_empty(&self) -> (r: bool)
        ensures
            r == (self.total_len() == 0),
    {
        self.objects.is_empty() && self.arrays.is_empty() && self.sets.is_empty()
            && self.set_iterators.is_empty()
    }
}

/// After popping the last element, every remaining element was already
/// present, and everything previously present is either still there or was
/// the popped last element.
proof fn lemma_pop_contains<T>(pre: Seq<T>, post: Seq<T>)
    requires
        pre.len() > 0,
        post == pre.subrange(0, pre.len() - 1),
    ensures
        pre.contains(pre[pre.len() - 1]),
        forall|x: T| post.contains(x) ==> pre.contains(x),
        forall|x: T| pre.contains(x) ==> post.contains(x) || x == pre[pre.len() - 1],
{
    assert forall|x: T| post.contains(x) implies pre.contains(x) by {
        let i = choose|i: int| 0 <= i < post.len() && post[i] == x;
        assert(pre[i] == x);
    }
    assert forall|x: T| pre.contains(x) implies post.contains(x) || x == pre[pre.len() - 1] by {
        let i = choose|i: int| 0 <= i < pre.len() && pre[i] == x;
        if i < pre.len() - 1 {
            assert(post[i] == x);
        }
    }
}

/// One old-index to new-index (or removed) table, for one arena kind,
/// produced while compacting and consumed while adjusting survivors.
#[derive(Debug)]
pub struct CompactionList(pub Vec<Option<u32>>);

impl View for CompactionList {
    type V = Seq<Option<u32>>;

    open spec fn view(&self) -> Seq<Option<u32>> {
        self.0@
    }
}

impl CompactionList {
    /// The post-compaction index of a surviving pre-compaction index.
    /// Asking about a removed slot would indicate a reachability bug, so it
    /// is excluded outright.
    pub fn shift_index(&self, index: u32) -> (r: u32)
        requires
            index < self@.len(),
            self@[index as int] is Some,
        ensures
            Some(r) == self@[index as int],
    {
        let entry = self.0[index as usize];
        entry.unwrap()
    }
}

/// The completed compaction tables of one collection cycle, one per kind.
#[derive(Debug)]
pub struct CompactionLists {
    pub objects: CompactionList,
    pub arrays: CompactionList,
    pub sets: CompactionList,
    pub set_iterators: CompactionList,
}

/// The mathematical content of [`CompactionLists`].
pub struct CompactionsView {
    pub objects: Seq<Option<u32>>,
    pub arrays: Seq<Option<u32>>,
    pub sets: Seq<Option<u32>>,
    pub set_iterators: Seq<Option<u32>>,
}

impl View for CompactionLists {
    type V = CompactionsView;

    open spec fn view(&self) -> CompactionsView {
        CompactionsView {
            objects: self.objects@,
            arrays: self.arrays@,
            sets: self.sets@,
            set_iterators: self.set_iterators@,
        }
    }
}

impl CompactionsView {
    /// The table entry for a handle, read from the table of its kind.
    pub open spec fn entry(self, h: AnyHandle) -> Option<u32> {
        match h {
            AnyHandle::Object(o) => self.objects[o.spec_index()],
            AnyHandle::Array(a) => self.arrays[a.spec_index()],
            AnyHandle::JsSet(s) => self.sets[s.spec_index()],
            AnyHandle::SetIterator(s) => self.set_iterators[s.spec_index()],
        }
    }

    /// Whether a handle's slot survived the cycle: in range and not removed.
    pub open spec fn alive(self, h: AnyHandle) -> bool {
        (match h {
            AnyHandle::Object(o) => 0 <= o.spec_index() < self.objects.len(),
            AnyHandle::Array(a) => 0 <= a.spec_index() < self.arrays.len(),
            AnyHandle::JsSet(s) => 0 <= s.spec_index() < self.sets.len(),
            AnyHandle::SetIterator(s) => 0 <= s.spec_index() < self.set_iterators.len(),
        }) && self.entry(h) is Some
    }

    /// The post-compaction handle of a surviving handle.
    pub open spec fn remap(self, h: AnyHandle) -> AnyHandle {
        match h {
            AnyHandle::Object(_) => AnyHandle::Object(OrdinaryObject(table_new_index(self.entry(h)))),
            AnyHandle::Array(_) => AnyHandle::Array(Array(table_new_index(self.entry(h)))),
            AnyHandle::JsSet(_) => AnyHandle::JsSet(JsSet(table_new_index(self.entry(h)))),
            AnyHandle::SetIterator(_) => AnyHandle::SetIterator(
                SetIterator(table_new_index(self.entry(h))),
            ),
        }
    }

    /// The post-compaction value of a value: its embedded handle rewritten,
    /// primitives untouched.
    pub open spec fn remap_value(self, v: Value) -> Value {
        match v {
            Value::Object(o) => Value::Object(OrdinaryObject(table_new_index(self.objects[o.spec_index()]))),
            Value::Array(a) => Value::Array(Array(table_new_index(self.arrays[a.spec_index()]))),
            Value::JsSet(s) => Value::JsSet(JsSet(table_new_index(self.sets[s.spec_index()]))),
            Value::SetIterator(s) => Value::SetIterator(
                SetIterator(table_new_index(self.set_iterators[s.spec_index()])),
            ),
            _ => v,
        }
    }

    pub open spec fn remap_opt_value(self, v: Option<Value>) -> Option<Value> {
        match v {
            Some(x) => Some(self.remap_value(x)),
            None => None,
        }
    }

    pub open spec fn remap_object(self, o: OrdinaryObject) -> OrdinaryObject {
        OrdinaryObject(table_new_index(self.objects[o.spec_index()]))
    }

    pub open spec fn remap_set(self, s: JsSet) -> JsSet {
        JsSet(table_new_index(self.sets[s.spec_index()]))
    }

    pub open spec fn remap_opt_object(self, o: Option<OrdinaryObject>) -> Option<OrdinaryObject> {
        match o {
            Some(x) => Some(self.remap_object(x)),
            None => None,
        }
    }

    pub open spec fn remap_opt_set(self, s: Option<JsSet>) -> Option<JsSet> {
        match s {
            Some(x) => Some(self.remap_set(x)),
            None => None,
        }
    }
}

/// The content of a surviving table entry (never asked of removed entries).
pub open spec fn table_new_index(entry: Option<u32>) -> u32 {
    match entry {
        Some(n) => n,
        None => 0,
    }
}

/// Whether the handle a value may hold (if any) survived the cycle.
pub open spec fn opt_handle_alive(compactions: CompactionsView, oh: Option<AnyHandle>) -> bool {
    match oh {
        Some(h) => compactions.alive(h),
        None => true,
    }
}

pub open spec fn opt_value_alive(compactions: CompactionsView, v: Option<Value>) -> bool {
    match v {
        Some(x) => opt_handle_alive(compactions, value_handle(x)),
        None => true,
    }
}

/// Whether every handle an attribute-table entry holds survived the cycle.
pub open spec fn descriptor_entry_alive(
    compactions: CompactionsView,
    entry: Option<crate::value::ElementDescriptor>,
) -> bool {
    match entry {
        Some(crate::value::ElementDescriptor::Accessor { getter, setter, .. }) => opt_value_alive(
            compactions,
            getter,
        ) && opt_value_alive(compactions, setter),
        _ => true,
    }
}

impl CompactionLists {
    /// Rewrite one value in place through the tables.
    pub fn remap_value(&self, v: Value) -> (r: Value)
        requires
            opt_handle_alive(self@, value_handle(v)),
        ensures
            r == self@.remap_value(v),
    {
        match v {
            Value::Object(o) => Value::Object(OrdinaryObject(self.objects.shift_index(o.0))),
            Value::Array(a) => Value::Array(Array(self.arrays.shift_index(a.0))),
            Value::JsSet(s) => Value::JsSet(JsSet(self.sets.shift_index(s.0))),
            Value::SetIterator(s) => Value::SetIterator(
                SetIterator(self.set_iterators.shift_index(s.0)),
            ),
            other => other,
        }
    }
}

/// The protocol every heap-resident data type and every handle-containing
/// type implements: declare the handles it directly holds, and rewrite them
/// in place once the compaction tables of a cycle are complete.
pub trait HeapMarkAndSweep: Sized {
    /// Which handles this datum directly holds (no recursion: the
    /// collector's drain loop recurses, not the data).
    spec fn holds_handle(&self, h: AnyHandle) -> bool;

    /// How a post-sweep datum relates to its pre-sweep self: identical
    /// except that every directly held handle has been rewritten through
    /// the tables.
    spec fn swept(&self, post: &Self, compactions: CompactionsView) -> bool;

    /// Push every directly held handle into the work queue of its kind.
    fn mark_values(&self, queues: &mut WorkQueues)
        ensures
            forall|h: AnyHandle|
                final(queues).contains(h) == (old(queues).contains(h) || self.holds_handle(h)),
    ;

    /// Rewrite every directly held handle to its post-compaction index. A
    /// held handle whose table entry is removed would be a reachability
    /// bug, so every held handle must be alive in the tables.
    fn sweep_values(&mut self, compactions: &CompactionLists)
        requires
            forall|h: AnyHandle| old(self).holds_handle(h) ==> compactions@.alive(h),
        ensures
            old(self).swept(final(self), compactions@),
    ;
}

impl HeapMarkAndSweep for OrdinaryObject {
    open spec fn holds_handle(&self, h: AnyHandle) -> bool {
        h == AnyHandle::Object(*self)
    }

    open spec fn swept(&self, post: &Self, compactions: CompactionsView) -> bool {
        *post == compactions.remap_object(*self)
    }

    fn mark_values(&self, queues: &mut WorkQueues) {
        queues.push(AnyHandle::Object(*self));
    }

    fn sweep_values(&mut self, compactions: &CompactionLists) {
        proof {
            assert(old(self).holds_handle(AnyHandle::Object(*self)));
        }
        self.0 = compactions.objects.shift_index(self.0);
    }
}

impl HeapMarkAndSweep for Array {
    open spec fn holds_handle(&self, h: AnyHandle) -> bool {
        h == AnyHandle::Array(*self)
    }

    open spec fn swept(&self, post: &Self, compactions: CompactionsView) -> bool {
        post.0 == table_new_index(compactions.arrays[self.spec_index()])
    }

    fn mark_values(&self, queues: &mut WorkQueues) {
        queues.push(AnyHandle::Array(*self));
    }

    fn sweep_values(&mut self, compactions: &CompactionLists) {
        proof {
            assert(old(self).holds_handle(AnyHandle::Array(*self)));
        }
        self.0 = compactions.arrays.shift_index(self.0);
    }
}

impl HeapMarkAndSweep for JsSet {
    open spec fn holds_handle(&self, h: AnyHandle) -> bool {
        h == AnyHandle::JsSet(*self)
    }

    open spec fn swept(&self, post: &Self, compactions: CompactionsView) -> bool {
        *post == compactions.remap_set(*self)
    }

    fn mark_values(&self, queues: &mut WorkQueues) {
        queues.push(AnyHandle::JsSet(*self));
    }

    fn sweep_values(&mut self, compactions: &CompactionLists) {
        proof {
            assert(old(self).holds_handle(AnyHandle::JsSet(*self)));
        }
        self.0 = compactions.sets.shift_index(self.0);
    }
}

impl HeapMarkAndSweep for SetIterator {
    open spec fn holds_handle(&self, h: AnyHandle) -> bool {
        h == AnyHandle::SetIterator(*self)
    }

    open spec fn swept(&self, post: &Self, compactions: CompactionsView) -> bool {
        post.0 == table_new_index(compactions.set_iterators[self.spec_index()])
    }

    fn mark_values(&self, queues: &mut WorkQueues) {
        queues.push(AnyHandle::SetIterator(*self));
    }

    fn sweep_values(&mut self, compactions: &CompactionLists) {
        proof {
            assert(old(self).holds_handle(AnyHandle::SetIterator(*self)));
        }
        self.0 = compactions.set_iterators.shift_index(self.0);
    }
}

impl HeapMarkAndSweep for AnyHandle {
    open spec fn holds_handle(&self, h: AnyHandle) -> bool {
        h == *self
    }

    open spec fn swept(&self, post: &Self, compactions: CompactionsView) -> bool {
        *post == compactions.remap(*self)
    }

    fn mark_values(&self, queues: &mut WorkQueues) {
        queues.push(*self);
    }

    fn sweep_values(&mut self, compactions: &CompactionLists) {
        proof {
            assert(old(self).holds_handle(*old(self)));
        }
        match *self {
            AnyHandle::Object(o) => {
                *self = AnyHandle::Object(OrdinaryObject(compactions.objects.shift_index(o.0)));
            },
            AnyHandle::Array(a) => {
                *self = AnyHandle::Array(Array(compactions.arrays.shift_index(a.0)));
            },
            AnyHandle::JsSet(s) => {
                *self = AnyHandle::JsSet(JsSet(compactions.sets.shift_index(s.0)));
            },
            AnyHandle::SetIterator(s) => {
                *self = AnyHandle::SetIterator(
                    SetIterator(compactions.set_iterators.shift_index(s.0)),
                );
            },
        }
    }
}

impl<T: HeapMarkAndSweep> HeapMarkAndSweep for Option<T> {
    open spec fn holds_handle(&self, h: AnyHandle) -> bool {
        match self {
            Some(x) => x.holds_handle(h),
            None => false,
        }
    }

    open spec fn swept(&self, post: &Self, compactions: CompactionsView) -> bool {
        match (self, post) {
            (Some(x), Some(y)) => x.swept(y, compactions),
            (None, None) => true,
            _ => false,
        }
    }

    fn mark_values(&self, queues: &mut WorkQueues) {
        match self {
            Some(x) => x.mark_values(queues),
            None => (),
        }
    }

    fn sweep_values(&mut self, compactions: &CompactionLists) {
        match self {
            Some(x) => x.sweep_values(compactions),
            None => (),
        }
    }
}

} // verus!
