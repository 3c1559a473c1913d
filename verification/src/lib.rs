//! Arena-based heap for a dynamic-language engine: typed handles, a
//! mark-and-sweep compacting collector, and per-object property storage.
//!
//! The heap owns one densely packed arena per heap-resident data kind.
//! Collaborators hold [`handles::AnyHandle`]-style typed indices instead of
//! native references; a collection cycle traces from an externally supplied
//! root set, compacts every arena, and rewrites every surviving embedded
//! handle through per-kind compaction tables.

pub mod conversion_traits;
pub mod gc;
pub mod private_environment;
pub mod handles;
pub mod heap;
pub mod heap_data;
pub mod mark_sweep;
pub mod property_storage;
pub mod set_iterator;
pub mod subspace;
pub mod value;
