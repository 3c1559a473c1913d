//! Private-environment records: the per-class tables of private names.
//! These records do not yet live in a swept arena, so they stand outside
//! the collector's closed world; their names table is a hashed map keyed
//! by the textual name.

use vstd::prelude::*;

use crate::handles::PrivateEnvironment;
use crate::value::Value;

verus! {

#[verifier::external_type_specification]
#[verifier::external_body]
#[verifier::reject_recursive_types(K)]
#[verifier::reject_recursive_types(V)]
#[verifier::reject_recursive_types(S)]
pub struct ExAHashMap<K, V, S>(ahash::AHashMap<K, V, S>);

#[verifier::external_type_specification]
#[verifier::external_body]
pub struct ExRandomState(ahash::RandomState);

/// A private name's binding: a field, a method, or an accessor pair.
#[derive(Debug)]
pub enum PrivateName {
    Field(Option<Value>),
    Method(Option<Value>),
    /// Accessor(get, set)
    Accessor(Option<Value>, Option<Value>),
}

impl PrivateName {
    pub fn description(&self) -> (r: &'static str)
        ensures
            r@ == "identifier"@,
    {
        "identifier"
    }
}

/// The bindings a names table holds, keyed by the private name's text.
pub uninterp spec fn private_names_of(m: ahash::AHashMap<String, PrivateName>) -> Map<
    Seq<char>,
    PrivateName,
>;

/// Relies on `AHashMap::default` (ahash): it wraps `HashMap::default`,
/// which creates an empty map.
#[verifier::external_body]
fn new_names_map() -> (m: ahash::AHashMap<String, PrivateName>)
    ensures
        private_names_of(m).dom() == Set::<Seq<char>>::empty(),
{
    ahash::AHashMap::default()
}

/// A record of the private names declared by one class, linked to the
/// record of the nearest containing class.
#[derive(Debug)]
pub struct PrivateEnvironmentRecord {
    /// The record of the nearest containing class, if any.
    pub outer_private_environment: Option<PrivateEnvironment>,
    /// The private names declared by this class.
    pub names: ahash::AHashMap<String, PrivateName>,
}

/// Make a fresh private-environment record with an empty names table,
/// nested inside the given outer record.
pub fn new_private_environment(outer_private_environment: Option<PrivateEnvironment>) -> (r:
    PrivateEnvironmentRecord)
    ensures
        r.outer_private_environment == outer_private_environment,
        private_names_of(r.names).dom() == Set::<Seq<char>>::empty(),
{
    PrivateEnvironmentRecord { outer_private_environment, names: new_names_map() }
}

} // verus!
