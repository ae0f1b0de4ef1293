use vstd::prelude::*;

use fnv::{FnvHashMap, FnvHasher};

verus! {

/// fnv's hasher, declared so that fnv maps can stand in fields; opaque here.
#[verifier::external_type_specification]
#[verifier::external_body]
pub struct ExFnvHasher(FnvHasher);

/// std's hasher builder that fnv's maps use; opaque here.
#[verifier::external_type_specification]
#[verifier::external_body]
#[verifier::reject_recursive_types(H)]
pub struct ExBuildHasherDefault<H>(core::hash::BuildHasherDefault<H>);

/// Relies on `HashMap::insert` with fnv's deterministic hasher: the key is bound
/// to the value, replacing any earlier value.
#[verifier::external_body]
pub(crate) fn map_insert<V>(m: &mut FnvHashMap<u64, V>, k: u64, v: V)
    ensures
        final(m)@ == old(m)@.insert(k, v),
{
    m.insert(k, v);
}

/// Relies on `HashMap::get` with fnv's deterministic hasher: the value bound to
/// the key, if any.
#[verifier::external_body]
pub(crate) fn map_get<'a, V>(m: &'a FnvHashMap<u64, V>, k: u64) -> (r: Option<&'a V>)
    ensures
        match r {
            Some(v) => m@.contains_key(k) && *v == m@[k],
            None => !m@.contains_key(k),
        },
{
    m.get(&k)
}

} // verus!
