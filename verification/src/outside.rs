//! The types of other crates that the library holds, made known to the
//! verifier, and what the library takes for granted of std.

use std::sync::Arc;
use vstd::prelude::*;

verus! {

/// `dashmap::DashMap`, opaque to the verifier. Each map that the library keeps
/// in one has a spec function of its own for what the map holds.
#[verifier::external_type_specification]
#[verifier::external_body]
#[verifier::reject_recursive_types(K)]
#[verifier::reject_recursive_types(V)]
#[verifier::reject_recursive_types(S)]
pub struct ExDashMap<K, V, S>(dashmap::DashMap<K, V, S>);

/// `crossbeam_skiplist::SkipMap`, opaque to the verifier in the same way.
#[verifier::external_type_specification]
#[verifier::external_body]
#[verifier::reject_recursive_types(K)]
#[verifier::reject_recursive_types(V)]
pub struct ExSkipMap<K, V>(crossbeam_skiplist::SkipMap<K, V>);

/// `std::path::PathBuf`, opaque to the verifier: the library carries a path and
/// does not look into it.
#[verifier::external_type_specification]
#[verifier::external_body]
pub struct ExPathBuf(std::path::PathBuf);

/// `Arc::clone`: the new pointer points at the same value.
#[verifier::external_body]
pub(crate) fn share<T>(a: &Arc<T>) -> (b: Arc<T>)
    ensures
        b == *a,
{
    Arc::clone(a)
}

/// `str`'s `==`: whether two strings hold the same characters.
#[verifier::external_body]
pub(crate) fn same_text(a: &str, b: &str) -> (same: bool)
    ensures
        same == (a@ == b@),
{
    a == b
}

} // verus!
