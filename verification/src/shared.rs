//! Shared ownership.
use std::sync::Arc;
use vstd::prelude::*;

verus! {

/// `std::sync::Arc::clone`: one more handle on the same value, which compares equal to it.
#[verifier::external_body]
pub(crate) fn share<T>(handle: &Arc<T>) -> (r: Arc<T>)
    ensures
        r == *handle,
{
    Arc::clone(handle)
}

} // verus!
