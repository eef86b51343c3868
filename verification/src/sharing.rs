//! Values that several places hold.

use std::sync::Arc;
use vstd::pervasive::cloned;
use vstd::prelude::*;

verus! {

/// `Arc::clone`: another hold on the same value.
#[verifier::external_body]
pub(crate) fn share<T>(held: &Arc<T>) -> (r: Arc<T>)
    ensures
        *r == **held,
{
    Arc::clone(held)
}

/// `Arc::make_mut`: the value, to be changed in its place, or a clone of it where others hold it
/// too. What they hold stays as it is.
#[verifier::external_body]
pub(crate) fn to_write<T: Clone>(held: &mut Arc<T>) -> (r: &mut T)
    ensures
        cloned(**old(held), *r),
        **final(held) == *final(r),
{
    Arc::make_mut(held)
}

} // verus!
