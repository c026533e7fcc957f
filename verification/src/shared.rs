//! Handles to shared, immutable values. A derived collection is computed once
//! and then handed out by reference count; to the verifier a handle is the
//! value it points to.

use std::rc::Rc;
use std::sync::Arc;
use vstd::prelude::*;

verus! {

/// Another handle to the value behind `a`.
///
/// Trusted: this is `Arc::clone`, which returns a pointer to the same
/// allocation and therefore to the same value.
#[verifier::external_body]
pub(crate) fn arc_clone<T>(a: &Arc<T>) -> (r: Arc<T>)
    ensures
        r == *a,
{
    Arc::clone(a)
}

/// Another handle to the value behind `a`.
///
/// Trusted: this is `Rc::clone`, which returns a pointer to the same
/// allocation and therefore to the same value.
#[verifier::external_body]
pub(crate) fn rc_clone<T>(a: &Rc<T>) -> (r: Rc<T>)
    ensures
        r == *a,
{
    Rc::clone(a)
}

} // verus!
