//! A virtual file system layer: paths of the form `provider@uvfs://name` are
//! routed to registered file-operation providers, and a read-only in-memory
//! file system serves the files of a tar archive.

pub mod names;
pub mod tarformat;
pub mod tarfs;
pub mod text;
pub mod vfs;

use std::sync::Arc;
use vstd::prelude::*;

verus! {

/// A file descriptor, as the C runtime hands them out.
pub type Fd = i32;

/// `Arc::clone`: another handle to the same shared value.
#[verifier::external_body]
pub(crate) fn share<T>(a: &Arc<T>) -> (r: Arc<T>)
    ensures
        r == *a,
{
    Arc::clone(a)
}

} // verus!
