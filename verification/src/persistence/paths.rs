//! Filesystem paths held by the persistence layer.
use vstd::prelude::*;
use std::path::PathBuf;

verus! {

/// `std::path::PathBuf`, carried through the library unopened.
#[verifier::external_type_specification]
#[verifier::external_body]
pub struct ExPathBuf(std::path::PathBuf);

/// A copy of `p`.
///
/// Trusted: calls `<PathBuf as Clone>::clone`, which copies the path's
/// bytes; the copy is stated to equal `p`, as vstd states for `String`.
#[verifier::external_body]
pub(crate) fn copy_path(p: &PathBuf) -> (r: PathBuf)
    ensures
        r == *p,
{
    p.clone()
}

} // verus!
