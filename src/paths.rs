//! File-system paths as opaque values carried through the library.
use vstd::prelude::*;

verus! {

/// `std::path::PathBuf`: carried through jobs unchanged, never inspected.
#[verifier::external_type_specification]
#[verifier::external_body]
pub struct ExPathBuf(std::path::PathBuf);

/// `std::path::Path`: the borrowed form of `PathBuf`.
#[verifier::external_type_specification]
#[verifier::external_body]
pub struct ExPath(std::path::Path);

/// Relies on `PathBuf::clone`: the copy is the same path.
pub assume_specification[ <std::path::PathBuf as core::clone::Clone>::clone ](
    p: &std::path::PathBuf,
) -> (r: std::path::PathBuf)
    ensures
        r == *p,
;

} // verus!
