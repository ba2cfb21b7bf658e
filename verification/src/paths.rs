//! File-system paths, carried through the library unread.
use std::path::PathBuf;

use vstd::prelude::*;

verus! {

/// `std::path::PathBuf`, which the library only carries.
#[verifier::external_type_specification]
#[verifier::external_body]
pub struct ExPathBuf(std::path::PathBuf);

/// `PathBuf::clone`; nothing is claimed of the copy (the library never reads a path).
pub assume_specification[ <PathBuf as Clone>::clone ](p: &PathBuf) -> PathBuf;

} // verus!
