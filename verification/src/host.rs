//! Types of the host system that the library carries without looking inside.

use vstd::prelude::*;

verus! {

/// `std::path::PathBuf`: a path on the host, carried as it is.
#[verifier::external_type_specification]
#[verifier::external_body]
pub struct ExPathBuf(std::path::PathBuf);

} // verus!
