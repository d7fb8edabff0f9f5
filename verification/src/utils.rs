//! Small helpers shared by the configuration loader and the pipeline driver.

use vstd::prelude::*;

verus! {

/// Error standing for an environment variable that is absent or unreadable.
#[derive(Clone, Copy, PartialEq, Eq, Structural, Debug)]
pub enum VarLookupError {
    Missing,
    NotUnicode,
}

/// Relies on `std::path::Path::exists`: whether the path names an existing
/// file depends on the machine's filesystem at the moment of the call, so
/// nothing is promised of the result.
#[verifier::external_body]
pub fn pexi(s: &str) -> bool {
    std::path::Path::new(s).exists()
}

/// Unwraps a variable lookup that the caller has already checked; the
/// original configuration loader treats a missing variable as fatal, so the
/// failing input is excluded here.
pub fn uw_nofile(r: Result<String, VarLookupError>) -> (s: String)
    requires
        r is Ok,
    ensures
        s == r->Ok_0,
{
    match r {
        Ok(s) => s,
        Err(_) => vstd::pervasive::unreached(),
    }
}

} // verus!
