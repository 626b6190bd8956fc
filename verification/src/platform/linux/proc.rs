//! Executable naming: Linux executables carry no suffix.

use vstd::prelude::*;

verus! {

/// The platform spelling of an executable name: the name itself.
pub fn exe_name(base: &str) -> (r: String)
    ensures
        r@ == base@,
{
    base.to_owned()
}

} // verus!
