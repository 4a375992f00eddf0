//! Installation identity.

use vstd::prelude::*;

verus! {

/// The bundle identifier the installed App registers under.
pub fn bundle_id() -> (r: &'static str)
    ensures
        r@ == "com.archigoat.app"@,
{
    "com.archigoat.app"
}

} // verus!
