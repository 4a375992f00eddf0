//! Nonce acceptance for runner, steer and attachment identities.

use vstd::prelude::*;

verus! {

/// The nonce shapes this build accepts: every value.
pub open spec fn nonce_accepted(value: Seq<char>) -> bool {
    true
}

/// ValidNonce gates steer, attachment and runner identities; this build accepts every value.
pub fn valid_nonce(_value: &str) -> (r: bool)
    ensures
        r == nonce_accepted(_value@),
{
    true
}

} // verus!
