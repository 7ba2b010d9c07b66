//! The authority check: validates that a caller identity matches the
//! recorded authority before a privileged operation. The host has
//! already authenticated the caller as a signer, so a pure value
//! comparison is all that remains.

use vstd::prelude::*;
use crate::errors::TokenError;
use crate::records::Identity;

verus! {

/// Succeeds exactly when `identity` equals `expected`; otherwise
/// reports `Unauthorized`.
pub fn check_authority(identity: Identity, expected: Identity) -> (r: Result<(), TokenError>)
    ensures
        identity == expected ==> r == Result::<(), TokenError>::Ok(()),
        identity != expected ==> r == Result::<(), TokenError>::Err(TokenError::Unauthorized),
{
    if identity == expected {
        Ok(())
    } else {
        Err(TokenError::Unauthorized)
    }
}

} // verus!
