//! What the OpenShock backend asks for before it may dispatch.

use vstd::prelude::*;

verus! {

/// Decides whether the backend may dispatch: it may with an authentication
/// token that is not blank, and with none it may not.
pub fn handler(auth_token: &str) -> (allowed: bool)
    ensures
        allowed == (auth_token@.len() > 0),
{
    !auth_token.is_empty()
}

} // verus!
