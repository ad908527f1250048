//! The identity fabric's greeting.

use vstd::prelude::*;

verus! {

/// The greeting of the identity fabric.
pub fn hello() -> (greeting: String)
    ensures
        greeting@ == "Hello from exo-identity"@,
{
    "Hello from exo-identity".to_owned()
}

} // verus!
