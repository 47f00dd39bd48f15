//! Errors reported by the pool.

use vstd::prelude::*;
use vstd::string::StringExecFns;

verus! {

/// A pool was asked for with no workers at all.
#[derive(Clone, Copy, Debug, PartialEq, Eq, Structural)]
pub struct PoolCreationError;

impl PoolCreationError {
    /// The text shown to a user for this error.
    pub open spec fn text() -> Seq<char> {
        "Pool Creation Error: Size cannot be 0."@
    }

    /// Renders the error for a user.
    pub fn message(&self) -> (s: String)
        ensures
            s@ == Self::text(),
    {
        String::from_str("Pool Creation Error: Size cannot be 0.")
    }
}

} // verus!
