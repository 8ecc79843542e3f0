//! Tokens consumed, by one request or by a whole run.

use vstd::prelude::*;

verus! {

/// Tokens consumed.
#[derive(Clone, Copy, Debug, PartialEq, Eq, Structural)]
pub struct Usage {
    /// Input tokens used.
    pub input_tokens: u64,
    /// Output tokens used.
    pub output_tokens: u64,
}

impl Default for Usage {
    /// Nothing spent.
    fn default() -> (u: Self)
        ensures
            u.input_tokens == 0,
            u.output_tokens == 0,
    {
        Usage { input_tokens: 0, output_tokens: 0 }
    }
}

/// A total that stops at the largest `u64` rather than wrapping.
pub open spec fn saturated(total: int) -> u64 {
    if total > u64::MAX {
        u64::MAX
    } else {
        total as u64
    }
}

} // verus!
