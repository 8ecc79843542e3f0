//! What the `ask` command takes and reports.

use vstd::prelude::*;

use crate::usage::Usage;

verus! {

/// What to ask about.
pub struct Args {
    /// The text to ask about. `-` reads it from standard input, which only
    /// works from a terminal: over MCP that stream carries the protocol.
    pub state: String,
}

/// The answers, as the command reports them.
pub struct Answered {
    /// The model that answered, resolved to a concrete version.
    pub model: String,
    /// The answers, keyed by question name.
    pub answers: serde_json::Value,
    /// Tokens consumed.
    pub usage: Usage,
}

} // verus!
