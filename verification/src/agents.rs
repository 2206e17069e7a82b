//! The agent executor.

use vstd::prelude::*;

verus! {

/// Runs a named agent.
pub struct AgentExecutor;

impl AgentExecutor {
    /// Runs the agent called `name`; the text it yields does not depend on
    /// the name.
    pub fn execute(name: &str) -> (out: String)
        ensures
            out@ == "Intelligence generated"@,
    {
        String::from_str("Intelligence generated")
    }
}

} // verus!
