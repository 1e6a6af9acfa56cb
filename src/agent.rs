//! The agent handle that the Node.js bindings box and hand to JavaScript.
use vstd::prelude::*;

verus! {

/// An agent instance. It carries no state yet: the bindings that dispatch
/// through it are not implemented.
#[derive(Debug, Copy, Clone, PartialEq, Eq, Structural)]
pub struct AgentInstance;

impl AgentInstance {
    /// A fresh agent.
    pub fn new() -> (r: AgentInstance)
        ensures
            r == AgentInstance,
    {
        AgentInstance
    }
}

} // verus!
