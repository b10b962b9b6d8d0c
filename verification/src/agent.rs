//! The kinds of coding agent a conversation or task can belong to.
use vstd::prelude::*;

verus! {

/// Which agent produced a conversation or is assigned a task.
#[derive(Debug, Clone, Copy, PartialEq, Eq, Structural)]
pub enum AgentKind {
    Claude,
    Codebuddy,
    Opencode,
    Codex,
    Kilo,
    V8agent,
    Unknown,
}

/// Agents that have a dedicated bucket in the usage charts, in display order.
pub open spec fn agent_order() -> Seq<AgentKind> {
    seq![AgentKind::Claude, AgentKind::Codebuddy, AgentKind::Opencode, AgentKind::V8agent]
}

/// The display order of agents with a dedicated usage bucket (`AGENT_ORDER`).
pub fn agent_order_vec() -> (r: Vec<AgentKind>)
    ensures
        r@ == agent_order(),
{
    let r = vec![AgentKind::Claude, AgentKind::Codebuddy, AgentKind::Opencode, AgentKind::V8agent];
    assert(r@ =~= agent_order());
    r
}

} // verus!
