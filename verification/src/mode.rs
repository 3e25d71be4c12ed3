//! What the agent may do in a turn.
use vstd::prelude::*;

use crate::json;
use crate::json::JsonV;
use crate::text;

verus! {

/// In `Ask` and `Plan` the agent only reads.
#[derive(Clone, Copy, Debug, PartialEq, Eq, Structural)]
pub enum AgentMode {
    Agent,
    Ask,
    Plan,
}

pub open spec fn mode_name(m: AgentMode) -> Seq<char> {
    match m {
        AgentMode::Agent => "agent"@,
        AgentMode::Ask => "ask"@,
        AgentMode::Plan => "plan"@,
    }
}

impl AgentMode {
    pub fn as_str(self) -> (r: &'static str)
        ensures
            r@ == mode_name(self),
    {
        match self {
            AgentMode::Agent => "agent",
            AgentMode::Ask => "ask",
            AgentMode::Plan => "plan",
        }
    }
}

/// The context that was sent along with a message, if it is JSON.
pub open spec fn context_value(context: Option<Seq<char>>) -> Option<JsonV> {
    match context {
        Some(s) => match json::parsed(s) {
            Ok(v) => Some(v),
            Err(_) => None,
        },
        None => None,
    }
}

/// The mode that a context asks for.
pub open spec fn mode_in(context: Option<JsonV>) -> AgentMode {
    match context {
        Some(v) => if v.get_text("agentMode"@) == Some("ask"@) {
            AgentMode::Ask
        } else if v.get_text("agentMode"@) == Some("plan"@) {
            AgentMode::Plan
        } else {
            AgentMode::Agent
        },
        None => AgentMode::Agent,
    }
}

/// Reads the context that was sent along with a message.
pub fn read_context(context: Option<&str>) -> (r: Option<json::Json>)
    ensures
        match r {
            Some(j) => context_value(crate::session::opt_text(context)) == Some(j@),
            None => context_value(crate::session::opt_text(context)) is None,
        },
{
    match context {
        Some(s) => match json::parse(s) {
            Ok(j) => Some(j),
            Err(_) => None,
        },
        None => None,
    }
}

/// The mode that a context value asks for: agent, unless it says `ask` or `plan`.
pub fn mode_of(context: &Option<json::Json>) -> (r: AgentMode)
    ensures
        r == mode_in(
            match *context {
                Some(j) => Some(j@),
                None => None,
            },
        ),
{
    match context {
        Some(v) => match v.get_str("agentMode") {
            Some(s) => if text::str_eq(s, "ask") {
                AgentMode::Ask
            } else if text::str_eq(s, "plan") {
                AgentMode::Plan
            } else {
                AgentMode::Agent
            },
            None => AgentMode::Agent,
        },
        None => AgentMode::Agent,
    }
}

/// The mode of a message.
pub fn mode_from_context(context: Option<&str>) -> (r: AgentMode)
    ensures
        r == mode_in(context_value(crate::session::opt_text(context))),
{
    mode_of(&read_context(context))
}

/// The mode is what the context asks for, by name; whatever asks for nothing known is the agent.
pub proof fn law_modes(v: JsonV, context: Option<Seq<char>>)
    ensures
        mode_in(None) == AgentMode::Agent,
        v.get_text("agentMode"@) == Some("ask"@) ==> mode_in(Some(v)) == AgentMode::Ask,
        v.get_text("agentMode"@) == Some("plan"@) ==> mode_in(Some(v)) == AgentMode::Plan,
        v.get_text("agentMode"@) != Some("ask"@) && v.get_text("agentMode"@) != Some("plan"@)
            ==> mode_in(Some(v)) == AgentMode::Agent,
        mode_name(AgentMode::Agent) == "agent"@,
        mode_name(AgentMode::Ask) == "ask"@,
        mode_name(AgentMode::Plan) == "plan"@,
        context matches Some(s) ==> (json::parsed(s) == Ok::<JsonV, Seq<char>>(v) ==> context_value(
            context,
        ) == Some(v)),
        context is None ==> context_value(context) is None,
{
    reveal_strlit("ask");
    reveal_strlit("plan");
    assert("ask"@.len() == 3 && "plan"@.len() == 4);
}

} // verus!
