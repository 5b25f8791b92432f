//! Which workflow a spoken question goes through.

use crate::app::agent_tool_loop::AgentWorkflow;
use crate::domain::AssistantMode;
use vstd::prelude::*;

verus! {

/// The workflow of a mode: the live modes go through the coach, which is streamed, short and
/// steady; only the general mode keeps the workflow that can be made to search.
pub fn workflow_for_mode(mode: AssistantMode) -> (workflow: AgentWorkflow)
    ensures
        workflow == if mode == AssistantMode::General {
            AgentWorkflow::FnGeneral
        } else {
            AgentWorkflow::MeetingCoach
        },
{
    match mode {
        AssistantMode::General => AgentWorkflow::FnGeneral,
        _ => AgentWorkflow::MeetingCoach,
    }
}

/// The workflow of the coach.
pub fn coach_workflow() -> (workflow: AgentWorkflow)
    ensures
        workflow == AgentWorkflow::MeetingCoach,
{
    AgentWorkflow::MeetingCoach
}

} // verus!
