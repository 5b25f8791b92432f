//! What the assistant does on behalf of the user.

pub mod agent_tool_loop;
pub mod knowledge;
pub mod prompt_orchestrator;
pub mod screen_capture;
pub mod search_policy;
pub mod tool_trace;
pub mod voice_agent;
