//! What the user can be doing.

use vstd::prelude::*;

verus! {

/// What the user wants help with.
#[derive(Debug, Clone, Copy, PartialEq, Eq, Structural)]
pub enum AssistantMode {
    General,
    Interview,
    Interviewer,
    Meeting,
    Sales,
}

} // verus!
