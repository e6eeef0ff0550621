//! Operations sent to the emulator.

use vstd::prelude::*;

verus! {

/// Runs a list of actions; the emulator answers with a run result carrying
/// the same tag.
#[derive(Debug, PartialEq, Eq, Hash)]
pub struct Run {
    pub r_tag: Option<String>,
    pub type_: Option<String>,
    pub actions: Vec<Action>,
}

/// One action with its arguments.
#[derive(Debug, PartialEq, Eq, Hash)]
pub struct Action {
    pub action: String,
    pub args: Vec<String>,
}

/// Registers a pass-through action.
#[derive(Debug, PartialEq, Eq, Hash)]
pub struct Register {
    pub name: String,
    pub help_text: Option<String>,
    pub help_params: Option<String>,
}

/// Completes a pass-through action unsuccessfully.
#[derive(Debug, PartialEq, Eq, Hash)]
pub struct Fail {
    pub p_tag: String,
    pub text: Vec<String>,
}

/// Completes a pass-through action successfully.
#[derive(Debug, PartialEq, Eq, Hash)]
pub struct Succeed {
    pub p_tag: String,
    pub text: Vec<String>,
}

} // verus!
