//! Handles of nodes and ports. A handle is only meaningful for the graph
//! that gave it out.

use vstd::prelude::*;
use vstd::std_specs::convert::FromSpecImpl;

verus! {

/// Handle of a node.
#[derive(Clone, Copy, PartialEq, Eq, Structural, Hash, Debug)]
pub struct NodeId(pub usize);

/// Handle of an input port.
#[derive(Clone, Copy, PartialEq, Eq, Structural, Hash, Debug)]
pub struct InputId(pub usize);

/// Handle of an output port.
#[derive(Clone, Copy, PartialEq, Eq, Structural, Hash, Debug)]
pub struct OutputId(pub usize);

/// Handle of a port of either side.
#[derive(Clone, Copy, PartialEq, Eq, Structural, Hash, Debug)]
pub enum AnyParameterId {
    Input(InputId),
    Output(OutputId),
}

impl AnyParameterId {
    /// The input handle inside. Only for a handle known to be an input.
    #[must_use]
    pub fn assume_input(&self) -> (input: InputId)
        requires
            self is Input,
        ensures
            *self == AnyParameterId::Input(input),
    {
        match self {
            AnyParameterId::Input(input) => *input,
            AnyParameterId::Output(_) => unreached(),
        }
    }

    /// The output handle inside. Only for a handle known to be an output.
    #[must_use]
    pub fn assume_output(&self) -> (output: OutputId)
        requires
            self is Output,
        ensures
            *self == AnyParameterId::Output(output),
    {
        match self {
            AnyParameterId::Output(output) => *output,
            AnyParameterId::Input(_) => unreached(),
        }
    }
}

impl From<OutputId> for AnyParameterId {
    fn from(output: OutputId) -> (id: Self) {
        AnyParameterId::Output(output)
    }
}

impl FromSpecImpl<OutputId> for AnyParameterId {
    open spec fn obeys_from_spec() -> bool {
        true
    }

    open spec fn from_spec(output: OutputId) -> Self {
        AnyParameterId::Output(output)
    }
}

impl From<InputId> for AnyParameterId {
    fn from(input: InputId) -> (id: Self) {
        AnyParameterId::Input(input)
    }
}

impl FromSpecImpl<InputId> for AnyParameterId {
    open spec fn obeys_from_spec() -> bool {
        true
    }

    open spec fn from_spec(input: InputId) -> Self {
        AnyParameterId::Input(input)
    }
}

} // verus!
