//! Errors of the inference and translation passes. Missing information is
//! never an error (the passes report it as `None`); these variants are the
//! hard failures: conflicting concrete knowledge, structural violations, and
//! unsupported operations.

use vstd::prelude::*;

verus! {

/// A hard failure of an inference or translation pass.
#[derive(Debug, PartialEq)]
pub enum GraphError {
    /// Two concrete factoids disagree.
    Conflict,
    /// Two concrete non-1 dimensions disagree at one broadcast position.
    BroadcastConflict,
    /// Two closed shapes have different ranks.
    RankMismatch,
    /// A tensor that should carry exactly one streaming axis does not.
    NoStreamingDim,
    /// No pulsification rule is registered for the operation.
    NoPulsifier,
    /// An operation was handed the wrong number of inputs.
    Arity,
    /// An operation was handed inputs whose facts it cannot combine.
    ShapeMismatch,
    /// The operation cannot be evaluated directly.
    EvalNotSupported,
    /// An arithmetic result does not fit the machine integer that holds it.
    Overflow,
    /// An edge references an outlet that is not present in the graph.
    InvalidOutlet,
    /// The pulse length must be a positive integer.
    InvalidPulse,
    /// A constraint names a fact slot that the workspace does not have.
    UnknownQuantity,
    /// A failure attributed to the graph node it arose at, by its name.
    AtNode { node: String, cause: Box<GraphError> },
}

impl GraphError {
    /// Attach the name of the offending node to a failure.
    pub fn at_node(self, node: String) -> (r: GraphError)
        ensures
            r == (GraphError::AtNode { node, cause: Box::new(self) }),
    {
        GraphError::AtNode { node, cause: Box::new(self) }
    }

    /// The failure itself, with any node attribution stripped.
    pub open spec fn spec_root_cause(self) -> GraphError
        decreases self,
    {
        match self {
            GraphError::AtNode { cause, .. } => cause.spec_root_cause(),
            _ => self,
        }
    }
}

} // verus!
