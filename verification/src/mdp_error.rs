//! Failures of MDP schema loading, validation, compilation, and building.

use vstd::prelude::*;

verus! {

/// Why an MDP schema could not be loaded, validated, compiled, or built.
/// Probability and tolerance payloads are fixed-point micro-unit values.
#[derive(Debug, Clone, PartialEq, Eq)]
pub enum MdpError {
    /// The schema file could not be read; the payload is a message from
    /// the reader.
    Io(String),
    /// The schema text could not be parsed; the payload is a message from
    /// the parser.
    Yaml(String),
    /// The schema names no usable start state.
    MissingStart,
    /// The start state id does not resolve to a declared state.
    UnknownStartState { start: String },
    /// Two states share an id.
    DuplicateStateId { id: String },
    /// Two actions of one state share an id.
    DuplicateActionId { state: String, action: String },
    /// A terminal state declares actions.
    TerminalStateHasActions { state: String },
    /// An outcome names a next state that is not declared.
    UnknownNextState { state: String, action: String, next: String },
    /// An outcome probability is negative.
    InvalidProbability { state: String, action: String, outcome_index: usize, value: i64 },
    /// The probabilities of an action do not sum to one within tolerance.
    ProbabilitySum { state: String, action: String, sum: i64, tolerance: i64 },
    /// An action declares no outcomes.
    EmptyOutcomes { state: String, action: String },
    /// The builder was asked to extend a state it never declared.
    BuilderUnknownState { state: String },
    /// The builder was asked to extend an action it never declared.
    BuilderUnknownAction { state: String, action: String },
}

} // verus!
