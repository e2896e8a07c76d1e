//! Failures of tree construction and search operations.

use vstd::prelude::*;

use crate::ids::{ActionId, NodeId, StateKey};

verus! {

/// Why a tree operation failed. Every failure is fatal to the operation
/// that raised it; the tree state built so far stays valid and inspectable.
#[derive(Debug, Clone, Copy, PartialEq, Eq, Structural)]
pub enum TreeError {
    /// An arena lookup was made with an id no node carries.
    MissingNode { node_id: NodeId },
    /// A path entry named an action edge its node does not have.
    MissingEdge { node_id: NodeId, action_id: ActionId },
    /// Edge selection was required on a node without edges.
    ActionSelectionFailed { node_id: NodeId },
    /// A fresh outcome insertion collided with an existing entry.
    OutcomeInsertFailed { node_id: NodeId, action_id: ActionId },
    /// The rollout policy returned an action outside `[0, num_actions)`.
    InvalidRolloutAction { state_key: StateKey, action_id: ActionId, num_actions: usize },
}

/// The human-readable description of a tree failure.
pub open spec fn error_text(e: TreeError) -> Seq<char> {
    match e {
        TreeError::MissingNode { node_id } => "missing node with id "@ + crate::text::dec_digits(
            node_id.0 as int,
        ),
        TreeError::MissingEdge { node_id, action_id } => "missing edge "@
            + crate::text::dec_digits(action_id.0 as int) + " on node "@
            + crate::text::dec_digits(node_id.0 as int),
        TreeError::ActionSelectionFailed { node_id } => "failed to select action on node "@
            + crate::text::dec_digits(node_id.0 as int),
        TreeError::OutcomeInsertFailed { node_id, action_id } => "failed to insert new outcome for edge "@
            + crate::text::dec_digits(action_id.0 as int) + " on node "@ + crate::text::dec_digits(
            node_id.0 as int,
        ),
        TreeError::InvalidRolloutAction { state_key, action_id, num_actions } => "rollout policy selected invalid action "@
            + crate::text::dec_digits(action_id.0 as int) + " for state "@
            + crate::text::dec_digits(state_key.0 as int) + " with "@ + crate::text::dec_digits(
            num_actions as int,
        ) + " actions"@,
    }
}

impl TreeError {
    /// Render this failure as a human-readable message.
    pub fn message(&self) -> (r: String)
        ensures
            r@ == error_text(*self),
    {
        match self {
            TreeError::MissingNode { node_id } => {
                let mut s = String::from_str("missing node with id ");
                s.append(crate::text::usize_to_string(node_id.0).as_str());
                s
            },
            TreeError::MissingEdge { node_id, action_id } => {
                let mut s = String::from_str("missing edge ");
                s.append(crate::text::usize_to_string(action_id.0).as_str());
                s.append(" on node ");
                s.append(crate::text::usize_to_string(node_id.0).as_str());
                s
            },
            TreeError::ActionSelectionFailed { node_id } => {
                let mut s = String::from_str("failed to select action on node ");
                s.append(crate::text::usize_to_string(node_id.0).as_str());
                s
            },
            TreeError::OutcomeInsertFailed { node_id, action_id } => {
                let mut s = String::from_str("failed to insert new outcome for edge ");
                s.append(crate::text::usize_to_string(action_id.0).as_str());
                s.append(" on node ");
                s.append(crate::text::usize_to_string(node_id.0).as_str());
                s
            },
            TreeError::InvalidRolloutAction { state_key, action_id, num_actions } => {
                let mut s = String::from_str("rollout policy selected invalid action ");
                s.append(crate::text::usize_to_string(action_id.0).as_str());
                s.append(" for state ");
                s.append(crate::text::u64_to_string(state_key.0).as_str());
                s.append(" with ");
                s.append(crate::text::usize_to_string(*num_actions).as_str());
                s.append(" actions");
                s
            },
        }
    }
}

} // verus!
