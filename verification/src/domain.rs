//! The interface a domain presents to the search engine.
//!
//! The engine is simulator-agnostic: it learns about the decision problem
//! only through these three calls. Rewards are fixed-point micro-units (see
//! `fixed`). A domain may keep mutable state of its own (a pseudorandom
//! generator, an interner); it must not touch the tree.

use vstd::prelude::*;

use crate::error::TreeError;
use crate::ids::{ActionId, StateKey};

verus! {

/// Domain callbacks that cannot fail.
///
/// `num_actions` must be deterministic in the state key, and may return
/// zero for states with no legal action (a sink, not an error). `step`
/// samples one transition; `rollout_policy` must return an action index
/// below the action count it is given, or the engine raises
/// `InvalidRolloutAction`.
pub trait SearchDomain {
    /// Number of legal actions in the given state.
    fn num_actions(&mut self, state_key: StateKey) -> usize;

    /// Sample one transition: the next state key, the reward in
    /// micro-units, and whether the next state is terminal.
    fn step(&mut self, state_key: StateKey, action_id: ActionId) -> (StateKey, i64, bool);

    /// Pick the rollout action for a state with `num_actions` legal
    /// actions.
    fn rollout_policy(&mut self, state_key: StateKey, num_actions: usize) -> ActionId;
}

/// Domain callbacks that may fail; a callback error aborts the current
/// operation and surfaces unchanged.
pub trait FallibleSearchDomain {
    type Error;

    /// Whether this domain's callbacks are known never to fail. Domains
    /// built from infallible callbacks answer `true`, and the engine's
    /// error paths for callback failures are then provably dead. By
    /// default nothing is assumed.
    open spec fn never_fails() -> bool {
        false
    }

    /// Number of legal actions in the given state.
    fn num_actions(&mut self, state_key: StateKey) -> (r: Result<usize, Self::Error>)
        ensures
            Self::never_fails() ==> r is Ok,
    ;

    /// Sample one transition: the next state key, the reward in
    /// micro-units, and whether the next state is terminal.
    fn step(&mut self, state_key: StateKey, action_id: ActionId) -> (r: Result<
        (StateKey, i64, bool),
        Self::Error,
    >)
        ensures
            Self::never_fails() ==> r is Ok,
    ;

    /// Pick the rollout action for a state with `num_actions` legal
    /// actions.
    fn rollout_policy(&mut self, state_key: StateKey, num_actions: usize) -> (r: Result<
        ActionId,
        Self::Error,
    >)
        ensures
            Self::never_fails() ==> r is Ok,
    ;
}

/// Every infallible domain is also a fallible one whose calls never fail.
impl<D: SearchDomain> FallibleSearchDomain for D {
    type Error = TreeError;

    open spec fn never_fails() -> bool {
        true
    }

    fn num_actions(&mut self, state_key: StateKey) -> Result<usize, TreeError> {
        Ok(SearchDomain::num_actions(self, state_key))
    }

    fn step(&mut self, state_key: StateKey, action_id: ActionId) -> Result<
        (StateKey, i64, bool),
        TreeError,
    > {
        Ok(SearchDomain::step(self, state_key, action_id))
    }

    fn rollout_policy(&mut self, state_key: StateKey, num_actions: usize) -> Result<
        ActionId,
        TreeError,
    > {
        Ok(SearchDomain::rollout_policy(self, state_key, num_actions))
    }
}

/// A user-defined decision process over token-encoded states. Each state
/// is presented as a stable string token; rewards are micro-unit values;
/// `step` consumes a 64-bit uniform sample so that the domain itself stays
/// deterministic.
pub trait MdpDomain {
    /// The token of the initial state.
    fn start_state(&self) -> String;

    /// Whether a state is terminal.
    fn is_terminal(&self, state: &String) -> bool;

    /// Number of actions available in a state.
    fn num_actions(&self, state: &String) -> usize;

    /// One transition under the given action and uniform sample: the next
    /// state token, the reward in micro-units, and the terminal flag.
    fn step(&self, state: &String, action_id: usize, sample: u64) -> (String, i64, bool);
}

} // verus!
