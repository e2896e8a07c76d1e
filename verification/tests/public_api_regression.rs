use weavetree::domain::{FallibleSearchDomain, SearchDomain};
use weavetree::{ActionId, ReturnType, RunError, SearchConfig, StateKey, Tree, TreeError};

struct SinkDomain;

impl SearchDomain for SinkDomain {
    fn num_actions(&mut self, _state: StateKey) -> usize {
        0
    }

    fn step(&mut self, state: StateKey, _action: ActionId) -> (StateKey, i64, bool) {
        (state, 0, true)
    }

    fn rollout_policy(&mut self, _state: StateKey, _num_actions: usize) -> ActionId {
        ActionId::from(0usize)
    }
}

#[test]
fn public_terminal_root_iteration_is_stable() {
    let mut tree = Tree::new(StateKey::from(10u64), true);
    let config = SearchConfig {
        iterations: 1,
        c: 1_400_000,
        gamma: 1_000_000,
        max_steps: 4,
        return_type: ReturnType::Discounted,
        fixed_horizon_steps: 4,
    };
    let mut domain = SinkDomain;

    let metrics = tree
        .iterate(&config, &mut domain)
        .expect("iteration should succeed");

    assert_eq!(metrics.path_len, 0);
    assert_eq!(metrics.total_return, 0);
}

struct LoopingSink;

impl SearchDomain for LoopingSink {
    fn num_actions(&mut self, _state: StateKey) -> usize {
        0
    }

    fn step(&mut self, state: StateKey, _action: ActionId) -> (StateKey, i64, bool) {
        (state, 0, false)
    }

    fn rollout_policy(&mut self, _state: StateKey, _num_actions: usize) -> ActionId {
        ActionId::from(0usize)
    }
}

#[test]
fn public_zero_action_run_completes_without_error() {
    let mut tree = Tree::new(StateKey::from(7u64), false);
    let config = SearchConfig {
        iterations: 5,
        c: 1_400_000,
        gamma: 1_000_000,
        max_steps: 4,
        return_type: ReturnType::Discounted,
        fixed_horizon_steps: 4,
    };
    let mut domain = LoopingSink;

    let run = tree.run(&config, &mut domain).expect("run should succeed");
    assert_eq!(run.iterations_completed, 5);
}

struct TenOutOfOne;

impl SearchDomain for TenOutOfOne {
    fn num_actions(&mut self, _state: StateKey) -> usize {
        1
    }

    fn step(&mut self, _state: StateKey, _action: ActionId) -> (StateKey, i64, bool) {
        (StateKey::from(1u64), 0, false)
    }

    fn rollout_policy(&mut self, _state: StateKey, _num_actions: usize) -> ActionId {
        ActionId::from(10usize)
    }
}

#[test]
fn public_invalid_rollout_action_returns_error() {
    let mut tree = Tree::new(StateKey::from(0u64), false);
    let config = SearchConfig {
        iterations: 1,
        c: 1_400_000,
        gamma: 1_000_000,
        max_steps: 8,
        return_type: ReturnType::Discounted,
        fixed_horizon_steps: 8,
    };
    let mut domain = TenOutOfOne;

    let err = tree
        .iterate(&config, &mut domain)
        .expect_err("invalid rollout action should fail");

    assert!(matches!(
        err,
        TreeError::InvalidRolloutAction {
            action_id,
            num_actions: 1,
            ..
        } if action_id.index() == 10
    ));
}

struct FailingPolicyDomain;

impl FallibleSearchDomain for FailingPolicyDomain {
    type Error = &'static str;

    fn num_actions(&mut self, _state: StateKey) -> Result<usize, &'static str> {
        Ok(1)
    }

    fn step(&mut self, _state: StateKey, _action: ActionId) -> Result<(StateKey, i64, bool), &'static str> {
        Ok((StateKey::from(1u64), 0, false))
    }

    fn rollout_policy(&mut self, _state: StateKey, _num_actions: usize) -> Result<ActionId, &'static str> {
        Err("rollout callback failed")
    }
}

#[test]
fn public_run_fallible_propagates_callback_error() {
    let mut tree = Tree::new(StateKey::from(0u64), false);
    let config = SearchConfig {
        iterations: 2,
        c: 0,
        gamma: 1_000_000,
        max_steps: 4,
        return_type: ReturnType::Discounted,
        fixed_horizon_steps: 4,
    };
    let mut domain = FailingPolicyDomain;

    let err = tree
        .run_fallible(&config, &mut domain)
        .expect_err("run_fallible should fail");

    assert!(matches!(
        err,
        RunError::Callback(msg) if msg == "rollout callback failed"
    ));
}
