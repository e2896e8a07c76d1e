use weavetree::domain::SearchDomain;
use weavetree::mcts::SilentHook;
use weavetree::{ActionId, ReturnType, RunLogEvent, SearchConfig, StateKey, Tree, TreeError};

struct NoActionDomain;

impl SearchDomain for NoActionDomain {
    fn num_actions(&mut self, _state: StateKey) -> usize {
        0
    }

    fn step(&mut self, state: StateKey, _action: ActionId) -> (StateKey, i64, bool) {
        (state, 0, true)
    }

    fn rollout_policy(&mut self, _state: StateKey, _num_actions: usize) -> ActionId {
        ActionId::from(0usize)
    }
}

#[test]
fn terminal_root_iteration_has_empty_path_and_zero_return() {
    let mut tree = Tree::new(StateKey::from(42u64), true);
    let config = SearchConfig {
        iterations: 1,
        c: 1_400_000,
        gamma: 1_000_000,
        max_steps: 8,
        return_type: ReturnType::Discounted,
        fixed_horizon_steps: 8,
    };
    let mut domain = NoActionDomain;

    let metrics = tree
        .iterate(&config, &mut domain)
        .expect("terminal root iteration should succeed");

    assert_eq!(metrics.path_len, 0);
    assert_eq!(metrics.total_return, 0);
}

struct ZeroActionNonTerminal;

impl SearchDomain for ZeroActionNonTerminal {
    fn num_actions(&mut self, _state: StateKey) -> usize {
        0
    }

    fn step(&mut self, state: StateKey, _action: ActionId) -> (StateKey, i64, bool) {
        (state, 0, false)
    }

    fn rollout_policy(&mut self, _state: StateKey, _num_actions: usize) -> ActionId {
        ActionId::from(0usize)
    }
}

#[test]
fn zero_action_state_stops_safely() {
    let mut tree = Tree::new(StateKey::from(1u64), false);
    let config = SearchConfig {
        iterations: 3,
        c: 1_400_000,
        gamma: 1_000_000,
        max_steps: 8,
        return_type: ReturnType::Discounted,
        fixed_horizon_steps: 8,
    };
    let mut domain = ZeroActionNonTerminal;
    let mut hook = SilentHook;

    let metrics = tree
        .run_with_hook(&config, &mut domain, &mut hook)
        .expect("run should succeed on zero-action state");

    assert_eq!(metrics.iterations_completed, 3);
    assert_eq!(metrics.total_return_sum, 0);
}

struct WildPolicyDomain;

impl SearchDomain for WildPolicyDomain {
    fn num_actions(&mut self, _state: StateKey) -> usize {
        1
    }

    fn step(&mut self, _state: StateKey, _action: ActionId) -> (StateKey, i64, bool) {
        (StateKey::from(1u64), 0, false)
    }

    fn rollout_policy(&mut self, _state: StateKey, _num_actions: usize) -> ActionId {
        ActionId::from(99usize)
    }
}

#[test]
fn invalid_rollout_policy_action_index_returns_error() {
    let mut tree = Tree::new(StateKey::from(0u64), false);
    let config = SearchConfig {
        iterations: 1,
        c: 1_400_000,
        gamma: 1_000_000,
        max_steps: 8,
        return_type: ReturnType::Discounted,
        fixed_horizon_steps: 8,
    };
    let mut domain = WildPolicyDomain;

    let err = tree
        .iterate(&config, &mut domain)
        .expect_err("invalid rollout action should error");

    assert!(matches!(
        err,
        TreeError::InvalidRolloutAction {
            action_id,
            num_actions: 1,
            ..
        } if action_id.index() == 99
    ));
}

#[test]
fn run_log_event_jsonl_contains_event_tag() {
    let config = SearchConfig {
        iterations: 2,
        c: 1_400_000,
        gamma: 1_000_000,
        max_steps: 8,
        return_type: ReturnType::Discounted,
        fixed_horizon_steps: 8,
    };

    let event = RunLogEvent::run_started(&config);
    let line = event.to_json_line();

    assert!(line.contains("\"event\":\"run_started\""));
    assert!(line.contains("\"iterations_requested\":2"));
}

struct SingleStepDomain;

impl SearchDomain for SingleStepDomain {
    fn num_actions(&mut self, _state: StateKey) -> usize {
        1
    }

    fn step(&mut self, _state: StateKey, _action: ActionId) -> (StateKey, i64, bool) {
        (StateKey::from(1u64), 1_000_000, true)
    }

    fn rollout_policy(&mut self, _state: StateKey, _num_actions: usize) -> ActionId {
        ActionId::from(0usize)
    }
}

#[test]
fn tree_snapshot_exports_nodes_edges_and_outcomes() {
    let mut tree = Tree::new(StateKey::from(0u64), false);
    let config = SearchConfig {
        iterations: 2,
        c: 0,
        gamma: 1_000_000,
        max_steps: 4,
        return_type: ReturnType::Discounted,
        fixed_horizon_steps: 4,
    };
    let mut domain = SingleStepDomain;

    tree.run(&config, &mut domain).expect("run should succeed");

    let snapshot = tree.snapshot();
    assert_eq!(snapshot.schema_version, 1);
    assert_eq!(snapshot.node_count, tree.node_count());
    assert_eq!(snapshot.nodes.len(), tree.node_count());

    let root = &snapshot.nodes[0];
    assert_eq!(root.node_id, 0);
    assert_eq!(root.state_key, 0);
    assert_eq!(root.edges.len(), 1);

    let edge = &root.edges[0];
    assert_eq!(edge.action_id, 0);
    assert_eq!(edge.visits, 2);
    assert_eq!(edge.outcomes.len(), 1);
    assert_eq!(edge.outcomes[0].next_state_key, 1);
    assert_eq!(edge.outcomes[0].count, 2);

    let json = tree.snapshot_json();
    assert!(json.contains("\"schema_version\":1"));
}
