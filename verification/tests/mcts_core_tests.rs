use weavetree::domain::SearchDomain;
use weavetree::{ActionId, ReturnType, SearchConfig, StateKey, Tree};

struct ChainDomain;

impl SearchDomain for ChainDomain {
    fn num_actions(&mut self, state: StateKey) -> usize {
        match state.value() {
            0 | 1 => 1,
            _ => 0,
        }
    }

    fn step(&mut self, state: StateKey, _action: ActionId) -> (StateKey, i64, bool) {
        match state.value() {
            0 => (StateKey::from(1u64), 1_000_000, false),
            1 => (StateKey::from(2u64), 2_000_000, true),
            _ => (state, 0, true),
        }
    }

    fn rollout_policy(&mut self, _state: StateKey, _num_actions: usize) -> ActionId {
        ActionId::from(0usize)
    }
}

#[test]
fn deterministic_iterations_backpropagate_visits() {
    let mut tree = Tree::new(StateKey::from(0u64), false);
    let config = SearchConfig {
        iterations: 2,
        c: 1_400_000,
        gamma: 1_000_000,
        max_steps: 8,
        return_type: ReturnType::Discounted,
        fixed_horizon_steps: 8,
    };
    let mut domain = ChainDomain;

    let _ = tree
        .iterate(&config, &mut domain)
        .expect("first iteration should succeed");
    let _ = tree
        .iterate(&config, &mut domain)
        .expect("second iteration should succeed");

    let root = tree.node(tree.root_id()).expect("root exists");
    let root_edge = root.edge(ActionId::from(0usize)).expect("root action exists");
    assert_eq!(root_edge.visits(), 2);

    let child_id = root_edge
        .get_child_for(StateKey::from(1u64))
        .expect("child should exist for state 1");
    let child = tree.node(child_id).expect("child exists");
    let child_edge = child.edge(ActionId::from(0usize)).expect("child action exists");
    assert_eq!(child_edge.visits(), 1);
}

struct CyclingDomain {
    sequence: Vec<u64>,
    position: usize,
}

impl SearchDomain for CyclingDomain {
    fn num_actions(&mut self, state: StateKey) -> usize {
        match state.value() {
            0 => 1,
            _ => 0,
        }
    }

    fn step(&mut self, state: StateKey, _action: ActionId) -> (StateKey, i64, bool) {
        if state.value() == 0 {
            let next_state = self.sequence[self.position];
            self.position += 1;
            (StateKey::from(next_state), 0, true)
        } else {
            (state, 0, true)
        }
    }

    fn rollout_policy(&mut self, _state: StateKey, _num_actions: usize) -> ActionId {
        ActionId::from(0usize)
    }
}

#[test]
fn stochastic_transitions_create_distinct_outcomes_and_count_occurrences() {
    let mut tree = Tree::new(StateKey::from(0u64), false);
    let config = SearchConfig {
        iterations: 3,
        c: 1_400_000,
        gamma: 1_000_000,
        max_steps: 4,
        return_type: ReturnType::Discounted,
        fixed_horizon_steps: 4,
    };
    let mut domain = CyclingDomain {
        sequence: vec![1, 2, 1],
        position: 0,
    };

    for _ in 0..3 {
        let _ = tree
            .iterate(&config, &mut domain)
            .expect("iteration should succeed");
    }

    let root = tree.node(tree.root_id()).expect("root exists");
    let edge = root.edge(ActionId::from(0usize)).expect("action 0 exists");

    assert_eq!(edge.outcomes_len(), 2);
    assert_eq!(edge.outcome_count_for(StateKey::from(1u64)), Some(2));
    assert_eq!(edge.outcome_count_for(StateKey::from(2u64)), Some(1));
    assert_eq!(tree.node_count(), 3);
}

#[test]
fn default_config_is_valid() {
    let config = SearchConfig::default();
    assert_eq!(config.return_type, ReturnType::Discounted);
    assert!(config.iterations > 0);
    assert!(config.validate().is_ok());
}
