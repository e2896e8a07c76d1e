use weavetree::domain::SearchDomain;
use weavetree::{ActionId, ReturnType, SearchConfig, StateKey, Tree};

struct TwoArmDomain;

impl SearchDomain for TwoArmDomain {
    fn num_actions(&mut self, state: StateKey) -> usize {
        if state.value() == 0 {
            2
        } else {
            0
        }
    }

    fn step(&mut self, state: StateKey, action: ActionId) -> (StateKey, i64, bool) {
        if state.value() != 0 {
            return (state, 0, true);
        }
        if action.index() == 0 {
            (StateKey::from(1u64), 1_000_000, true)
        } else {
            (StateKey::from(2u64), 5_000_000, true)
        }
    }

    fn rollout_policy(&mut self, _state: StateKey, _num_actions: usize) -> ActionId {
        ActionId::from(0usize)
    }
}

#[test]
fn public_run_prefers_higher_value_root_action() {
    let mut tree = Tree::new(StateKey::from(0u64), false);
    let config = SearchConfig {
        iterations: 20,
        c: 0,
        gamma: 1_000_000,
        max_steps: 4,
        return_type: ReturnType::Discounted,
        fixed_horizon_steps: 4,
    };
    let mut domain = TwoArmDomain;

    let run = tree.run(&config, &mut domain).expect("run should succeed");

    assert_eq!(run.iterations_completed, config.iterations);

    let best_by_visits = tree
        .best_root_action_by_visits()
        .expect("root action lookup should succeed")
        .expect("an action should be available");
    let best_by_value = tree
        .best_root_action_by_value()
        .expect("root action lookup should succeed")
        .expect("an action should be available");

    assert_eq!(best_by_visits.index(), 1);
    assert_eq!(best_by_value.index(), 1);
}

struct EqualArmsDomain;

impl SearchDomain for EqualArmsDomain {
    fn num_actions(&mut self, state: StateKey) -> usize {
        if state.value() == 0 {
            3
        } else {
            0
        }
    }

    fn step(&mut self, state: StateKey, action: ActionId) -> (StateKey, i64, bool) {
        if state.value() != 0 {
            return (state, 0, true);
        }
        (StateKey::from(1 + action.index() as u64), 2_000_000, true)
    }

    fn rollout_policy(&mut self, _state: StateKey, _num_actions: usize) -> ActionId {
        ActionId::from(0usize)
    }
}

#[test]
fn root_selectors_break_ties_by_smallest_action_index() {
    let mut tree = Tree::new(StateKey::from(0u64), false);
    // Three identical arms, visited equally often: every edge ends with
    // the same visit count and the same mean value.
    let config = SearchConfig {
        iterations: 9,
        c: 1_400_000,
        gamma: 1_000_000,
        max_steps: 4,
        return_type: ReturnType::Discounted,
        fixed_horizon_steps: 4,
    };
    let mut domain = EqualArmsDomain;
    tree.run(&config, &mut domain).expect("run should succeed");

    let root = tree.node(tree.root_id()).expect("root exists");
    let visits0 = root.edge(ActionId::from(0usize)).expect("edge 0").visits();
    let visits1 = root.edge(ActionId::from(1usize)).expect("edge 1").visits();
    let visits2 = root.edge(ActionId::from(2usize)).expect("edge 2").visits();
    assert_eq!(visits0, 3);
    assert_eq!(visits1, 3);
    assert_eq!(visits2, 3);

    let best_by_visits = tree
        .best_root_action_by_visits()
        .expect("lookup should succeed")
        .expect("an action should exist");
    let best_by_value = tree
        .best_root_action_by_value()
        .expect("lookup should succeed")
        .expect("an action should exist");
    assert_eq!(best_by_visits.index(), 0);
    assert_eq!(best_by_value.index(), 0);
}
