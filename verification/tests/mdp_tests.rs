use weavetree::compiled::StateKey;
use weavetree::domain::SearchDomain;
use weavetree::mdp_error::MdpError;
use weavetree::schema::{ActionSpec, MdpSpec, OutcomeSpec, StateSpec};
use weavetree::simulator::MdpSimulator;
use weavetree::{ActionId, ReturnType, SearchConfig, StateKey as CoreStateKey, Tree};

fn outcome(next: &str, prob: i64, reward: i64) -> OutcomeSpec {
    OutcomeSpec {
        next: String::from(next),
        prob,
        reward,
    }
}

fn action(id: &str, outcomes: Vec<OutcomeSpec>) -> ActionSpec {
    ActionSpec {
        id: String::from(id),
        outcomes,
    }
}

fn state(id: &str, terminal: Option<bool>, actions: Option<Vec<ActionSpec>>) -> StateSpec {
    StateSpec {
        id: String::from(id),
        terminal,
        actions,
    }
}

/// The schema a YAML file would declare: start `s0`; `s0` has action `a0`
/// with outcomes `s1` (probability 0.7, reward 1.0) and `s0` (probability
/// 0.3, reward 0.0), and action `a1` with outcome `s2` (probability 1.0,
/// reward -0.2); `s1` is terminal; `s2` has no actions.
fn valid_mdp_spec() -> MdpSpec {
    MdpSpec {
        version: Some(1),
        start: String::from("s0"),
        states: vec![
            state(
                "s0",
                Some(false),
                Some(vec![
                    action(
                        "a0",
                        vec![outcome("s1", 700_000, 1_000_000), outcome("s0", 300_000, 0)],
                    ),
                    action("a1", vec![outcome("s2", 1_000_000, -200_000)]),
                ]),
            ),
            state("s1", Some(true), None),
            state("s2", None, Some(vec![])),
        ],
    }
}

#[test]
fn yaml_parse_and_compile_success() {
    let spec = valid_mdp_spec();
    let compiled = spec.compile().expect("compile should succeed");
    let start = compiled.start();

    assert_eq!(compiled.state_count(), 3);
    assert_eq!(start.index(), 0);
    assert_eq!(compiled.state_id(start).map(String::as_str), Some("s0"));
}

#[test]
fn validation_fails_for_probability_sum() {
    let spec = MdpSpec {
        version: None,
        start: String::from("s0"),
        states: vec![state(
            "s0",
            None,
            Some(vec![action("a0", vec![outcome("s0", 900_000, 1_000_000)])]),
        )],
    };

    let err = spec.compile().expect_err("compile should fail");
    assert!(matches!(err, MdpError::ProbabilitySum { .. }));
}

#[test]
fn validation_fails_for_unknown_state_reference() {
    let spec = MdpSpec {
        version: None,
        start: String::from("s0"),
        states: vec![state(
            "s0",
            None,
            Some(vec![action("a0", vec![outcome("missing", 1_000_000, 1_000_000)])]),
        )],
    };

    let err = spec.compile().expect_err("compile should fail");
    assert!(matches!(err, MdpError::UnknownNextState { .. }));
}

#[test]
fn sampling_is_deterministic_for_fixed_seed() {
    let spec = MdpSpec {
        version: None,
        start: String::from("s0"),
        states: vec![
            state(
                "s0",
                None,
                Some(vec![action(
                    "a0",
                    vec![outcome("s0", 600_000, 0), outcome("s1", 400_000, 1_000_000)],
                )]),
            ),
            state("s1", Some(true), None),
        ],
    };
    let compiled = spec.compile().expect("compile should succeed");

    let mut sim_a = MdpSimulator::new(compiled.clone(), 42);
    let mut sim_b = MdpSimulator::new(compiled, 42);

    let mut trace_a = Vec::new();
    let mut trace_b = Vec::new();

    for _ in 0..20 {
        trace_a.push(sim_a.step(StateKey::from(0usize), 0));
        trace_b.push(sim_b.step(StateKey::from(0usize), 0));
    }

    assert_eq!(trace_a, trace_b);
}

struct SimulatorDomain {
    simulator: MdpSimulator,
}

impl SearchDomain for SimulatorDomain {
    fn num_actions(&mut self, state: CoreStateKey) -> usize {
        self.simulator.num_actions(StateKey::from(state.value() as usize))
    }

    fn step(&mut self, state: CoreStateKey, action: ActionId) -> (CoreStateKey, i64, bool) {
        let (next, reward, terminal) = self
            .simulator
            .step(StateKey::from(state.value() as usize), action.index());
        (CoreStateKey::from(next.index() as u64), reward, terminal)
    }

    fn rollout_policy(&mut self, _state: CoreStateKey, _num_actions: usize) -> ActionId {
        ActionId::from(0usize)
    }
}

#[test]
fn mcts_prefers_higher_expected_reward_action() {
    let spec = MdpSpec {
        version: None,
        start: String::from("s0"),
        states: vec![
            state(
                "s0",
                None,
                Some(vec![
                    action("a0", vec![outcome("s1", 1_000_000, 1_000_000)]),
                    action("a1", vec![outcome("s2", 1_000_000, 5_000_000)]),
                ]),
            ),
            state("s1", Some(true), None),
            state("s2", Some(true), None),
        ],
    };
    let compiled = spec.compile().expect("compile should succeed");
    let start = compiled.start();

    let mut tree = Tree::new(CoreStateKey::from(start.index() as u64), false);
    let config = SearchConfig {
        iterations: 20,
        c: 0,
        gamma: 1_000_000,
        max_steps: 2,
        return_type: ReturnType::Discounted,
        fixed_horizon_steps: 2,
    };
    let mut domain = SimulatorDomain {
        simulator: MdpSimulator::new(compiled, 7),
    };

    let run = tree.run(&config, &mut domain).expect("run should succeed");

    assert_eq!(run.iterations_completed, config.iterations);

    let best = tree
        .best_root_action_by_value()
        .expect("lookup should succeed")
        .expect("action should exist");

    assert_eq!(best.index(), 1);
}

#[test]
fn compiled_lookup_round_trips_state_ids() {
    let spec = valid_mdp_spec();
    let compiled = spec.compile().expect("compile should succeed");
    let key = compiled.state_key(&String::from("s2")).expect("s2 exists");
    assert_eq!(key.index(), 2);
    assert_eq!(compiled.state_id(key).map(String::as_str), Some("s2"));
    assert_eq!(compiled.state_key(&String::from("s9")), None);
    assert_eq!(compiled.is_terminal(key), Some(false));
    assert_eq!(compiled.num_actions(StateKey::from(0usize)), Some(2));
}

#[test]
fn simulator_drives_search_directly() {
    let spec = MdpSpec {
        version: None,
        start: String::from("s0"),
        states: vec![
            state(
                "s0",
                None,
                Some(vec![action("a0", vec![outcome("s1", 1_000_000, 3_000_000)])]),
            ),
            state("s1", Some(true), None),
        ],
    };
    let compiled = spec.compile().expect("compile should succeed");
    let start = compiled.start();

    let mut tree = Tree::new(CoreStateKey::from(start.index() as u64), false);
    let config = SearchConfig {
        iterations: 8,
        c: 1_400_000,
        gamma: 1_000_000,
        max_steps: 4,
        return_type: ReturnType::Discounted,
        fixed_horizon_steps: 4,
    };
    let mut domain = MdpSimulator::new(compiled, 11);

    let run = tree.run(&config, &mut domain).expect("run should succeed");
    assert_eq!(run.iterations_completed, 8);

    // The lone root action is traversed exactly once per iteration.
    let root = tree.node(tree.root_id()).expect("root exists");
    let root_edge = root.edge(ActionId::from(0usize)).expect("root action exists");
    assert_eq!(root_edge.visits(), 8);

    let best = tree
        .best_root_action_by_visits()
        .expect("lookup should succeed")
        .expect("action should exist");
    assert_eq!(best.index(), 0);
}
