use weavetree::builder::MdpBuilder;
use weavetree::domain::{MdpDomain, SearchDomain};
use weavetree::fixed::{fx_mul_i64, isqrt_u128, ln_fx_u64, sat_add_i64, tdiv_i64};
use weavetree::interner::StateInterner;
use weavetree::mcts::SearchConfigError;
use weavetree::mdp_error::MdpError;
use weavetree::schema::{ActionSpec, MdpSpec, OutcomeSpec, StateSpec};
use weavetree::compiled::StateKey as Key;
use weavetree::simulator::DomainSimulator;
use weavetree::stats::EdgeStats;
use weavetree::text::{i64_to_string, micros_to_string, u64_to_string};
use weavetree::{ActionId, NodeId, ReturnType, SearchConfig, StateKey, Tree};

#[test]
fn fixed_point_arithmetic_matches_expected_values() {
    // 1.5 * 2.0 == 3.0 in micro-units.
    assert_eq!(fx_mul_i64(1_500_000, 2_000_000), 3_000_000);
    // Multiplying by one is exact, also for negatives.
    assert_eq!(fx_mul_i64(1_000_000, -700_000), -700_000);
    // Truncation is toward zero.
    assert_eq!(fx_mul_i64(1, 1), 0);
    assert_eq!(tdiv_i64(-7, 2), -3);
    assert_eq!(tdiv_i64(7, 2), 3);
    // Saturation at the range ends.
    assert_eq!(sat_add_i64(i64::MAX, 1), i64::MAX);
    assert_eq!(sat_add_i64(i64::MIN, -1), i64::MIN);
    // Exact integer square roots.
    assert_eq!(isqrt_u128(0), 0);
    assert_eq!(isqrt_u128(1), 1);
    assert_eq!(isqrt_u128(99), 9);
    assert_eq!(isqrt_u128(100), 10);
    // The fixed-point logarithm is exact at powers of two.
    assert_eq!(ln_fx_u64(1), 0);
    assert_eq!(ln_fx_u64(2), 693_147);
    assert_eq!(ln_fx_u64(4), 2 * 693_147);
}

#[test]
fn q_is_exactly_value_sum_over_visits() {
    let mut stats = EdgeStats::new();
    assert_eq!(stats.q().num, 0);
    assert_eq!(stats.q().den, 1);

    stats.record(1_000_000);
    stats.record(2_000_000);
    let q = stats.q();
    assert_eq!(q.num, 3_000_000);
    assert_eq!(q.den, 2);
}

#[test]
fn config_validation_reports_each_field() {
    let good = SearchConfig::default();
    assert!(good.validate().is_ok());

    let bad = SearchConfig { iterations: 0, ..good };
    assert!(matches!(bad.validate(), Err(SearchConfigError::Invalid(_))));
    let bad = SearchConfig { c: -1, ..good };
    assert!(matches!(bad.validate(), Err(SearchConfigError::Invalid(_))));
    let bad = SearchConfig { gamma: -1, ..good };
    assert!(matches!(bad.validate(), Err(SearchConfigError::Invalid(_))));
    let bad = SearchConfig { max_steps: 0, ..good };
    assert!(matches!(bad.validate(), Err(SearchConfigError::Invalid(_))));
    let bad = SearchConfig { fixed_horizon_steps: 0, ..good };
    assert!(matches!(bad.validate(), Err(SearchConfigError::Invalid(_))));
}

#[test]
fn interner_assigns_dense_keys_in_first_seen_order() {
    let mut interner = StateInterner::new();
    assert!(interner.is_empty());
    assert_eq!(interner.intern(String::from("alpha")), 0);
    assert_eq!(interner.intern(String::from("beta")), 1);
    assert_eq!(interner.intern(String::from("alpha")), 0);
    assert_eq!(interner.len(), 2);
    assert_eq!(interner.key_of(&String::from("beta")), Some(1));
    assert_eq!(interner.key_of(&String::from("gamma")), None);
    assert_eq!(interner.get(1).map(String::as_str), Some("beta"));
    assert_eq!(interner.get(2), None);
}

#[test]
fn builder_constructs_and_validates_schemas() {
    let mut builder = MdpBuilder::new();
    builder.set_start(String::from("s0"));
    builder.add_state(String::from("s0"), false);
    builder.add_state(String::from("s1"), true);
    builder
        .add_action(&String::from("s0"), String::from("go"))
        .expect("state s0 exists");
    builder
        .add_outcome(&String::from("s0"), &String::from("go"), String::from("s1"), 1_000_000, 2_000_000)
        .expect("action go exists");
    let spec = builder.build_spec().expect("schema should validate");
    assert_eq!(spec.version, Some(1));
    assert_eq!(spec.states.len(), 2);

    let mut missing = MdpBuilder::new();
    missing.add_state(String::from("s0"), false);
    assert!(matches!(missing.clone().build_spec(), Err(MdpError::MissingStart)));
    assert!(matches!(
        missing.add_action(&String::from("nowhere"), String::from("a")),
        Err(MdpError::BuilderUnknownState { .. })
    ));
}

#[test]
fn builder_rejects_unknown_action() {
    let mut builder = MdpBuilder::new();
    builder.add_state(String::from("s0"), false);
    assert!(matches!(
        builder.add_outcome(&String::from("s0"), &String::from("a"), String::from("s0"), 1_000_000, 0),
        Err(MdpError::BuilderUnknownAction { .. })
    ));
}

#[test]
fn decimal_rendering_matches_expected_text() {
    assert_eq!(u64_to_string(0).as_str(), "0");
    assert_eq!(u64_to_string(1234567890).as_str(), "1234567890");
    assert_eq!(i64_to_string(-42).as_str(), "-42");
    assert_eq!(micros_to_string(1_400_000).as_str(), "1.400000");
    assert_eq!(micros_to_string(-200_000).as_str(), "-0.200000");
    assert_eq!(micros_to_string(0).as_str(), "0.000000");
}

struct SingleArm;

impl SearchDomain for SingleArm {
    fn num_actions(&mut self, state: StateKey) -> usize {
        if state.value() == 0 {
            1
        } else {
            0
        }
    }

    fn step(&mut self, state: StateKey, _action: ActionId) -> (StateKey, i64, bool) {
        if state.value() == 0 {
            (StateKey::from(1u64), 1_500_000, true)
        } else {
            (state, 0, true)
        }
    }

    fn rollout_policy(&mut self, _state: StateKey, _num_actions: usize) -> ActionId {
        ActionId::from(0usize)
    }
}

#[test]
fn snapshot_json_round_trips_counts_and_sums() {
    let mut tree = Tree::new(StateKey::from(0u64), false);
    let config = SearchConfig {
        iterations: 3,
        c: 0,
        gamma: 1_000_000,
        max_steps: 2,
        return_type: ReturnType::Discounted,
        fixed_horizon_steps: 2,
    };
    let mut domain = SingleArm;
    tree.run(&config, &mut domain).expect("run should succeed");

    let json = tree.snapshot_json();
    let value: serde_json::Value = serde_json::from_str(&json).expect("snapshot JSON parses");

    assert_eq!(value.get("schema_version").and_then(serde_json::Value::as_u64), Some(1));
    assert_eq!(value.get("node_count").and_then(serde_json::Value::as_u64), Some(2));
    let nodes = value.get("nodes").and_then(serde_json::Value::as_array).expect("nodes array");
    assert_eq!(nodes.len(), 2);
    let root_edges = nodes[0].get("edges").and_then(serde_json::Value::as_array).expect("edges");
    assert_eq!(root_edges.len(), 1);
    assert_eq!(
        root_edges[0].get("visits").and_then(serde_json::Value::as_u64),
        Some(3)
    );
    // Three backpropagated returns of 1.5 each.
    assert_eq!(
        root_edges[0].get("value_sum").and_then(serde_json::Value::as_f64),
        Some(4.5)
    );
    let outcomes = root_edges[0]
        .get("outcomes")
        .and_then(serde_json::Value::as_array)
        .expect("outcomes");
    assert_eq!(outcomes[0].get("count").and_then(serde_json::Value::as_u64), Some(3));
}

struct ParityDomain;

impl MdpDomain for ParityDomain {
    fn start_state(&self) -> String {
        String::from("even")
    }

    fn is_terminal(&self, state: &String) -> bool {
        state.as_str() == "done"
    }

    fn num_actions(&self, state: &String) -> usize {
        if state.as_str() == "done" {
            0
        } else {
            1
        }
    }

    fn step(&self, state: &String, _action_id: usize, _sample: u64) -> (String, i64, bool) {
        match state.as_str() {
            "even" => (String::from("odd"), 1_000_000, false),
            "odd" => (String::from("done"), 0, true),
            _ => (state.clone(), 0, true),
        }
    }
}

#[test]
fn domain_simulator_interns_tokens_as_dense_keys() {
    let mut simulator = DomainSimulator::new(ParityDomain, 5);
    assert_eq!(simulator.start_state_key(), 0);
    assert!(!simulator.is_terminal_by_key(0));
    assert_eq!(simulator.num_actions_by_key(0), 1);

    let (next, reward, terminal) = simulator.step_by_key(0, 0);
    assert_eq!(next, 1);
    assert_eq!(reward, 1_000_000);
    assert!(!terminal);
    assert_eq!(simulator.state_for_key(1).map(String::as_str), Some("odd"));

    let (done, _, terminal) = simulator.step_by_key(1, 0);
    assert_eq!(done, 2);
    assert!(terminal);
    assert!(simulator.is_terminal_by_key(2));
}

#[test]
fn sample_transition_picks_first_reaching_outcome() {
    let spec = MdpSpec {
        version: None,
        start: String::from("s0"),
        states: vec![
            StateSpec {
                id: String::from("s0"),
                terminal: None,
                actions: Some(vec![ActionSpec {
                    id: String::from("a0"),
                    outcomes: vec![
                        OutcomeSpec { next: String::from("s1"), prob: 600_000, reward: 0 },
                        OutcomeSpec { next: String::from("s2"), prob: 400_000, reward: 1_000_000 },
                    ],
                }]),
            },
            StateSpec { id: String::from("s1"), terminal: Some(true), actions: None },
            StateSpec { id: String::from("s2"), terminal: Some(true), actions: None },
        ],
    };
    let compiled = spec.compile().expect("compile should succeed");

    // A sample of zero falls below the first cumulative bound.
    let low = compiled.sample_transition(Key::from(0usize), 0, 0);
    assert_eq!(low, Some((Key::from(1usize), 0, true)));

    // A sample close to one falls past the first bound into the second.
    let high = compiled.sample_transition(Key::from(0usize), 0, u64::MAX);
    assert_eq!(high, Some((Key::from(2usize), 1_000_000, true)));

    // Terminal states absorb with zero reward.
    let absorbed = compiled.sample_transition(Key::from(1usize), 0, 0);
    assert_eq!(absorbed, Some((Key::from(1usize), 0, true)));

    // Unknown states and actions yield no transition.
    assert_eq!(compiled.sample_transition(Key::from(9usize), 0, 0), None);
    assert_eq!(compiled.sample_transition(Key::from(0usize), 7, 0), None);
}

#[test]
fn tree_error_messages_render_their_ids() {
    let missing = weavetree::TreeError::MissingNode { node_id: weavetree::NodeId::from(4usize) };
    assert_eq!(missing.message().as_str(), "missing node with id 4");

    let invalid = weavetree::TreeError::InvalidRolloutAction {
        state_key: StateKey::from(3u64),
        action_id: ActionId::from(99usize),
        num_actions: 1,
    };
    assert_eq!(
        invalid.message().as_str(),
        "rollout policy selected invalid action 99 for state 3 with 1 actions"
    );
}

#[test]
fn run_log_text_line_formats_micros_to_six_decimals() {
    let config = SearchConfig {
        iterations: 2,
        c: 1_400_000,
        gamma: 1_000_000,
        max_steps: 8,
        return_type: ReturnType::Discounted,
        fixed_horizon_steps: 8,
    };
    let line = weavetree::RunLogEvent::run_started(&config).to_text_line();
    assert_eq!(
        line.as_str(),
        "run_started iterations_requested=2 c=1.400000 gamma=1.000000 max_steps=8 \
         return_type=discounted fixed_horizon_steps=8"
    );
}

#[test]
fn grown_tree_links_children_back_to_parents() {
    let mut tree = Tree::new(StateKey::from(0u64), false);
    let config = SearchConfig {
        iterations: 6,
        c: 1_400_000,
        gamma: 1_000_000,
        max_steps: 4,
        return_type: ReturnType::Discounted,
        fixed_horizon_steps: 4,
    };
    struct Ladder;
    impl SearchDomain for Ladder {
        fn num_actions(&mut self, state: StateKey) -> usize {
            if state.value() < 3 {
                2
            } else {
                0
            }
        }

        fn step(&mut self, state: StateKey, action: ActionId) -> (StateKey, i64, bool) {
            let next = state.value() + 1 + action.index() as u64;
            (StateKey::from(next), 1_000_000, next >= 3)
        }

        fn rollout_policy(&mut self, _state: StateKey, _num_actions: usize) -> ActionId {
            ActionId::from(0usize)
        }
    }
    let mut domain = Ladder;
    tree.run(&config, &mut domain).expect("run should succeed");

    // Every non-root node points back to a parent edge whose outcome set
    // maps the child's fingerprint to the child's id, one level up.
    assert!(tree.node_count() > 1);
    for id in 1..tree.node_count() {
        let node = tree.node(NodeId::from(id)).expect("node exists");
        let (parent_id, action_id) = node.parent().expect("non-root has a parent");
        let parent = tree.node(parent_id).expect("parent exists");
        assert_eq!(node.depth(), parent.depth() + 1);
        let edge = parent.edge(action_id).expect("parent edge exists");
        assert_eq!(edge.get_child_for(node.state_key()), Some(NodeId::from(id)));
    }
}
