use std::collections::HashMap;

use weavetree::outcomes::OutcomeSet;
use weavetree::{NodeId, StateKey};

#[test]
fn outcome_set_bookkeeping_matches_observed_frequencies() {
    // A fixed observation sequence with repeats, covering first sightings,
    // re-sightings, and interleavings of eight distinct keys.
    let sequence: Vec<u8> = vec![
        3, 1, 4, 1, 5, 2, 6, 5, 3, 5, 0, 7, 1, 2, 3, 4, 5, 6, 7, 0, 0, 1, 3, 3, 3, 2, 7, 6, 4, 5,
        1, 0, 2, 7, 4, 6, 5, 3, 1, 2,
    ];
    let mut set = OutcomeSet::new();
    let mut expected_counts: HashMap<u64, u64> = HashMap::new();

    for (idx, raw_key) in sequence.iter().copied().enumerate() {
        let state_key = StateKey::from(raw_key as u64);
        let entry = expected_counts.entry(state_key.value()).or_insert(0);
        *entry += 1;

        if set.get_child_for(state_key).is_some() {
            let child = set.increment_outcome(state_key);
            assert!(child.is_some());
        } else {
            let inserted = set.insert_outcome(state_key, NodeId::from(idx));
            assert!(inserted.is_some());
        }
    }

    assert_eq!(set.len(), expected_counts.len());

    for (raw_key, count) in expected_counts {
        let state_key = StateKey::from(raw_key);
        assert_eq!(set.count_for(state_key), Some(count));
    }
}

#[test]
fn duplicate_outcome_insert_is_rejected() {
    let mut set = OutcomeSet::new();
    assert_eq!(
        set.insert_outcome(StateKey::from(7u64), NodeId::from(1usize)),
        Some(NodeId::from(1usize))
    );
    assert_eq!(set.insert_outcome(StateKey::from(7u64), NodeId::from(2usize)), None);
    assert_eq!(set.len(), 1);
    assert_eq!(set.get_child_for(StateKey::from(7u64)), Some(NodeId::from(1usize)));
}

#[test]
fn increment_unknown_outcome_returns_none() {
    let mut set = OutcomeSet::new();
    assert_eq!(set.increment_outcome(StateKey::from(9u64)), None);
    assert_eq!(set.count_for(StateKey::from(9u64)), None);
}
