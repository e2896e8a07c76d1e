use weavetree::domain::SearchDomain;
use weavetree::rollout::{rollout, RolloutParams};
use weavetree::{ActionId, ReturnType, StateKey};

struct TwoStepDomain;

impl SearchDomain for TwoStepDomain {
    fn num_actions(&mut self, state: StateKey) -> usize {
        match state.value() {
            0 | 1 => 1,
            _ => 0,
        }
    }

    fn step(&mut self, state: StateKey, _action: ActionId) -> (StateKey, i64, bool) {
        match state.value() {
            0 => (StateKey::from(1u64), 2_000_000, false),
            1 => (StateKey::from(2u64), 4_000_000, true),
            _ => (state, 0, true),
        }
    }

    fn rollout_policy(&mut self, _state: StateKey, _num_actions: usize) -> ActionId {
        ActionId::from(0usize)
    }
}

#[test]
fn return_modes_are_applied_correctly() {
    let mut domain = TwoStepDomain;
    let discounted = rollout(
        StateKey::from(0u64),
        &mut domain,
        RolloutParams {
            return_type: ReturnType::Discounted,
            gamma: 500_000,
            max_steps: 8,
            fixed_horizon_steps: 8,
        },
    )
    .expect("discounted rollout should succeed");
    assert_eq!(discounted, 4_000_000);

    let mut domain = TwoStepDomain;
    let episodic = rollout(
        StateKey::from(0u64),
        &mut domain,
        RolloutParams {
            return_type: ReturnType::EpisodicUndiscounted,
            gamma: 500_000,
            max_steps: 8,
            fixed_horizon_steps: 8,
        },
    )
    .expect("episodic rollout should succeed");
    assert_eq!(episodic, 6_000_000);

    let mut domain = TwoStepDomain;
    let fixed_horizon = rollout(
        StateKey::from(0u64),
        &mut domain,
        RolloutParams {
            return_type: ReturnType::FixedHorizon,
            gamma: 500_000,
            max_steps: 8,
            fixed_horizon_steps: 1,
        },
    )
    .expect("fixed horizon rollout should succeed");
    assert_eq!(fixed_horizon, 2_000_000);
}

#[test]
fn discounted_with_gamma_one_matches_episodic() {
    let params_discounted = RolloutParams {
        return_type: ReturnType::Discounted,
        gamma: 1_000_000,
        max_steps: 8,
        fixed_horizon_steps: 8,
    };
    let params_episodic = RolloutParams {
        return_type: ReturnType::EpisodicUndiscounted,
        gamma: 1_000_000,
        max_steps: 8,
        fixed_horizon_steps: 8,
    };
    let mut domain = TwoStepDomain;
    let discounted = rollout(StateKey::from(0u64), &mut domain, params_discounted)
        .expect("discounted rollout should succeed");
    let mut domain = TwoStepDomain;
    let episodic = rollout(StateKey::from(0u64), &mut domain, params_episodic)
        .expect("episodic rollout should succeed");
    assert_eq!(discounted, episodic);
    assert_eq!(discounted, 6_000_000);
}

#[test]
fn fixed_horizon_step_limit_is_the_smaller_bound() {
    let params = RolloutParams {
        return_type: ReturnType::FixedHorizon,
        gamma: 1_000_000,
        max_steps: 128,
        fixed_horizon_steps: 32,
    };
    assert_eq!(params.step_limit(), 32);

    let params = RolloutParams {
        return_type: ReturnType::FixedHorizon,
        gamma: 1_000_000,
        max_steps: 16,
        fixed_horizon_steps: 32,
    };
    assert_eq!(params.step_limit(), 16);

    let params = RolloutParams {
        return_type: ReturnType::Discounted,
        gamma: 1_000_000,
        max_steps: 128,
        fixed_horizon_steps: 32,
    };
    assert_eq!(params.step_limit(), 128);
}
