//! Bounded default-policy rollouts and their return modes.

use vstd::prelude::*;

use crate::domain::{FallibleSearchDomain, SearchDomain};
use crate::error::TreeError;
use crate::fixed::{fx_mul, fx_mul_i64, sat_add, sat_add_i64, SCALE};
use crate::ids::StateKey;
use crate::mcts::RunError;

verus! {

/// How rollout rewards are aggregated into a return.
#[derive(Debug, Clone, Copy, PartialEq, Eq, Structural)]
pub enum ReturnType {
    /// Sum raw rewards until a terminal state or the rollout limit.
    EpisodicUndiscounted,
    /// Sum rewards discounted by successive powers of `gamma`.
    Discounted,
    /// Sum raw rewards, but clamp the rollout to a strict fixed horizon.
    FixedHorizon,
}

impl Default for ReturnType {
    /// The default aggregation is the discounted return.
    fn default() -> (r: ReturnType)
        ensures
            r == ReturnType::Discounted,
    {
        ReturnType::Discounted
    }
}

/// Parameters controlling the shape and stopping rule of a rollout. The
/// discount factor `gamma` is a fixed-point micro-unit value.
#[derive(Debug, Clone, Copy, PartialEq, Eq, Structural)]
pub struct RolloutParams {
    pub return_type: ReturnType,
    pub gamma: i64,
    pub max_steps: usize,
    pub fixed_horizon_steps: usize,
}

impl RolloutParams {
    /// The number of environment steps a rollout may take at most.
    pub open spec fn step_limit_spec(self) -> int {
        if self.return_type == ReturnType::FixedHorizon {
            if self.fixed_horizon_steps < self.max_steps {
                self.fixed_horizon_steps as int
            } else {
                self.max_steps as int
            }
        } else {
            self.max_steps as int
        }
    }

    /// Resolve the step limit for the current return mode: a fixed-horizon
    /// rollout never exceeds the smaller of `max_steps` and
    /// `fixed_horizon_steps`; the other modes use `max_steps`.
    pub fn step_limit(&self) -> (r: usize)
        ensures
            r as int == self.step_limit_spec(),
            r <= self.max_steps,
            self.return_type == ReturnType::FixedHorizon ==> r <= self.fixed_horizon_steps,
    {
        match self.return_type {
            ReturnType::FixedHorizon => {
                if self.fixed_horizon_steps < self.max_steps {
                    self.fixed_horizon_steps
                } else {
                    self.max_steps
                }
            },
            ReturnType::Discounted | ReturnType::EpisodicUndiscounted => self.max_steps,
        }
    }
}

/// The running total after observing one more reward.
pub open spec fn step_total(mode: ReturnType, total: int, discount: int, reward: int) -> int {
    if mode == ReturnType::Discounted {
        sat_add(total, fx_mul(discount, reward))
    } else {
        sat_add(total, reward)
    }
}

/// The running discount after observing one more reward.
pub open spec fn step_discount(mode: ReturnType, discount: int, gamma: int) -> int {
    if mode == ReturnType::Discounted {
        fx_mul(discount, gamma)
    } else {
        discount
    }
}

/// The return accumulated over a whole reward trajectory, starting from a
/// given running total and discount.
pub open spec fn rollout_total(
    rewards: Seq<int>,
    mode: ReturnType,
    gamma: int,
    total: int,
    discount: int,
) -> int
    decreases rewards.len(),
{
    if rewards.len() == 0 {
        total
    } else {
        rollout_total(
            rewards.subrange(1, rewards.len() as int),
            mode,
            gamma,
            step_total(mode, total, discount, rewards[0]),
            step_discount(mode, discount, gamma),
        )
    }
}

/// The running discount left after a whole reward trajectory, starting
/// from a given discount.
pub open spec fn rollout_discount(
    rewards: Seq<int>,
    mode: ReturnType,
    gamma: int,
    discount: int,
) -> int
    decreases rewards.len(),
{
    if rewards.len() == 0 {
        discount
    } else {
        rollout_discount(
            rewards.subrange(1, rewards.len() as int),
            mode,
            gamma,
            step_discount(mode, discount, gamma),
        )
    }
}

/// Observing one more reward at the end of a trajectory advances the
/// accumulated return and the running discount by exactly one step.
pub proof fn lemma_rollout_push(
    rewards: Seq<int>,
    r: int,
    mode: ReturnType,
    gamma: int,
    total: int,
    discount: int,
)
    ensures
        rollout_total(rewards.push(r), mode, gamma, total, discount) == step_total(
            mode,
            rollout_total(rewards, mode, gamma, total, discount),
            rollout_discount(rewards, mode, gamma, discount),
            r,
        ),
        rollout_discount(rewards.push(r), mode, gamma, discount) == step_discount(
            mode,
            rollout_discount(rewards, mode, gamma, discount),
            gamma,
        ),
    decreases rewards.len(),
{
    let p = rewards.push(r);
    if rewards.len() == 0 {
        assert(p.len() == 1);
        assert(p[0] == r);
        assert(p.subrange(1, 1) =~= Seq::<int>::empty());
        assert(rollout_total(p, mode, gamma, total, discount) == rollout_total(
            p.subrange(1, 1),
            mode,
            gamma,
            step_total(mode, total, discount, r),
            step_discount(mode, discount, gamma),
        ));
        assert(rollout_discount(p, mode, gamma, discount) == rollout_discount(
            p.subrange(1, 1),
            mode,
            gamma,
            step_discount(mode, discount, gamma),
        ));
    } else {
        let tail = rewards.subrange(1, rewards.len() as int);
        let total1 = step_total(mode, total, discount, rewards[0]);
        let discount1 = step_discount(mode, discount, gamma);
        assert(p[0] == rewards[0]);
        assert(p.subrange(1, p.len() as int) =~= tail.push(r));
        lemma_rollout_push(tail, r, mode, gamma, total1, discount1);
        assert(rollout_total(p, mode, gamma, total, discount) == rollout_total(
            tail.push(r),
            mode,
            gamma,
            total1,
            discount1,
        ));
        assert(rollout_total(rewards, mode, gamma, total, discount) == rollout_total(
            tail,
            mode,
            gamma,
            total1,
            discount1,
        ));
        assert(rollout_discount(p, mode, gamma, discount) == rollout_discount(
            tail.push(r),
            mode,
            gamma,
            discount1,
        ));
        assert(rollout_discount(rewards, mode, gamma, discount) == rollout_discount(
            tail,
            mode,
            gamma,
            discount1,
        ));
    }
}

/// Multiplying by a discount of exactly one returns the reward unchanged.
pub proof fn lemma_fx_mul_one(r: int)
    requires
        i64::MIN <= r <= i64::MAX,
    ensures
        fx_mul(SCALE as int, r) == r,
{
    vstd::arithmetic::div_mod::lemma_div_multiples_vanish(r, SCALE as int);
    if r >= 0 {
        assert(fx_mul(SCALE as int, r) == r);
    } else {
        vstd::arithmetic::div_mod::lemma_div_multiples_vanish(-r, SCALE as int);
        assert((SCALE as int) * r == -((SCALE as int) * (-r))) by (nonlinear_arith);
        assert(fx_mul(SCALE as int, r) == r);
    }
}

/// With a discount factor of exactly one, the discounted return equals the
/// undiscounted episodic return, for every reward trajectory, every
/// starting total, and the same number of steps.
pub proof fn lemma_gamma_one_matches_episodic(rewards: Seq<int>, total: int)
    requires
        forall|i: int| 0 <= i < rewards.len() ==> i64::MIN <= #[trigger] rewards[i] <= i64::MAX,
    ensures
        rollout_total(rewards, ReturnType::Discounted, SCALE as int, total, SCALE as int)
            == rollout_total(
            rewards,
            ReturnType::EpisodicUndiscounted,
            SCALE as int,
            total,
            SCALE as int,
        ),
    decreases rewards.len(),
{
    if rewards.len() > 0 {
        lemma_fx_mul_one(rewards[0]);
        assert(fx_mul(SCALE as int, SCALE as int) == SCALE as int) by {
            lemma_fx_mul_one(SCALE as int);
        };
        let tail = rewards.subrange(1, rewards.len() as int);
        assert(forall|i: int|
            0 <= i < tail.len() ==> i64::MIN <= #[trigger] tail[i] <= i64::MAX);
        lemma_gamma_one_matches_episodic(
            tail,
            step_total(ReturnType::Discounted, total, SCALE as int, rewards[0]),
        );
    }
}

/// Advance the running total and discount by one observed reward, under
/// the given return mode.
pub fn accumulate_step(total: i64, discount: i64, reward: i64, gamma: i64, mode: ReturnType) -> (r:
    (i64, i64))
    ensures
        r.0 as int == step_total(mode, total as int, discount as int, reward as int),
        r.1 as int == step_discount(mode, discount as int, gamma as int),
{
    match mode {
        ReturnType::Discounted => (
            sat_add_i64(total, fx_mul_i64(discount, reward)),
            fx_mul_i64(discount, gamma),
        ),
        ReturnType::EpisodicUndiscounted | ReturnType::FixedHorizon => (
            sat_add_i64(total, reward),
            discount,
        ),
    }
}

/// A successful rollout result is the aggregated return of some reward
/// trajectory of at most `step_limit_spec` steps, folded from a total of
/// zero and a discount of one under the given parameters.
pub open spec fn rollout_result_accounted(t: i64, params: RolloutParams) -> bool {
    exists|rewards: Seq<int>|
        {
            &&& (#[trigger] rewards.len()) <= params.step_limit_spec()
            &&& (forall|i: int|
                0 <= i < rewards.len() ==> i64::MIN <= #[trigger] rewards[i] <= i64::MAX)
            &&& t as int == rollout_total(
                rewards,
                params.return_type,
                params.gamma as int,
                0,
                SCALE as int,
            )
        }
}

/// With a discount factor of exactly one, a successful discounted rollout
/// result is also accounted for as an undiscounted episodic rollout of the
/// same parameters: the two return modes agree on every trajectory.
pub proof fn lemma_gamma_one_result_accounted(t: i64, params: RolloutParams)
    requires
        params.gamma == SCALE,
        params.return_type == ReturnType::Discounted,
        rollout_result_accounted(t, params),
    ensures
        rollout_result_accounted(
            t,
            (RolloutParams { return_type: ReturnType::EpisodicUndiscounted, ..params }),
        ),
{
    let rewards = choose|rewards: Seq<int>|
        {
            &&& (#[trigger] rewards.len()) <= params.step_limit_spec()
            &&& (forall|i: int|
                0 <= i < rewards.len() ==> i64::MIN <= #[trigger] rewards[i] <= i64::MAX)
            &&& t as int == rollout_total(
                rewards,
                params.return_type,
                params.gamma as int,
                0,
                SCALE as int,
            )
        };
    lemma_gamma_one_matches_episodic(rewards, 0);
    let q = RolloutParams { return_type: ReturnType::EpisodicUndiscounted, ..params };
    assert(q.step_limit_spec() == params.step_limit_spec());
    assert(t as int == rollout_total(
        rewards,
        ReturnType::EpisodicUndiscounted,
        q.gamma as int,
        0,
        SCALE as int,
    ));
    assert(rollout_result_accounted(t, q));
}

/// Run a default-policy rollout from `start_state_key` with fallible
/// callbacks. The loop takes at most `params.step_limit()` environment
/// steps; it stops early at a state without actions or after a terminal
/// transition. Rewards are aggregated by `accumulate_step` under
/// `params.return_type`, starting from a total of zero and a discount of
/// one: a successful result is exactly `rollout_total` of the observed
/// reward trajectory, whose length never exceeds the step limit.
pub fn rollout_fallible<D: FallibleSearchDomain>(
    start_state_key: StateKey,
    domain: &mut D,
    params: RolloutParams,
) -> (r: Result<i64, RunError<D::Error>>)
    ensures
        r matches Err(RunError::Tree(e)) ==> e is InvalidRolloutAction,
        D::never_fails() ==> !(r matches Err(RunError::Callback(_))),
        r matches Ok(t) ==> rollout_result_accounted(t, params),
{
    let limit = params.step_limit();
    let mut state_key = start_state_key;
    let mut total: i64 = 0;
    let mut discount: i64 = SCALE;
    let mut steps: usize = 0;
    let ghost mut rewards: Seq<int> = Seq::<int>::empty();
    while steps < limit
        invariant
            steps <= limit,
            limit as int == params.step_limit_spec(),
            rewards.len() == steps as int,
            forall|i: int| 0 <= i < rewards.len() ==> i64::MIN <= #[trigger] rewards[i] <= i64::MAX,
            total as int == rollout_total(
                rewards,
                params.return_type,
                params.gamma as int,
                0,
                SCALE as int,
            ),
            discount as int == rollout_discount(
                rewards,
                params.return_type,
                params.gamma as int,
                SCALE as int,
            ),
        decreases limit - steps,
    {
        let action_count = match domain.num_actions(state_key) {
            Ok(v) => v,
            Err(e) => { return Err(RunError::Callback(e)); },
        };
        if action_count == 0 {
            break ;
        }
        let action_id = match domain.rollout_policy(state_key, action_count) {
            Ok(a) => a,
            Err(e) => { return Err(RunError::Callback(e)); },
        };
        if action_id.0 >= action_count {
            return Err(
                RunError::Tree(
                    TreeError::InvalidRolloutAction {
                        state_key,
                        action_id,
                        num_actions: action_count,
                    },
                ),
            );
        }
        let (next_state_key, reward, is_terminal) = match domain.step(state_key, action_id) {
            Ok(t) => t,
            Err(e) => { return Err(RunError::Callback(e)); },
        };
        let acc = accumulate_step(total, discount, reward, params.gamma, params.return_type);
        proof {
            lemma_rollout_push(
                rewards,
                reward as int,
                params.return_type,
                params.gamma as int,
                0,
                SCALE as int,
            );
            rewards = rewards.push(reward as int);
        }
        total = acc.0;
        discount = acc.1;
        state_key = next_state_key;
        steps = steps + 1;
        if is_terminal {
            break ;
        }
    }
    proof {
        assert(rewards.len() <= params.step_limit_spec());
        assert(total as int == rollout_total(
            rewards,
            params.return_type,
            params.gamma as int,
            0,
            SCALE as int,
        ));
        assert(rollout_result_accounted(total, params));
    }
    Ok(total)
}

/// Run a default-policy rollout with infallible callbacks.
pub fn rollout<D: SearchDomain>(start_state_key: StateKey, domain: &mut D, params: RolloutParams)
    -> (r: Result<i64, TreeError>)
    ensures
        r matches Err(e) ==> e is InvalidRolloutAction,
        r matches Ok(t) ==> rollout_result_accounted(t, params),
{
    match rollout_fallible(start_state_key, domain, params) {
        Ok(total) => Ok(total),
        Err(RunError::Tree(e)) => Err(e),
        Err(RunError::Callback(e)) => Err(e),
    }
}

} // verus!
