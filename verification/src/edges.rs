//! One action edge out of a decision node: statistics, observed outcomes,
//! and the upper-confidence-bound score.

use vstd::prelude::*;

use crate::fixed::{
    fx_mul, fx_mul_i64, isqrt_u128, ln_fx, ln_fx_u64, sat_add, sat_add_i64, sat_inc, sqrt_floor,
    tdiv, tdiv_i64, SCALE,
};
use crate::ids::{ActionId, NodeId, StateKey};
use crate::outcomes::{first_index, Outcome, OutcomeSet};
use crate::stats::{EdgeStats, QValue};

verus! {

/// An upper-confidence-bound score: unvisited edges score above every
/// finite score, forcing at least one visit.
#[derive(Debug, Clone, Copy, PartialEq, Eq, Structural)]
pub enum UcbScore {
    Infinite,
    Finite(i64),
}

/// Strict order on scores: every finite score lies below the infinite one.
pub open spec fn score_lt(a: UcbScore, b: UcbScore) -> bool {
    match (a, b) {
        (UcbScore::Infinite, _) => false,
        (UcbScore::Finite(_), UcbScore::Infinite) => true,
        (UcbScore::Finite(x), UcbScore::Finite(y)) => x < y,
    }
}

impl UcbScore {
    /// Strict comparison: is this score greater than `other`?
    pub fn gt(&self, other: &UcbScore) -> (r: bool)
        ensures
            r == score_lt(*other, *self),
    {
        match (self, other) {
            (UcbScore::Infinite, UcbScore::Infinite) => false,
            (UcbScore::Infinite, UcbScore::Finite(_)) => true,
            (UcbScore::Finite(_), UcbScore::Infinite) => false,
            (UcbScore::Finite(x), UcbScore::Finite(y)) => *x > *y,
        }
    }
}

/// Fixed-point exploration term of the UCB formula: the square root of
/// `ln(n_parent) / visits`, in micro-units.
pub open spec fn explore_term(visits: int, n_parent: int) -> int
    recommends
        visits >= 1,
        n_parent >= 1,
{
    sqrt_floor(((ln_fx(n_parent) * (SCALE as int)) / visits) * (SCALE as int))
}

/// UCB score of an edge: infinite when unvisited, otherwise the mean value
/// plus `c` times the exploration term, all in micro-units.
pub open spec fn ucb_spec(visits: int, value_sum: int, n_parent: int, c: int) -> UcbScore
    recommends
        visits >= 0,
        n_parent >= 1,
{
    if visits == 0 {
        UcbScore::Infinite
    } else {
        UcbScore::Finite(
            sat_add(tdiv(value_sum, visits), fx_mul(c, explore_term(visits, n_parent))) as i64,
        )
    }
}

/// Taking one particular action from one particular node: the edge's
/// statistics and its observed outcomes.
#[derive(Debug, Clone, PartialEq, Eq)]
pub struct ActionEdge {
    pub action: ActionId,
    pub edge_stats: EdgeStats,
    pub outcomes: OutcomeSet,
}

impl ActionEdge {
    /// Local well-formedness: the outcome set is well-formed.
    pub open spec fn wf(self) -> bool {
        self.outcomes.wf()
    }

    /// A fresh, unvisited edge for the given action.
    pub fn new(action: ActionId) -> (r: ActionEdge)
        ensures
            r.action == action,
            r.edge_stats.visits == 0,
            r.edge_stats.value_sum == 0,
            r.outcomes@ == Seq::<Outcome>::empty(),
            r.wf(),
    {
        ActionEdge { action, edge_stats: EdgeStats::new(), outcomes: OutcomeSet::new() }
    }

    /// The action this edge stands for.
    pub fn action(&self) -> (r: ActionId)
        ensures
            r == self.action,
    {
        self.action
    }

    /// Record one backpropagated return on this edge's statistics.
    pub fn record(&mut self, rollout_return: i64)
        ensures
            final(self).action == old(self).action,
            final(self).outcomes == old(self).outcomes,
            final(self).edge_stats.visits as int == sat_inc(old(self).edge_stats.visits as int),
            final(self).edge_stats.value_sum as int == sat_add(
                old(self).edge_stats.value_sum as int,
                rollout_return as int,
            ),
    {
        self.edge_stats.record(rollout_return);
    }

    /// UCB score of this edge given the parent visit total and the
    /// exploration constant in micro-units.
    pub fn ucb_score(&self, n_parent: u64, c: i64) -> (r: UcbScore)
        requires
            n_parent >= 1,
        ensures
            r == ucb_spec(
                self.edge_stats.visits as int,
                self.edge_stats.value_sum as int,
                n_parent as int,
                c as int,
            ),
    {
        let visits = self.edge_stats.visits();
        if visits == 0 {
            UcbScore::Infinite
        } else {
            let lnp: u64 = ln_fx_u64(n_parent);
            proof {
                assert((lnp as int) * (SCALE as int) < 45_000_000_000_000int) by (nonlinear_arith)
                    requires
                        0 <= (lnp as int) < 45_000_000int,
                        (SCALE as int) == 1_000_000int,
                ;
            }
            let scaled: u128 = (lnp as u128) * (SCALE as u128);
            let ratio: u128 = scaled / (visits as u128);
            proof {
                assert(scaled as int == (lnp as int) * (SCALE as int));
                assert(ratio as int == ((ln_fx(n_parent as int) * (SCALE as int)) / (
                visits as int)));
                assert(ratio <= scaled) by {
                    vstd::arithmetic::div_mod::lemma_div_nonincreasing(
                        scaled as int,
                        visits as int,
                    );
                };
                assert((ratio as int) * (SCALE as int) < 45_000_000_000_000_000_000int)
                    by (nonlinear_arith)
                    requires
                        0 <= (ratio as int) < 45_000_000_000_000int,
                        (SCALE as int) == 1_000_000int,
                ;
            }
            let under: u128 = ratio * (SCALE as u128);
            let s: u64 = isqrt_u128(under);
            proof {
                assert((s as int) * (s as int) <= under as int);
                assert(s as int <= 7_000_000_000int) by (nonlinear_arith)
                    requires
                        0 <= s as int,
                        (s as int) * (s as int) < 45_000_000_000_000_000_000int,
                ;
            }
            let q: i64 = tdiv_i64(self.edge_stats.value_sum(), visits);
            UcbScore::Finite(sat_add_i64(q, fx_mul_i64(c, s as i64)))
        }
    }

    /// The child node recorded under the given key, if it was observed.
    pub fn get_child_for(&self, next_state_key: StateKey) -> (r: Option<NodeId>)
        ensures
            ({
                let fi = first_index(self.outcomes@, next_state_key);
                r == if fi >= 0 {
                    Some(self.outcomes@[fi].child)
                } else {
                    None::<NodeId>
                }
            }),
    {
        self.outcomes.get_child_for(next_state_key)
    }

    /// Insert a newly observed outcome; `None` if the key already exists.
    pub fn insert_outcome(&mut self, next_state_key: StateKey, child_id: NodeId) -> (r: Option<
        NodeId,
    >)
        ensures
            final(self).action == old(self).action,
            final(self).edge_stats == old(self).edge_stats,
            ({
                let fi = first_index(old(self).outcomes@, next_state_key);
                if fi < 0 {
                    final(self).outcomes@ == old(self).outcomes@.push(
                        Outcome { next_state_key, child: child_id, count: 1 },
                    ) && r == Some(child_id)
                } else {
                    final(self).outcomes@ == old(self).outcomes@ && r == None::<NodeId>
                }
            }),
            old(self).wf() ==> final(self).wf(),
    {
        self.outcomes.insert_outcome(next_state_key, child_id)
    }

    /// Record one more observation of a known outcome; `None` if the key is
    /// absent.
    pub fn increment_outcome(&mut self, next_state_key: StateKey) -> (r: Option<NodeId>)
        ensures
            final(self).action == old(self).action,
            final(self).edge_stats == old(self).edge_stats,
            ({
                let fi = first_index(old(self).outcomes@, next_state_key);
                if fi >= 0 {
                    let e = old(self).outcomes@[fi];
                    final(self).outcomes@ == old(self).outcomes@.update(
                        fi,
                        Outcome {
                            next_state_key: e.next_state_key,
                            child: e.child,
                            count: (sat_inc(e.count as int)) as u64,
                        },
                    ) && r == Some(e.child)
                } else {
                    final(self).outcomes@ == old(self).outcomes@ && r == None::<NodeId>
                }
            }),
            old(self).wf() ==> final(self).wf(),
    {
        self.outcomes.increment_outcome(next_state_key)
    }

    /// Number of times this edge was traversed by backpropagation.
    pub fn visits(&self) -> (r: u64)
        ensures
            r == self.edge_stats.visits,
    {
        self.edge_stats.visits()
    }

    /// Sum of all recorded returns, in micro-units.
    pub fn value_sum(&self) -> (r: i64)
        ensures
            r == self.edge_stats.value_sum,
    {
        self.edge_stats.value_sum()
    }

    /// Whether this edge has never been visited.
    pub fn is_unvisited(&self) -> (r: bool)
        ensures
            r == (self.edge_stats.visits == 0),
    {
        self.edge_stats.is_unvisited()
    }

    /// Exact mean value estimate for this edge.
    pub fn q(&self) -> (r: QValue)
        ensures
            r == self.edge_stats.q_spec(),
            r.wf(),
    {
        self.edge_stats.q()
    }

    /// Number of distinct outcomes observed under this edge.
    pub fn outcomes_len(&self) -> (r: usize)
        ensures
            r == self.outcomes@.len(),
    {
        self.outcomes.len()
    }

    /// Observation count for a given next state key, if it was observed.
    pub fn outcome_count_for(&self, next_state_key: StateKey) -> (r: Option<u64>)
        ensures
            ({
                let fi = first_index(self.outcomes@, next_state_key);
                r == if fi >= 0 {
                    Some(self.outcomes@[fi].count)
                } else {
                    None::<u64>
                }
            }),
    {
        self.outcomes.count_for(next_state_key)
    }
}

} // verus!
