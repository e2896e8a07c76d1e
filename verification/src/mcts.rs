//! The search driver: configuration, run errors, metrics, backpropagation,
//! and the iteration loop over a search tree.

use vstd::prelude::*;

use crate::domain::{FallibleSearchDomain, SearchDomain};
use crate::error::TreeError;
use crate::fixed::{clamp_u64, sat_add, SCALE};
use crate::ids::{ActionId, NodeId};
use crate::node::Node;
use crate::rollout::{rollout_fallible, ReturnType, RolloutParams};
use crate::search_tree::{grows_from, path_valid, tree_wf, Tree};
use crate::stats::QValue;

verus! {

/// Why loading or validating a search configuration failed.
#[derive(Debug, Clone, PartialEq, Eq)]
pub enum SearchConfigError {
    /// The configuration file could not be read; the payload is a message
    /// from the reader.
    Io(String),
    /// The configuration text could not be parsed; the payload is a
    /// message from the parser.
    Parse(String),
    /// A field violated its constraint; the payload names the field rule.
    Invalid(String),
}

/// A failure of a fallible run: either the tree machinery failed, or a
/// domain callback returned its own error.
#[derive(Debug, Clone, PartialEq, Eq)]
pub enum RunError<E> {
    Tree(TreeError),
    Callback(E),
}

/// Search configuration. The exploration constant `c` and the discount
/// factor `gamma` are fixed-point micro-unit values.
#[derive(Debug, Clone, Copy, PartialEq, Eq, Structural)]
pub struct SearchConfig {
    pub iterations: usize,
    pub c: i64,
    pub gamma: i64,
    pub max_steps: usize,
    pub return_type: ReturnType,
    pub fixed_horizon_steps: usize,
}

impl Default for SearchConfig {
    /// The stock configuration: 256 iterations, an exploration constant of
    /// 1.4, an undamped discount, 128 rollout steps, discounted returns,
    /// and a 32-step fixed horizon.
    fn default() -> (r: SearchConfig)
        ensures
            r == (SearchConfig {
                iterations: 256,
                c: 1_400_000,
                gamma: 1_000_000,
                max_steps: 128,
                return_type: ReturnType::Discounted,
                fixed_horizon_steps: 32,
            }),
    {
        SearchConfig {
            iterations: 256,
            c: 1_400_000,
            gamma: SCALE,
            max_steps: 128,
            return_type: ReturnType::Discounted,
            fixed_horizon_steps: 32,
        }
    }
}

impl SearchConfig {
    /// The constraints a usable configuration satisfies: positive
    /// iteration and step counts, and non-negative exploration and
    /// discount constants.
    pub open spec fn valid(self) -> bool {
        &&& self.iterations > 0
        &&& self.c >= 0
        &&& self.gamma >= 0
        &&& self.max_steps > 0
        &&& self.fixed_horizon_steps > 0
    }

    /// Check every field constraint, reporting the first violation.
    pub fn validate(&self) -> (r: Result<(), SearchConfigError>)
        ensures
            r is Ok <==> self.valid(),
            r matches Err(e) ==> e is Invalid,
    {
        if self.iterations == 0 {
            return Err(
                SearchConfigError::Invalid(String::from_str("iterations must be greater than 0")),
            );
        }
        if self.c < 0 {
            return Err(SearchConfigError::Invalid(String::from_str("c must be >= 0")));
        }
        if self.gamma < 0 {
            return Err(SearchConfigError::Invalid(String::from_str("gamma must be >= 0")));
        }
        if self.max_steps == 0 {
            return Err(
                SearchConfigError::Invalid(String::from_str("max_steps must be greater than 0")),
            );
        }
        if self.fixed_horizon_steps == 0 {
            return Err(
                SearchConfigError::Invalid(
                    String::from_str("fixed_horizon_steps must be greater than 0"),
                ),
            );
        }
        Ok(())
    }

    /// The rollout parameters this configuration induces.
    pub fn rollout_params(&self) -> (r: RolloutParams)
        ensures
            r == (RolloutParams {
                return_type: self.return_type,
                gamma: self.gamma,
                max_steps: self.max_steps,
                fixed_horizon_steps: self.fixed_horizon_steps,
            }),
    {
        RolloutParams {
            return_type: self.return_type,
            gamma: self.gamma,
            max_steps: self.max_steps,
            fixed_horizon_steps: self.fixed_horizon_steps,
        }
    }
}

/// Metrics of a single iteration: the leaf the descent reached, whether it
/// is new, the descent length, the reward gathered on the descent prefix,
/// the rollout return, their saturating sum, and the node count after the
/// iteration. All returns are micro-unit values.
#[derive(Debug, Clone, Copy, PartialEq, Eq, Structural)]
pub struct IterationMetrics {
    pub leaf: NodeId,
    pub leaf_is_new: bool,
    pub path_len: usize,
    pub reward_prefix: i64,
    pub rollout_return: i64,
    pub total_return: i64,
    pub node_count: usize,
}

/// The mean total return over the completed iterations: exactly the sum
/// over the count, and zero before any iteration completed.
pub open spec fn average_spec(sum: i64, completed: usize) -> QValue {
    if completed == 0 {
        QValue { num: 0, den: 1 }
    } else {
        QValue { num: sum, den: completed as u64 }
    }
}

/// Aggregate metrics of a whole run. The total-return sum is a saturating
/// micro-unit sum; the average is an exact rational over it.
#[derive(Debug, Clone, Copy, PartialEq, Eq, Structural)]
pub struct RunMetrics {
    pub iterations_requested: usize,
    pub iterations_completed: usize,
    pub total_return_sum: i64,
    pub average_total_return: QValue,
}

impl RunMetrics {
    /// Fresh aggregate metrics for a run of the requested length.
    pub fn new(iterations_requested: usize) -> (r: RunMetrics)
        ensures
            r.iterations_requested == iterations_requested,
            r.iterations_completed == 0,
            r.total_return_sum == 0,
            r.average_total_return == average_spec(0, 0),
    {
        RunMetrics {
            iterations_requested,
            iterations_completed: 0,
            total_return_sum: 0,
            average_total_return: QValue { num: 0, den: 1 },
        }
    }

    /// Fold one iteration's metrics into the aggregate.
    pub fn record(&mut self, metrics: IterationMetrics)
        requires
            old(self).iterations_completed < usize::MAX,
        ensures
            final(self).iterations_requested == old(self).iterations_requested,
            final(self).iterations_completed == old(self).iterations_completed + 1,
            final(self).total_return_sum as int == sat_add(
                old(self).total_return_sum as int,
                metrics.total_return as int,
            ),
            final(self).average_total_return == average_spec(
                final(self).total_return_sum,
                final(self).iterations_completed,
            ),
    {
        self.iterations_completed = self.iterations_completed + 1;
        self.total_return_sum = crate::fixed::sat_add_i64(
            self.total_return_sum,
            metrics.total_return,
        );
        self.average_total_return = QValue {
            num: self.total_return_sum,
            den: self.iterations_completed as u64,
        };
    }
}

/// A per-iteration observer for `run_with_hook`.
pub trait IterationHook {
    /// Called once after each completed iteration.
    fn on_iteration(&mut self, metrics: &IterationMetrics);
}

/// The hook that does nothing.
pub struct SilentHook;

impl IterationHook for SilentHook {
    fn on_iteration(&mut self, metrics: &IterationMetrics) {
    }
}

/// Number of occurrences of the pair `(n, a)` in a descent path.
pub open spec fn pair_count(p: Seq<(NodeId, ActionId)>, n: int, a: int) -> int
    decreases p.len(),
{
    if p.len() == 0 {
        0
    } else {
        pair_count(p.drop_last(), n, a) + if p.last().0.0 == n && p.last().1.0 == a {
            1int
        } else {
            0int
        }
    }
}

/// Occurrence counts are non-negative.
pub proof fn lemma_pair_count_nonneg(p: Seq<(NodeId, ActionId)>, n: int, a: int)
    ensures
        pair_count(p, n, a) >= 0,
    decreases p.len(),
{
    if p.len() > 0 {
        lemma_pair_count_nonneg(p.drop_last(), n, a);
    }
}

/// Extending a prefix by one entry raises the count of exactly that entry.
pub proof fn lemma_pair_count_take_step(p: Seq<(NodeId, ActionId)>, t: int, n: int, a: int)
    requires
        0 <= t < p.len(),
    ensures
        pair_count(p.take(t + 1), n, a) == pair_count(p.take(t), n, a) + if p[t].0.0 == n
            && p[t].1.0 == a {
            1int
        } else {
            0int
        },
{
    assert(p.take(t + 1).drop_last() =~= p.take(t));
    assert(p.take(t + 1).last() == p[t]);
}

/// A prefix never counts more occurrences than the whole path.
pub proof fn lemma_pair_count_take_le(p: Seq<(NodeId, ActionId)>, t: int, n: int, a: int)
    requires
        0 <= t <= p.len(),
    ensures
        pair_count(p.take(t), n, a) <= pair_count(p, n, a),
    decreases p.len() - t,
{
    if t == p.len() {
        assert(p.take(t) =~= p);
    } else {
        lemma_pair_count_take_step(p, t, n, a);
        lemma_pair_count_take_le(p, t + 1, n, a);
    }
}

/// Appending an entry raises the count of exactly that entry.
pub proof fn lemma_pair_count_push(p: Seq<(NodeId, ActionId)>, e: (NodeId, ActionId), n: int, a: int)
    ensures
        pair_count(p.push(e), n, a) == pair_count(p, n, a) + if e.0.0 == n && e.1.0 == a {
            1int
        } else {
            0int
        },
{
    assert(p.push(e).drop_last() =~= p);
    assert(p.push(e).last() == e);
}

/// A path that never touches a node contributes nothing to its edges.
pub proof fn lemma_pair_count_absent(p: Seq<(NodeId, ActionId)>, n: int, a: int)
    requires
        forall|t: int| 0 <= t < p.len() ==> (#[trigger] p[t]).0.0 != n,
    ensures
        pair_count(p, n, a) == 0,
    decreases p.len(),
{
    if p.len() > 0 {
        assert(forall|t: int| 0 <= t < p.drop_last().len() ==> p.drop_last()[t] == p[t]);
        lemma_pair_count_absent(p.drop_last(), n, a);
        assert(p.last() == p[p.len() - 1]);
    }
}

/// No entry occurs more often than the path is long.
pub proof fn lemma_pair_count_le_len(p: Seq<(NodeId, ActionId)>, n: int, a: int)
    ensures
        0 <= pair_count(p, n, a) <= p.len(),
    decreases p.len(),
{
    if p.len() > 0 {
        lemma_pair_count_le_len(p.drop_last(), n, a);
    }
}

/// A path that starts at the root and never returns to it passes the root
/// edge exactly once.
pub proof fn lemma_pair_count_root_once(p: Seq<(NodeId, ActionId)>, a: int)
    requires
        p.len() > 0,
        p[0].0.0 == 0,
        p[0].1.0 == a,
        forall|t: int| 1 <= t < p.len() ==> (#[trigger] p[t]).0.0 != 0,
    ensures
        pair_count(p, 0, a) == 1,
    decreases p.len(),
{
    let q = p.drop_last();
    if p.len() == 1 {
        assert(q.len() == 0);
        assert(pair_count(q, 0, a) == 0);
        assert(p.last() == p[0]);
        assert(p.last().0.0 == 0 && p.last().1.0 == a);
    } else {
        assert(q.len() == p.len() - 1);
        assert(q[0] == p[0]);
        assert forall|t: int| 1 <= t < q.len() implies (#[trigger] q[t]).0.0 != 0 by {
            assert(q[t] == p[t]);
            assert(p[t].0.0 != 0);
        };
        lemma_pair_count_root_once(q, a);
        assert(pair_count(q, 0, a) == 1);
        assert(p.last() == p[p.len() - 1]);
        assert(p[p.len() - 1].0.0 != 0);
    }
}

/// Every edge's summed outcome count equals its visit count. This
/// invariant holds whenever every visit was recorded by backpropagating a
/// tree-policy descent, since a descent increments one outcome count per
/// traversed edge and its backpropagation increments the same edges'
/// visits.
pub open spec fn edge_balanced(ns: Seq<Node>) -> bool {
    forall|n: int, a: int|
        0 <= n < ns.len() && 0 <= a < ns[n].edges@.len()
            ==> crate::outcomes::sum_counts((#[trigger] ns[n].edges@[a]).outcomes@) == ns[
        n].edges@[a].edge_stats.visits as int
}

/// Every visit counter in the tree has at least `slack` headroom before
/// the counter range ends.
pub open spec fn visits_headroom(ns: Seq<Node>, slack: int) -> bool {
    forall|n: int, a: int|
        0 <= n < ns.len() && 0 <= a < ns[n].edges@.len() ==> (#[trigger] ns[
        n].edges@[a]).edge_stats.visits as int + slack <= u64::MAX as int
}

/// Between the two snapshots, only this node's edge statistics changed:
/// same identity fields, same edges, and the same observed outcomes.
pub open spec fn node_same_but_stats(y: Node, x: Node) -> bool {
    &&& x.state_key == y.state_key
    &&& x.depth == y.depth
    &&& x.parent == y.parent
    &&& x.is_terminal == y.is_terminal
    &&& x.expansion_state == y.expansion_state
    &&& x.edges@.len() == y.edges@.len()
    &&& forall|j: int|
        0 <= j < y.edges@.len() ==> (#[trigger] x.edges@[j]).action == y.edges@[j].action
            && x.edges@[j].outcomes@ == y.edges@[j].outcomes@
}

pub open spec fn same_but_stats(pre: Seq<Node>, cur: Seq<Node>) -> bool {
    &&& cur.len() == pre.len()
    &&& forall|i: int| 0 <= i < pre.len() ==> node_same_but_stats(pre[i], #[trigger] cur[i])
}

/// A statistics-only change preserves tree well-formedness.
pub proof fn lemma_wf_same_but_stats(pre: Seq<Node>, cur: Seq<Node>)
    requires
        tree_wf(pre),
        same_but_stats(pre, cur),
    ensures
        tree_wf(cur),
{
    assert forall|i: int| 0 <= i < cur.len() implies crate::search_tree::node_wf_in(
        cur,
        i,
    ) by {
        assert(crate::search_tree::node_wf_in(pre, i));
        assert(cur[i].wf()) by {
            assert(pre[i].wf());
            assert(forall|j: int|
                0 <= j < cur[i].edges@.len() ==> (#[trigger] cur[i].edges@[j]).action == pre[
                i].edges@[j].action && cur[i].edges@[j].outcomes@ == pre[i].edges@[j].outcomes@);
        };
    };
    assert forall|i: int| 1 <= i < cur.len() implies crate::search_tree::parent_link_ok(
        cur,
        i,
    ) by {
        assert(crate::search_tree::parent_link_ok(pre, i));
        let p = pre[i].parent->Some_0.0.0 as int;
        let a = pre[i].parent->Some_0.1.0 as int;
        assert(cur[p].edges@[a].outcomes@ == pre[p].edges@[a].outcomes@);
    };
}

/// The per-edge accounting of one completed iteration against its descent
/// path: the path is as long as reported, names only live edges, starts at
/// the root and returns to it no more, every pre-existing edge's visit
/// counter grew by exactly the number of times the path traversed it
/// (saturating), and under outcome-counter headroom every edge's summed
/// outcome count grew identically.
pub open spec fn iteration_accounted(
    pre: Seq<Node>,
    cur: Seq<Node>,
    path: Seq<(NodeId, ActionId)>,
    path_len: int,
) -> bool {
    &&& path.len() == path_len
    &&& crate::search_tree::path_valid(cur, path)
    &&& (path.len() > 0 ==> path[0].0.0 == 0)
    &&& (forall|t: int| 1 <= t < path.len() ==> (#[trigger] path[t]).0.0 != 0)
    &&& (!pre[0].is_terminal && pre[0].edges@.len() > 0 ==> path.len() > 0)
    &&& (forall|n: int, a: int|
        0 <= n < pre.len() && 0 <= a < pre[n].edges@.len() ==> (#[trigger] cur[
        n].edges@[a]).edge_stats.visits as int == clamp_u64(
            pre[n].edges@[a].edge_stats.visits as int + pair_count(path, n, a),
        ))
    &&& (crate::search_tree::counts_below(pre, path_len)
        ==> crate::search_tree::counts_delta_exact(pre, cur, path))
}

/// Some descent path accounts for the iteration's effect on every edge.
pub open spec fn iteration_accounted_by_some_path(
    pre: Seq<Node>,
    cur: Seq<Node>,
    path_len: int,
) -> bool {
    exists|path: Seq<(NodeId, ActionId)>| iteration_accounted(pre, cur, path, path_len)
}

/// What a failed backpropagation leaves behind when it stopped at entry
/// `i`: the entries before `i` are valid and were recorded (and remain
/// recorded), entry `i` is the first invalid one and names the error, and
/// no entry from `i` on was applied.
pub open spec fn backprop_stopped_at(
    pre: Seq<Node>,
    cur: Seq<Node>,
    path: Seq<(NodeId, ActionId)>,
    total_return: int,
    e: TreeError,
    i: int,
) -> bool {
    &&& 0 <= i < path.len()
    &&& forall|s: int| 0 <= s < i ==> crate::search_tree::entry_valid(pre, #[trigger] path[s])
    &&& !crate::search_tree::entry_valid(pre, path[i])
    &&& e == (if path[i].0.0 as int >= pre.len() {
        TreeError::MissingNode { node_id: path[i].0 }
    } else {
        TreeError::MissingEdge { node_id: path[i].0, action_id: path[i].1 }
    })
    &&& forall|n: int, a: int|
        0 <= n < pre.len() && 0 <= a < pre[n].edges@.len() ==> (#[trigger] cur[
        n].edges@[a]).edge_stats.visits as int == clamp_u64(
            pre[n].edges@[a].edge_stats.visits as int + pair_count(path.take(i), n, a),
        )
    &&& forall|n: int, a: int|
        0 <= n < pre.len() && 0 <= a < pre[n].edges@.len() && vstd::math::abs(
            pre[n].edges@[a].edge_stats.value_sum as int,
        ) + pair_count(path, n, a) * vstd::math::abs(total_return) <= i64::MAX as int
            ==> (#[trigger] cur[n].edges@[a]).edge_stats.value_sum as int == pre[
            n].edges@[a].edge_stats.value_sum as int + pair_count(path.take(i), n, a)
            * total_return
}

impl Tree {
    /// Record one total return on every edge the descent path traversed,
    /// in path order. Fails on the first path entry whose node or edge
    /// does not exist; edges before it have already been recorded.
    pub fn backpropagate(&mut self, path: &Vec<(NodeId, ActionId)>, total_return: i64) -> (r:
        Result<(), TreeError>)
        ensures
            same_but_stats(old(self)@, final(self)@),
            tree_wf(old(self)@) ==> tree_wf(final(self)@),
            (r is Ok <==> path_valid(old(self)@, path@)),
            r matches Err(e) ==> (e is MissingNode || e is MissingEdge),
            r matches Err(e) ==> exists|i: int|
                backprop_stopped_at(old(self)@, final(self)@, path@, total_return as int, e, i),
            path@.len() == 0 ==> final(self)@ == old(self)@,
            r is Ok ==> forall|n: int, a: int|
                0 <= n < old(self)@.len() && 0 <= a < old(self)@[n].edges@.len()
                    ==> (#[trigger] final(self)@[n].edges@[a]).edge_stats.visits as int
                    == clamp_u64(
                    old(self)@[n].edges@[a].edge_stats.visits as int + pair_count(path@, n, a),
                ),
            r is Ok ==> forall|n: int, a: int|
                0 <= n < old(self)@.len() && 0 <= a < old(self)@[n].edges@.len() && vstd::math::abs(
                    old(self)@[n].edges@[a].edge_stats.value_sum as int,
                ) + pair_count(path@, n, a) * vstd::math::abs(total_return as int) <= i64::MAX as int
                    ==> (#[trigger] final(self)@[n].edges@[a]).edge_stats.value_sum as int == old(
                    self,
                )@[n].edges@[a].edge_stats.value_sum as int + pair_count(path@, n, a)
                    * total_return as int,
    {
        let ghost pre = self@;
        let ghost aret = vstd::math::abs(total_return as int);
        let n_entries = path.len();
        if n_entries == 0 {
            proof {
                assert(path_valid(pre, path@));
            }
            return Ok(());
        }
        let mut t: usize = 0;
        while t < n_entries
            invariant
                t <= n_entries,
                n_entries == path@.len(),
                pre == old(self)@,
                aret == vstd::math::abs(total_return as int),
                same_but_stats(pre, self@),
                forall|s: int| 0 <= s < t ==> {
                    let e = #[trigger] path@[s];
                    e.0.0 < pre.len() && e.1.0 < pre[e.0.0 as int].edges@.len()
                },
                forall|n: int, a: int|
                    0 <= n < pre.len() && 0 <= a < pre[n].edges@.len() ==> (#[trigger] self@[
                    n].edges@[a]).edge_stats.visits as int == clamp_u64(
                        pre[n].edges@[a].edge_stats.visits as int + pair_count(
                            path@.take(t as int),
                            n,
                            a,
                        ),
                    ),
                forall|n: int, a: int|
                    0 <= n < pre.len() && 0 <= a < pre[n].edges@.len() && vstd::math::abs(
                        pre[n].edges@[a].edge_stats.value_sum as int,
                    ) + pair_count(path@, n, a) * aret <= i64::MAX as int ==> (#[trigger] self@[
                    n].edges@[a]).edge_stats.value_sum as int == pre[
                    n].edges@[a].edge_stats.value_sum as int + pair_count(path@.take(t as int), n, a)
                        * total_return as int,
            decreases n_entries - t,
        {
            let node_id = path[t].0;
            let action_id = path[t].1;
            if node_id.0 >= self.node_count() {
                proof {
                    assert(!path_valid(pre, path@));
                    if tree_wf(pre) {
                        lemma_wf_same_but_stats(pre, self@);
                    }
                    assert(backprop_stopped_at(
                        pre,
                        self@,
                        path@,
                        total_return as int,
                        TreeError::MissingNode { node_id },
                        t as int,
                    ));
                }
                return Err(TreeError::MissingNode { node_id });
            }
            let edge_total = {
                let node = self.node_at(node_id.0);
                node.edge_count()
            };
            if action_id.0 >= edge_total {
                proof {
                    assert(!path_valid(pre, path@));
                    if tree_wf(pre) {
                        lemma_wf_same_but_stats(pre, self@);
                    }
                    assert(node_same_but_stats(pre[node_id.0 as int], self@[node_id.0 as int]));
                    assert(!crate::search_tree::entry_valid(pre, path@[t as int]));
                    assert(backprop_stopped_at(
                        pre,
                        self@,
                        path@,
                        total_return as int,
                        TreeError::MissingEdge { node_id, action_id },
                        t as int,
                    ));
                }
                return Err(TreeError::MissingEdge { node_id, action_id });
            }
            let ghost before = self@;
            {
                let node = self.node_at_mut(node_id.0);
                let edge = &mut node.edges[action_id.0];
                edge.record(total_return);
            }
            proof {
                let ni = node_id.0 as int;
                let ai = action_id.0 as int;
                assert forall|n: int, a: int|
                    0 <= n < pre.len() && 0 <= a < pre[n].edges@.len() implies (#[trigger] self@[
                n].edges@[a]).edge_stats.visits as int == clamp_u64(
                    pre[n].edges@[a].edge_stats.visits as int + pair_count(
                        path@.take(t + 1 as int),
                        n,
                        a,
                    ),
                ) by {
                    lemma_pair_count_take_step(path@, t as int, n, a);
                    lemma_pair_count_nonneg(path@.take(t as int), n, a);
                    if n == ni && a == ai {
                        assert(self@[n].edges@[a].edge_stats.visits as int == crate::fixed::sat_inc(
                            before[n].edges@[a].edge_stats.visits as int,
                        ));
                    } else {
                        assert(self@[n].edges@[a].edge_stats == before[n].edges@[a].edge_stats);
                    }
                };
                assert forall|n: int, a: int|
                    0 <= n < pre.len() && 0 <= a < pre[n].edges@.len() && vstd::math::abs(
                    pre[n].edges@[a].edge_stats.value_sum as int,
                ) + pair_count(path@, n, a) * aret <= i64::MAX as int implies (#[trigger] self@[
                n].edges@[a]).edge_stats.value_sum as int == pre[
                n].edges@[a].edge_stats.value_sum as int + pair_count(path@.take(t + 1 as int), n, a)
                    * total_return as int by {
                    lemma_pair_count_take_step(path@, t as int, n, a);
                    lemma_pair_count_nonneg(path@.take(t as int), n, a);
                    lemma_pair_count_take_le(path@, t + 1 as int, n, a);
                    let pv = pre[n].edges@[a].edge_stats.value_sum as int;
                    let pct = pair_count(path@.take(t as int), n, a);
                    let pct1 = pair_count(path@.take(t + 1 as int), n, a);
                    let pc = pair_count(path@, n, a);
                    let ret = total_return as int;
                    if n == ni && a == ai {
                        assert(pct1 == pct + 1);
                        assert(before[n].edges@[a].edge_stats.value_sum as int == pv + pct * ret);
                        assert(pct1 * aret <= pc * aret) by (nonlinear_arith)
                            requires
                                0 <= pct1 <= pc,
                                aret >= 0,
                        ;
                        assert(vstd::math::abs(pv + pct1 * ret) <= vstd::math::abs(pv) + pct1
                            * aret) by (nonlinear_arith)
                            requires
                                aret == vstd::math::abs(ret),
                                pct1 >= 0,
                        ;
                        assert(pct1 * ret == pct * ret + ret) by (nonlinear_arith)
                            requires
                                pct1 == pct + 1,
                        ;
                        assert(self@[n].edges@[a].edge_stats.value_sum as int == crate::fixed::sat_add(
                            before[n].edges@[a].edge_stats.value_sum as int,
                            ret,
                        ));
                    } else {
                        assert(pct1 == pct);
                        assert(self@[n].edges@[a].edge_stats == before[n].edges@[a].edge_stats);
                    }
                };
                assert(same_but_stats(pre, self@));
            }
            t = t + 1;
        }
        proof {
            assert(path@.take(n_entries as int) =~= path@);
            assert(path_valid(pre, path@));
            if tree_wf(pre) {
                lemma_wf_same_but_stats(pre, self@);
            }
        }
        Ok(())
    }

    /// One complete iteration with fallible callbacks: descend by the tree
    /// policy, roll out from a non-terminal leaf, and backpropagate the
    /// saturating sum of the descent reward and the rollout return.
    pub fn iterate_fallible<D: FallibleSearchDomain>(
        &mut self,
        config: &SearchConfig,
        domain: &mut D,
    ) -> (r: Result<IterationMetrics, RunError<D::Error>>)
        requires
            tree_wf(old(self)@),
        ensures
            tree_wf(final(self)@),
            grows_from(old(self)@, final(self)@),
            final(self)@.len() <= old(self)@.len() + 1,
            r matches Err(RunError::Tree(e)) ==> e is InvalidRolloutAction,
            D::never_fails() ==> !(r matches Err(RunError::Callback(_))),
            old(self)@[0].is_terminal && D::never_fails() ==> r is Ok,
            r matches Ok(m) ==> {
                &&& m.node_count == final(self)@.len()
                &&& m.total_return as int == sat_add(
                    m.reward_prefix as int,
                    m.rollout_return as int,
                )
                &&& m.leaf.0 < final(self)@.len()
                &&& (m.leaf_is_new <==> final(self)@.len() == old(self)@.len() + 1)
                &&& (final(self)@[m.leaf.0 as int].is_terminal ==> m.rollout_return == 0
                    && m.total_return == m.reward_prefix)
                &&& (!final(self)@[m.leaf.0 as int].is_terminal
                    ==> crate::rollout::rollout_result_accounted(m.rollout_return, (RolloutParams {
                        return_type: config.return_type,
                        gamma: config.gamma,
                        max_steps: config.max_steps,
                        fixed_horizon_steps: config.fixed_horizon_steps,
                    })))
                &&& iteration_accounted_by_some_path(old(self)@, final(self)@, m.path_len as int)
                &&& (old(self)@[0].is_terminal ==> m.path_len == 0 && m.total_return == 0
                    && m.reward_prefix == 0 && m.rollout_return == 0 && final(self)@ == old(self)@)
                &&& (!old(self)@[0].is_terminal && old(self)@[0].edges@.len() == 1 ==> final(self)@[0].edges@[0].edge_stats.visits as int == clamp_u64(
                    old(self)@[0].edges@[0].edge_stats.visits as int + 1,
                ))
                &&& (!old(self)@[0].is_terminal && old(self)@[0].edges@.len() == 0
                    && final(self)@[0].edges@.len() == 1
                    ==> final(self)@[0].edges@[0].edge_stats.visits == 1)
                &&& (edge_balanced(old(self)@) && crate::search_tree::counts_below(
                    old(self)@,
                    m.path_len as int,
                ) && visits_headroom(old(self)@, m.path_len as int) ==> edge_balanced(
                    final(self)@,
                ))
            },
    {
        let ghost pre = self@;
        let policy_result = match self.tree_policy_fallible(config.c, domain) {
            Ok(res) => res,
            Err(e) => { return Err(e); },
        };
        let ghost mid = self@;
        let path_count = policy_result.path.len();
        let leaf_is_terminal = self.node_at(policy_result.leaf.0).is_terminal;
        let leaf_state_key = self.node_at(policy_result.leaf.0).state_key;
        let rollout_return: i64 = if leaf_is_terminal {
            0
        } else {
            match rollout_fallible(leaf_state_key, domain, config.rollout_params()) {
                Ok(total) => total,
                Err(e) => { return Err(e); },
            }
        };
        let total_return = crate::fixed::sat_add_i64(policy_result.reward, rollout_return);
        let backprop = self.backpropagate(&policy_result.path, total_return);
        proof {
            if pre[0].is_terminal {
                assert(mid == pre);
            }
        }
        match backprop {
            Ok(()) => {},
            Err(e) => {
                proof {
                    assert(path_valid(mid, policy_result.path@));
                    assert(false);
                }
                return Err(RunError::Tree(e));
            },
        }
        proof {
            lemma_grows_then_stats(pre, mid, self@);
            assert(node_same_but_stats(
                mid[policy_result.leaf.0 as int],
                self@[policy_result.leaf.0 as int],
            ));
            assert(self@[policy_result.leaf.0 as int].is_terminal == leaf_is_terminal);
            if leaf_is_terminal {
                assert(total_return as int == sat_add(policy_result.reward as int, 0));
            }
            let path = policy_result.path@;
            if edge_balanced(pre) && crate::search_tree::counts_below(pre, path.len() as int)
                && visits_headroom(pre, path.len() as int) {
                assert(crate::search_tree::counts_delta_exact(pre, mid, path));
                assert forall|n: int, a: int|
                    0 <= n < self@.len() && 0 <= a < self@[n].edges@.len() implies
                    crate::outcomes::sum_counts((#[trigger] self@[n].edges@[a]).outcomes@) == self@[
                n].edges@[a].edge_stats.visits as int by {
                    let pc = pair_count(path, n, a);
                    lemma_pair_count_le_len(path, n, a);
                    assert(node_same_but_stats(mid[n], self@[n]));
                    assert(self@[n].edges@[a].outcomes@ == mid[n].edges@[a].outcomes@);
                    assert(self@[n].edges@[a].edge_stats.visits as int == clamp_u64(
                        mid[n].edges@[a].edge_stats.visits as int + pc,
                    ));
                    if 0 <= n < pre.len() && 0 <= a < pre[n].edges@.len() {
                        assert(mid[n].edges@[a].edge_stats == pre[n].edges@[a].edge_stats);
                        assert(crate::outcomes::sum_counts(mid[n].edges@[a].outcomes@)
                            == crate::outcomes::sum_counts(pre[n].edges@[a].outcomes@) + pc);
                        assert(crate::outcomes::sum_counts(pre[n].edges@[a].outcomes@) == pre[
                        n].edges@[a].edge_stats.visits as int);
                        assert(pre[n].edges@[a].edge_stats.visits as int + pc
                            <= u64::MAX as int);
                    } else {
                        assert(mid[n].edges@[a].edge_stats.visits == 0);
                        assert(crate::outcomes::sum_counts(mid[n].edges@[a].outcomes@) == 0 + pc);
                        assert(path.len() == path_count as int);
                        assert(pc <= path_count as int <= usize::MAX as int);
                    }
                };
            }
            if !pre[0].is_terminal && pre[0].edges@.len() == 1 {
                assert(policy_result.path@.len() > 0);
                assert(policy_result.path@[0].0.0 == 0);
                assert(policy_result.path@[0].1.0 < mid[0].edges@.len());
                assert(mid[0].edges@.len() == 1);
                lemma_pair_count_root_once(policy_result.path@, 0);
                assert(mid[0].edges@[0].edge_stats == pre[0].edges@[0].edge_stats);
            }
            if !pre[0].is_terminal && pre[0].edges@.len() == 0 && self@[0].edges@.len() == 1 {
                assert(node_same_but_stats(mid[0], self@[0]));
                assert(mid[0].edges@.len() == 1);
                assert(policy_result.path@.len() > 0);
                assert(policy_result.path@[0].0.0 == 0);
                assert(policy_result.path@[0].1.0 < mid[0].edges@.len());
                lemma_pair_count_root_once(policy_result.path@, 0);
                assert(mid[0].edges@[0].edge_stats.visits == 0);
            }
            assert forall|t: int| 0 <= t < path.len() implies crate::search_tree::entry_valid(
                self@,
                #[trigger] path[t],
            ) by {
                assert(crate::search_tree::entry_valid(mid, path[t]));
                let n = path[t].0.0 as int;
                assert(node_same_but_stats(mid[n], self@[n]));
            };
            assert forall|n: int, a: int|
                0 <= n < pre.len() && 0 <= a < pre[n].edges@.len() implies (#[trigger] self@[
            n].edges@[a]).edge_stats.visits as int == clamp_u64(
                pre[n].edges@[a].edge_stats.visits as int + pair_count(path, n, a),
            ) by {
                assert(crate::search_tree::node_grows(pre[n], mid[n]));
                assert(0 <= a < mid[n].edges@.len());
                assert(mid[n].edges@[a].edge_stats == pre[n].edges@[a].edge_stats);
            };
            if crate::search_tree::counts_below(pre, path.len() as int) {
                assert(crate::search_tree::counts_delta_exact(pre, mid, path));
                assert forall|n: int, a: int|
                    0 <= n < self@.len() && 0 <= a < self@[n].edges@.len() implies
                    crate::outcomes::sum_counts((#[trigger] self@[n].edges@[a]).outcomes@)
                    == crate::search_tree::old_sum(pre, n, a) + pair_count(path, n, a) by {
                    assert(node_same_but_stats(mid[n], self@[n]));
                    assert(self@[n].edges@[a].outcomes@ == mid[n].edges@[a].outcomes@);
                };
            }
            assert(iteration_accounted_by_some_path(old(self)@, self@, path_count as int)) by {
                assert(iteration_accounted(old(self)@, self@, path, path_count as int));
            };
        }
        Ok(
            IterationMetrics {
                leaf: policy_result.leaf,
                leaf_is_new: policy_result.leaf_is_new,
                path_len: path_count,
                reward_prefix: policy_result.reward,
                rollout_return,
                total_return,
                node_count: self.node_count(),
            },
        )
    }

    /// One complete iteration with infallible callbacks.
    pub fn iterate<D: SearchDomain>(&mut self, config: &SearchConfig, domain: &mut D) -> (r:
        Result<IterationMetrics, TreeError>)
        requires
            tree_wf(old(self)@),
        ensures
            tree_wf(final(self)@),
            grows_from(old(self)@, final(self)@),
            final(self)@.len() <= old(self)@.len() + 1,
            r matches Err(e) ==> e is InvalidRolloutAction,
            old(self)@[0].is_terminal ==> r is Ok,
            r matches Ok(m) ==> {
                &&& m.node_count == final(self)@.len()
                &&& m.total_return as int == sat_add(
                    m.reward_prefix as int,
                    m.rollout_return as int,
                )
                &&& m.leaf.0 < final(self)@.len()
                &&& (m.leaf_is_new <==> final(self)@.len() == old(self)@.len() + 1)
                &&& (final(self)@[m.leaf.0 as int].is_terminal ==> m.rollout_return == 0
                    && m.total_return == m.reward_prefix)
                &&& (!final(self)@[m.leaf.0 as int].is_terminal
                    ==> crate::rollout::rollout_result_accounted(m.rollout_return, (RolloutParams {
                        return_type: config.return_type,
                        gamma: config.gamma,
                        max_steps: config.max_steps,
                        fixed_horizon_steps: config.fixed_horizon_steps,
                    })))
                &&& iteration_accounted_by_some_path(old(self)@, final(self)@, m.path_len as int)
                &&& (old(self)@[0].is_terminal ==> m.path_len == 0 && m.total_return == 0
                    && final(self)@ == old(self)@)
                &&& (!old(self)@[0].is_terminal && old(self)@[0].edges@.len() == 1 ==> final(self)@[0].edges@[0].edge_stats.visits as int == clamp_u64(
                    old(self)@[0].edges@[0].edge_stats.visits as int + 1,
                ))
                &&& (!old(self)@[0].is_terminal && old(self)@[0].edges@.len() == 0
                    && final(self)@[0].edges@.len() == 1
                    ==> final(self)@[0].edges@[0].edge_stats.visits == 1)
                &&& (edge_balanced(old(self)@) && crate::search_tree::counts_below(
                    old(self)@,
                    m.path_len as int,
                ) && visits_headroom(old(self)@, m.path_len as int) ==> edge_balanced(
                    final(self)@,
                ))
            },
    {
        match self.iterate_fallible(config, domain) {
            Ok(m) => Ok(m),
            Err(RunError::Tree(e)) => Err(e),
            Err(RunError::Callback(e)) => Err(e),
        }
    }

    /// Run the search for `config.iterations` iterations with fallible
    /// callbacks, invoking the hook after each iteration and folding the
    /// per-iteration metrics into the aggregate.
    pub fn run_with_hook_fallible<D: FallibleSearchDomain, H: IterationHook>(
        &mut self,
        config: &SearchConfig,
        domain: &mut D,
        hook: &mut H,
    ) -> (r: Result<RunMetrics, RunError<D::Error>>)
        requires
            tree_wf(old(self)@),
        ensures
            tree_wf(final(self)@),
            grows_from(old(self)@, final(self)@),
            r matches Err(RunError::Tree(e)) ==> e is InvalidRolloutAction,
            D::never_fails() ==> !(r matches Err(RunError::Callback(_))),
            old(self)@[0].is_terminal && D::never_fails() ==> r is Ok,
            r matches Ok(m) ==> {
                &&& m.iterations_requested == config.iterations
                &&& m.iterations_completed == config.iterations
                &&& m.average_total_return == average_spec(
                    m.total_return_sum,
                    m.iterations_completed,
                )
                &&& (old(self)@[0].is_terminal ==> m.total_return_sum == 0 && final(self)@ == old(self)@)
                &&& (!old(self)@[0].is_terminal && old(self)@[0].edges@.len() == 1
                    ==> final(self)@[0].edges@.len() == 1
                    && final(self)@[0].edges@[0].edge_stats.visits as int == clamp_u64(
                    old(self)@[0].edges@[0].edge_stats.visits as int + config.iterations,
                ))
            },
    {
        let ghost pre = self@;
        let mut metrics = RunMetrics::new(config.iterations);
        let mut i: usize = 0;
        while i < config.iterations
            invariant
                i <= config.iterations,
                pre == old(self)@,
                tree_wf(self@),
                grows_from(pre, self@),
                tree_wf(pre),
                metrics.iterations_requested == config.iterations,
                metrics.iterations_completed == i,
                metrics.average_total_return == average_spec(
                    metrics.total_return_sum,
                    metrics.iterations_completed,
                ),
                pre[0].is_terminal ==> metrics.total_return_sum == 0 && self@ == pre,
                !pre[0].is_terminal && pre[0].edges@.len() == 1 ==> self@[0].edges@.len() == 1
                    && self@[0].edges@[0].edge_stats.visits as int == clamp_u64(
                    pre[0].edges@[0].edge_stats.visits as int + i,
                ),
            decreases config.iterations - i,
        {
            let ghost before = self@;
            let iteration_result = self.iterate_fallible(config, domain);
            proof {
                lemma_grows_trans(pre, before, self@);
                if !pre[0].is_terminal && pre[0].edges@.len() == 1 {
                    assert(crate::search_tree::node_grows(pre[0], before[0]));
                    assert(!before[0].is_terminal && before[0].edges@.len() == 1);
                }
            }
            let iteration_metrics = match iteration_result {
                Ok(m) => m,
                Err(e) => { return Err(e); },
            };
            hook.on_iteration(&iteration_metrics);
            metrics.record(iteration_metrics);
            i = i + 1;
        }
        Ok(metrics)
    }

    /// Run the search with fallible callbacks and no per-iteration hook.
    pub fn run_fallible<D: FallibleSearchDomain>(
        &mut self,
        config: &SearchConfig,
        domain: &mut D,
    ) -> (r: Result<RunMetrics, RunError<D::Error>>)
        requires
            tree_wf(old(self)@),
        ensures
            tree_wf(final(self)@),
            grows_from(old(self)@, final(self)@),
            r matches Err(RunError::Tree(e)) ==> e is InvalidRolloutAction,
            D::never_fails() ==> !(r matches Err(RunError::Callback(_))),
            old(self)@[0].is_terminal && D::never_fails() ==> r is Ok,
            r matches Ok(m) ==> {
                &&& m.iterations_requested == config.iterations
                &&& m.iterations_completed == config.iterations
                &&& m.average_total_return == average_spec(
                    m.total_return_sum,
                    m.iterations_completed,
                )
                &&& (old(self)@[0].is_terminal ==> m.total_return_sum == 0 && final(self)@ == old(self)@)
                &&& (!old(self)@[0].is_terminal && old(self)@[0].edges@.len() == 1
                    ==> final(self)@[0].edges@.len() == 1
                    && final(self)@[0].edges@[0].edge_stats.visits as int == clamp_u64(
                    old(self)@[0].edges@[0].edge_stats.visits as int + config.iterations,
                ))
            },
    {
        let mut hook = SilentHook;
        self.run_with_hook_fallible(config, domain, &mut hook)
    }

    /// Run the search with infallible callbacks and a per-iteration hook.
    pub fn run_with_hook<D: SearchDomain, H: IterationHook>(
        &mut self,
        config: &SearchConfig,
        domain: &mut D,
        hook: &mut H,
    ) -> (r: Result<RunMetrics, TreeError>)
        requires
            tree_wf(old(self)@),
        ensures
            tree_wf(final(self)@),
            grows_from(old(self)@, final(self)@),
            r matches Err(e) ==> e is InvalidRolloutAction,
            old(self)@[0].is_terminal ==> r is Ok,
            r matches Ok(m) ==> {
                &&& m.iterations_requested == config.iterations
                &&& m.iterations_completed == config.iterations
                &&& m.average_total_return == average_spec(
                    m.total_return_sum,
                    m.iterations_completed,
                )
                &&& (old(self)@[0].is_terminal ==> m.total_return_sum == 0 && final(self)@ == old(self)@)
                &&& (!old(self)@[0].is_terminal && old(self)@[0].edges@.len() == 1
                    ==> final(self)@[0].edges@.len() == 1
                    && final(self)@[0].edges@[0].edge_stats.visits as int == clamp_u64(
                    old(self)@[0].edges@[0].edge_stats.visits as int + config.iterations,
                ))
            },
    {
        match self.run_with_hook_fallible(config, domain, hook) {
            Ok(m) => Ok(m),
            Err(RunError::Tree(e)) => Err(e),
            Err(RunError::Callback(e)) => Err(e),
        }
    }

    /// Run the search with infallible callbacks.
    pub fn run<D: SearchDomain>(&mut self, config: &SearchConfig, domain: &mut D) -> (r: Result<
        RunMetrics,
        TreeError,
    >)
        requires
            tree_wf(old(self)@),
        ensures
            tree_wf(final(self)@),
            grows_from(old(self)@, final(self)@),
            r matches Err(e) ==> e is InvalidRolloutAction,
            old(self)@[0].is_terminal ==> r is Ok,
            r matches Ok(m) ==> {
                &&& m.iterations_requested == config.iterations
                &&& m.iterations_completed == config.iterations
                &&& m.average_total_return == average_spec(
                    m.total_return_sum,
                    m.iterations_completed,
                )
                &&& (old(self)@[0].is_terminal ==> m.total_return_sum == 0 && final(self)@ == old(self)@)
                &&& (!old(self)@[0].is_terminal && old(self)@[0].edges@.len() == 1
                    ==> final(self)@[0].edges@.len() == 1
                    && final(self)@[0].edges@[0].edge_stats.visits as int == clamp_u64(
                    old(self)@[0].edges@[0].edge_stats.visits as int + config.iterations,
                ))
            },
    {
        let mut hook = SilentHook;
        self.run_with_hook(config, domain, &mut hook)
    }
}

/// A statistics-only change counts as growth.
pub proof fn lemma_grows_then_stats(a: Seq<Node>, b: Seq<Node>, c: Seq<Node>)
    requires
        grows_from(a, b),
        same_but_stats(b, c),
    ensures
        grows_from(a, c),
{
    assert(b.len() == c.len());
    assert forall|i: int| 0 <= i < a.len() implies crate::search_tree::node_grows(
        a[i],
        #[trigger] c[i],
    ) by {
        assert(crate::search_tree::node_grows(a[i], b[i]));
        assert(node_same_but_stats(b[i], c[i]));
        assert forall|j: int|
            0 <= j < a[i].edges@.len() implies (#[trigger] c[i].edges@[j]).action == a[
        i].edges@[j].action by {
            assert(b[i].edges@[j].action == a[i].edges@[j].action);
            assert(c[i].edges@[j].action == b[i].edges@[j].action);
        };
    };
}

/// Growth composes: what grew from `a` to `b` and from `b` to `c` grew
/// from `a` to `c`.
pub proof fn lemma_grows_trans(a: Seq<Node>, b: Seq<Node>, c: Seq<Node>)
    requires
        grows_from(a, b),
        grows_from(b, c),
    ensures
        grows_from(a, c),
{
    assert(a.len() <= b.len() <= c.len());
    assert forall|i: int| 0 <= i < a.len() implies crate::search_tree::node_grows(
        a[i],
        #[trigger] c[i],
    ) by {
        assert(crate::search_tree::node_grows(a[i], b[i]));
        assert(crate::search_tree::node_grows(b[i], c[i]));
        assert forall|j: int|
            0 <= j < a[i].edges@.len() implies (#[trigger] c[i].edges@[j]).action == a[
        i].edges@[j].action by {
            assert(b[i].edges@[j].action == a[i].edges@[j].action);
            assert(c[i].edges@[j].action == b[i].edges@[j].action);
        };
    };
}


/// The `snake_case` name of a return mode.
pub open spec fn return_type_name(rt: ReturnType) -> Seq<char> {
    match rt {
        ReturnType::Discounted => "discounted"@,
        ReturnType::EpisodicUndiscounted => "episodic_undiscounted"@,
        ReturnType::FixedHorizon => "fixed_horizon"@,
    }
}

/// Render the `snake_case` name of a return mode.
pub fn return_type_name_str(rt: ReturnType) -> (r: &'static str)
    ensures
        r@ == return_type_name(rt),
{
    match rt {
        ReturnType::Discounted => "discounted",
        ReturnType::EpisodicUndiscounted => "episodic_undiscounted",
        ReturnType::FixedHorizon => "fixed_horizon",
    }
}

/// The standardized event model for run logging: a run start echoing the
/// configuration, one event per completed iteration, and a run summary.
/// The engine performs no output itself; it only produces the event
/// values and their rendered lines.
#[derive(Debug, Clone, PartialEq, Eq, Structural)]
pub enum RunLogEvent {
    RunStarted {
        iterations_requested: usize,
        c: i64,
        gamma: i64,
        max_steps: usize,
        return_type: ReturnType,
        fixed_horizon_steps: usize,
    },
    IterationCompleted {
        iteration: usize,
        leaf_node_id: usize,
        leaf_is_new: bool,
        path_len: usize,
        reward_prefix: i64,
        rollout_return: i64,
        total_return: i64,
        node_count: usize,
    },
    RunCompleted {
        iterations_requested: usize,
        iterations_completed: usize,
        total_return_sum: i64,
        average_total_return: QValue,
    },
}

/// The truncated micro-unit value of an exact rational mean, printed to
/// six decimals; a degenerate zero denominator prints as zero.
pub open spec fn avg_micros(q: QValue) -> int {
    if q.den >= 1 {
        crate::fixed::tdiv(q.num as int, q.den as int)
    } else {
        0
    }
}

/// The compact `key=value` text line of an event. Micro-unit values print
/// as six-decimal fixed-point numbers; the mean return prints truncated
/// toward zero to six decimals.
pub open spec fn event_text(e: RunLogEvent) -> Seq<char> {
    match e {
        RunLogEvent::RunStarted { iterations_requested, c, gamma, max_steps, return_type, fixed_horizon_steps } => {
            "run_started iterations_requested="@ + crate::text::dec_digits(
                iterations_requested as int,
            ) + " c="@ + crate::text::micros_chars(c as int) + " gamma="@
                + crate::text::micros_chars(gamma as int) + " max_steps="@
                + crate::text::dec_digits(max_steps as int) + " return_type="@ + return_type_name(
                return_type,
            ) + " fixed_horizon_steps="@ + crate::text::dec_digits(fixed_horizon_steps as int)
        },
        RunLogEvent::IterationCompleted { iteration, leaf_node_id, leaf_is_new, path_len, reward_prefix, rollout_return, total_return, node_count } => {
            "iteration_completed iteration="@ + crate::text::dec_digits(iteration as int)
                + " leaf_node_id="@ + crate::text::dec_digits(leaf_node_id as int)
                + " leaf_is_new="@ + crate::text::bool_chars(leaf_is_new) + " path_len="@
                + crate::text::dec_digits(path_len as int) + " reward_prefix="@
                + crate::text::micros_chars(reward_prefix as int) + " rollout_return="@
                + crate::text::micros_chars(rollout_return as int) + " total_return="@
                + crate::text::micros_chars(total_return as int) + " node_count="@
                + crate::text::dec_digits(node_count as int)
        },
        RunLogEvent::RunCompleted { iterations_requested, iterations_completed, total_return_sum, average_total_return } => {
            "run_completed iterations_requested="@ + crate::text::dec_digits(
                iterations_requested as int,
            ) + " iterations_completed="@ + crate::text::dec_digits(iterations_completed as int)
                + " total_return_sum="@ + crate::text::micros_chars(total_return_sum as int)
                + " average_total_return="@ + crate::text::micros_chars(
                avg_micros(average_total_return),
            )
        },
    }
}

/// The JSON object line of an event, tagged with an `event` discriminator
/// in `snake_case`.
pub open spec fn event_json(e: RunLogEvent) -> Seq<char> {
    match e {
        RunLogEvent::RunStarted { iterations_requested, c, gamma, max_steps, return_type, fixed_horizon_steps } => {
            "{\"event\":\"run_started\",\"iterations_requested\":"@ + crate::text::dec_digits(
                iterations_requested as int,
            ) + ",\"c\":"@ + crate::text::micros_chars(c as int) + ",\"gamma\":"@
                + crate::text::micros_chars(gamma as int) + ",\"max_steps\":"@
                + crate::text::dec_digits(max_steps as int) + ",\"return_type\":\""@
                + return_type_name(return_type) + "\",\"fixed_horizon_steps\":"@
                + crate::text::dec_digits(fixed_horizon_steps as int) + "}"@
        },
        RunLogEvent::IterationCompleted { iteration, leaf_node_id, leaf_is_new, path_len, reward_prefix, rollout_return, total_return, node_count } => {
            "{\"event\":\"iteration_completed\",\"iteration\":"@ + crate::text::dec_digits(
                iteration as int,
            ) + ",\"leaf_node_id\":"@ + crate::text::dec_digits(leaf_node_id as int)
                + ",\"leaf_is_new\":"@ + crate::text::bool_chars(leaf_is_new)
                + ",\"path_len\":"@ + crate::text::dec_digits(path_len as int)
                + ",\"reward_prefix\":"@ + crate::text::micros_chars(reward_prefix as int)
                + ",\"rollout_return\":"@ + crate::text::micros_chars(rollout_return as int)
                + ",\"total_return\":"@ + crate::text::micros_chars(total_return as int)
                + ",\"node_count\":"@ + crate::text::dec_digits(node_count as int) + "}"@
        },
        RunLogEvent::RunCompleted { iterations_requested, iterations_completed, total_return_sum, average_total_return } => {
            "{\"event\":\"run_completed\",\"iterations_requested\":"@
                + crate::text::dec_digits(iterations_requested as int)
                + ",\"iterations_completed\":"@ + crate::text::dec_digits(
                iterations_completed as int,
            ) + ",\"total_return_sum\":"@ + crate::text::micros_chars(total_return_sum as int)
                + ",\"average_total_return\":"@ + crate::text::micros_chars(
                avg_micros(average_total_return),
            ) + "}"@
        },
    }
}

impl RunLogEvent {
    /// The run-start event echoing a configuration.
    pub fn run_started(config: &SearchConfig) -> (r: RunLogEvent)
        ensures
            r == (RunLogEvent::RunStarted {
                iterations_requested: config.iterations,
                c: config.c,
                gamma: config.gamma,
                max_steps: config.max_steps,
                return_type: config.return_type,
                fixed_horizon_steps: config.fixed_horizon_steps,
            }),
    {
        RunLogEvent::RunStarted {
            iterations_requested: config.iterations,
            c: config.c,
            gamma: config.gamma,
            max_steps: config.max_steps,
            return_type: config.return_type,
            fixed_horizon_steps: config.fixed_horizon_steps,
        }
    }

    /// The per-iteration event carrying one iteration's metrics.
    pub fn iteration_completed(iteration: usize, metrics: &IterationMetrics) -> (r: RunLogEvent)
        ensures
            r == (RunLogEvent::IterationCompleted {
                iteration,
                leaf_node_id: metrics.leaf.0,
                leaf_is_new: metrics.leaf_is_new,
                path_len: metrics.path_len,
                reward_prefix: metrics.reward_prefix,
                rollout_return: metrics.rollout_return,
                total_return: metrics.total_return,
                node_count: metrics.node_count,
            }),
    {
        RunLogEvent::IterationCompleted {
            iteration,
            leaf_node_id: metrics.leaf.index(),
            leaf_is_new: metrics.leaf_is_new,
            path_len: metrics.path_len,
            reward_prefix: metrics.reward_prefix,
            rollout_return: metrics.rollout_return,
            total_return: metrics.total_return,
            node_count: metrics.node_count,
        }
    }

    /// The run-summary event carrying a run's aggregate metrics.
    pub fn run_completed(metrics: &RunMetrics) -> (r: RunLogEvent)
        ensures
            r == (RunLogEvent::RunCompleted {
                iterations_requested: metrics.iterations_requested,
                iterations_completed: metrics.iterations_completed,
                total_return_sum: metrics.total_return_sum,
                average_total_return: metrics.average_total_return,
            }),
    {
        RunLogEvent::RunCompleted {
            iterations_requested: metrics.iterations_requested,
            iterations_completed: metrics.iterations_completed,
            total_return_sum: metrics.total_return_sum,
            average_total_return: metrics.average_total_return,
        }
    }

    /// Render this event as a compact `key=value` text line.
    pub fn to_text_line(&self) -> (r: String)
        ensures
            r@ == event_text(*self),
    {
        match self {
            RunLogEvent::RunStarted { iterations_requested, c, gamma, max_steps, return_type, fixed_horizon_steps } => {
                let mut s = String::from_str("run_started iterations_requested=");
                s.append(crate::text::usize_to_string(*iterations_requested).as_str());
                s.append(" c=");
                s.append(crate::text::micros_to_string(*c).as_str());
                s.append(" gamma=");
                s.append(crate::text::micros_to_string(*gamma).as_str());
                s.append(" max_steps=");
                s.append(crate::text::usize_to_string(*max_steps).as_str());
                s.append(" return_type=");
                s.append(return_type_name_str(*return_type));
                s.append(" fixed_horizon_steps=");
                s.append(crate::text::usize_to_string(*fixed_horizon_steps).as_str());
                s
            },
            RunLogEvent::IterationCompleted { iteration, leaf_node_id, leaf_is_new, path_len, reward_prefix, rollout_return, total_return, node_count } => {
                let mut s = String::from_str("iteration_completed iteration=");
                s.append(crate::text::usize_to_string(*iteration).as_str());
                s.append(" leaf_node_id=");
                s.append(crate::text::usize_to_string(*leaf_node_id).as_str());
                s.append(" leaf_is_new=");
                s.append(crate::text::bool_to_string(*leaf_is_new).as_str());
                s.append(" path_len=");
                s.append(crate::text::usize_to_string(*path_len).as_str());
                s.append(" reward_prefix=");
                s.append(crate::text::micros_to_string(*reward_prefix).as_str());
                s.append(" rollout_return=");
                s.append(crate::text::micros_to_string(*rollout_return).as_str());
                s.append(" total_return=");
                s.append(crate::text::micros_to_string(*total_return).as_str());
                s.append(" node_count=");
                s.append(crate::text::usize_to_string(*node_count).as_str());
                s
            },
            RunLogEvent::RunCompleted { iterations_requested, iterations_completed, total_return_sum, average_total_return } => {
                let mut s = String::from_str("run_completed iterations_requested=");
                s.append(crate::text::usize_to_string(*iterations_requested).as_str());
                s.append(" iterations_completed=");
                s.append(crate::text::usize_to_string(*iterations_completed).as_str());
                s.append(" total_return_sum=");
                s.append(crate::text::micros_to_string(*total_return_sum).as_str());
                s.append(" average_total_return=");
                let avg = if average_total_return.den >= 1 {
                    crate::fixed::tdiv_i64(average_total_return.num, average_total_return.den)
                } else {
                    0
                };
                s.append(crate::text::micros_to_string(avg).as_str());
                s
            },
        }
    }

    /// Render this event as a JSON object line tagged with an `event`
    /// discriminator.
    pub fn to_json_line(&self) -> (r: String)
        ensures
            r@ == event_json(*self),
    {
        match self {
            RunLogEvent::RunStarted { iterations_requested, c, gamma, max_steps, return_type, fixed_horizon_steps } => {
                let mut s = String::from_str("{\"event\":\"run_started\",\"iterations_requested\":");
                s.append(crate::text::usize_to_string(*iterations_requested).as_str());
                s.append(",\"c\":");
                s.append(crate::text::micros_to_string(*c).as_str());
                s.append(",\"gamma\":");
                s.append(crate::text::micros_to_string(*gamma).as_str());
                s.append(",\"max_steps\":");
                s.append(crate::text::usize_to_string(*max_steps).as_str());
                s.append(",\"return_type\":\"");
                s.append(return_type_name_str(*return_type));
                s.append("\",\"fixed_horizon_steps\":");
                s.append(crate::text::usize_to_string(*fixed_horizon_steps).as_str());
                s.append("}");
                s
            },
            RunLogEvent::IterationCompleted { iteration, leaf_node_id, leaf_is_new, path_len, reward_prefix, rollout_return, total_return, node_count } => {
                let mut s = String::from_str("{\"event\":\"iteration_completed\",\"iteration\":");
                s.append(crate::text::usize_to_string(*iteration).as_str());
                s.append(",\"leaf_node_id\":");
                s.append(crate::text::usize_to_string(*leaf_node_id).as_str());
                s.append(",\"leaf_is_new\":");
                s.append(crate::text::bool_to_string(*leaf_is_new).as_str());
                s.append(",\"path_len\":");
                s.append(crate::text::usize_to_string(*path_len).as_str());
                s.append(",\"reward_prefix\":");
                s.append(crate::text::micros_to_string(*reward_prefix).as_str());
                s.append(",\"rollout_return\":");
                s.append(crate::text::micros_to_string(*rollout_return).as_str());
                s.append(",\"total_return\":");
                s.append(crate::text::micros_to_string(*total_return).as_str());
                s.append(",\"node_count\":");
                s.append(crate::text::usize_to_string(*node_count).as_str());
                s.append("}");
                s
            },
            RunLogEvent::RunCompleted { iterations_requested, iterations_completed, total_return_sum, average_total_return } => {
                let mut s = String::from_str("{\"event\":\"run_completed\",\"iterations_requested\":");
                s.append(crate::text::usize_to_string(*iterations_requested).as_str());
                s.append(",\"iterations_completed\":");
                s.append(crate::text::usize_to_string(*iterations_completed).as_str());
                s.append(",\"total_return_sum\":");
                s.append(crate::text::micros_to_string(*total_return_sum).as_str());
                s.append(",\"average_total_return\":");
                let avg = if average_total_return.den >= 1 {
                    crate::fixed::tdiv_i64(average_total_return.num, average_total_return.den)
                } else {
                    0
                };
                s.append(crate::text::micros_to_string(avg).as_str());
                s.append("}");
                s
            },
        }
    }
}

} // verus!
