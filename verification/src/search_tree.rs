//! The search tree: an arena of decision nodes rooted at index zero, the
//! UCB tree-policy descent, and the root-action selectors.

use vstd::prelude::*;

use crate::arena::Arena;
use crate::domain::{FallibleSearchDomain, SearchDomain};
use crate::error::TreeError;
use crate::ids::{ActionId, NodeId, StateKey};
use crate::mcts::RunError;
use crate::node::Node;
use crate::outcomes::{
    first_index, lemma_first_index, lemma_first_index_absent, lemma_first_index_found, Outcome,
};
use crate::stats::{q_lt, QValue};

verus! {

/// What one tree-policy descent produced: the edges taken from the root,
/// the leaf reached, whether that leaf was created by this descent, and the
/// reward accumulated along the path, in micro-units.
#[derive(Debug, Clone)]
pub struct TreePolicyResult {
    pub path: Vec<(NodeId, ActionId)>,
    pub leaf: NodeId,
    pub leaf_is_new: bool,
    pub reward: i64,
}

/// Local well-formedness of node `i` within the node sequence: the node is
/// internally consistent, its depth never exceeds its id, and every
/// outcome child is a live node allocated after `i`.
pub open spec fn node_wf_in(ns: Seq<Node>, i: int) -> bool {
    let n = ns[i];
    &&& n.wf()
    &&& n.depth as int <= i
    &&& forall|j: int, k: int|
        0 <= j < n.edges@.len() && 0 <= k < n.edges@[j].outcomes@.len() ==> {
            let o = #[trigger] n.edges@[j].outcomes@[k];
            i < o.child.0 < ns.len()
        }
}

/// The parent back-edge of node `i` resolves: the parent was allocated
/// earlier, it owns the named edge, that edge's outcome set maps this
/// node's state key to this node's id, and the depths differ by one.
pub open spec fn parent_link_ok(ns: Seq<Node>, i: int) -> bool {
    match ns[i].parent {
        Some(pa) => {
            let p = pa.0.0 as int;
            let a = pa.1.0 as int;
            &&& 0 <= p < i
            &&& 0 <= a < ns[p].edges@.len()
            &&& ({
                let fi = first_index(ns[p].edges@[a].outcomes@, ns[i].state_key);
                fi >= 0 && ns[p].edges@[a].outcomes@[fi].child.0 == i
            })
            &&& ns[i].depth as int == ns[p].depth as int + 1
        },
        None => false,
    }
}

/// Well-formedness of the whole tree: a root at index zero with no parent
/// and depth zero, every node locally well-formed, and every non-root node
/// linked to its parent.
pub open spec fn tree_wf(ns: Seq<Node>) -> bool {
    &&& ns.len() >= 1
    &&& ns[0].parent is None
    &&& ns[0].depth == 0
    &&& forall|i: int| 0 <= i < ns.len() ==> node_wf_in(ns, i)
    &&& forall|i: int| 1 <= i < ns.len() ==> parent_link_ok(ns, i)
}

/// The second sequence extends the first: nodes are only appended, the
/// identity fields of existing nodes never change, existing edges keep
/// their action ids and statistics, and a node that had edges keeps
/// exactly those edge positions.
pub open spec fn node_grows(b: Node, a: Node) -> bool {
    &&& a.state_key == b.state_key
    &&& a.depth == b.depth
    &&& a.parent == b.parent
    &&& a.is_terminal == b.is_terminal
    &&& a.edges@.len() >= b.edges@.len()
    &&& (b.edges@.len() > 0 ==> a.edges@.len() == b.edges@.len())
    &&& forall|j: int|
        0 <= j < b.edges@.len() ==> (#[trigger] a.edges@[j]).action == b.edges@[j].action
}

pub open spec fn grows_from(pre: Seq<Node>, cur: Seq<Node>) -> bool {
    &&& cur.len() >= pre.len()
    &&& forall|i: int| 0 <= i < pre.len() ==> node_grows(pre[i], #[trigger] cur[i])
}

/// Between the two snapshots, no statistics of an already-existing edge
/// changed.
pub open spec fn stats_unchanged(pre: Seq<Node>, cur: Seq<Node>) -> bool {
    forall|i: int, j: int|
        0 <= i < pre.len() && 0 <= j < pre[i].edges@.len() ==> (#[trigger] cur[
        i].edges@[j]).edge_stats == pre[i].edges@[j].edge_stats
}

/// The number of outcomes an edge had before the descent: zero for edges
/// that did not yet exist.
pub open spec fn old_olen(pre: Seq<Node>, n: int, a: int) -> int {
    if 0 <= n < pre.len() && 0 <= a < pre[n].edges@.len() {
        pre[n].edges@[a].outcomes@.len() as int
    } else {
        0
    }
}

/// The observation count an entry had before the descent: zero for
/// entries that did not yet exist.
pub open spec fn old_cnt(pre: Seq<Node>, n: int, a: int, k: int) -> int {
    if 0 <= n < pre.len() && 0 <= a < pre[n].edges@.len() && 0 <= k
        < pre[n].edges@[a].outcomes@.len() {
        pre[n].edges@[a].outcomes@[k].count as int
    } else {
        0
    }
}

/// The summed observation count an edge had before the descent: zero for
/// edges that did not yet exist.
pub open spec fn old_sum(pre: Seq<Node>, n: int, a: int) -> int {
    if 0 <= n < pre.len() && 0 <= a < pre[n].edges@.len() {
        crate::outcomes::sum_counts(pre[n].edges@[a].outcomes@)
    } else {
        0
    }
}

/// No edge gained or lost outcome entries relative to the first snapshot;
/// edges created since then have none.
pub open spec fn outcome_shape(pre: Seq<Node>, cur: Seq<Node>) -> bool {
    forall|n: int, a: int|
        0 <= n < cur.len() && 0 <= a < cur[n].edges@.len() ==> (#[trigger] cur[
        n].edges@[a]).outcomes@.len() == old_olen(pre, n, a)
}

/// Every observation count exceeds its pre-descent value by at most
/// `slack`.
pub open spec fn counts_bound(pre: Seq<Node>, cur: Seq<Node>, slack: int) -> bool {
    forall|n: int, a: int, k: int|
        0 <= n < cur.len() && 0 <= a < cur[n].edges@.len() && 0 <= k
            < cur[n].edges@[a].outcomes@.len() ==> (#[trigger] cur[
        n].edges@[a].outcomes@[k]).count as int <= old_cnt(pre, n, a, k) + slack
}

/// Every observation count in the tree has at least `slack` headroom
/// before the counter range ends.
pub open spec fn counts_below(ns: Seq<Node>, slack: int) -> bool {
    forall|n: int, a: int, k: int|
        0 <= n < ns.len() && 0 <= a < ns[n].edges@.len() && 0 <= k
            < ns[n].edges@[a].outcomes@.len() ==> (#[trigger] ns[
        n].edges@[a].outcomes@[k]).count as int + slack <= u64::MAX as int
}

/// Each edge's summed observation count grew by exactly the number of
/// times the path traversed it.
pub open spec fn counts_delta_exact(
    pre: Seq<Node>,
    cur: Seq<Node>,
    path: Seq<(NodeId, ActionId)>,
) -> bool {
    forall|n: int, a: int|
        0 <= n < cur.len() && 0 <= a < cur[n].edges@.len()
            ==> crate::outcomes::sum_counts((#[trigger] cur[n].edges@[a]).outcomes@) == old_sum(
            pre,
            n,
            a,
        ) + crate::mcts::pair_count(path, n, a)
}

/// Edges created since the first snapshot carry zero statistics.
pub open spec fn new_edges_unvisited(pre: Seq<Node>, cur: Seq<Node>) -> bool {
    forall|n: int, a: int|
        0 <= n < cur.len() && 0 <= a < cur[n].edges@.len() && !(0 <= n < pre.len() && 0 <= a
            < pre[n].edges@.len()) ==> (#[trigger] cur[n].edges@[a]).edge_stats.visits == 0 && cur[
        n].edges@[a].edge_stats.value_sum == 0
}

/// One path entry names a live node and one of its live edges.
pub open spec fn entry_valid(ns: Seq<Node>, e: (NodeId, ActionId)) -> bool {
    e.0.0 < ns.len() && e.1.0 < ns[e.0.0 as int].edges@.len()
}

/// Every path entry names a live node and one of its live edges.
pub open spec fn path_valid(ns: Seq<Node>, p: Seq<(NodeId, ActionId)>) -> bool {
    forall|t: int| 0 <= t < p.len() ==> entry_valid(ns, #[trigger] p[t])
}

/// The search tree. The arena owns every node; index zero is the root.
#[derive(Debug, Clone)]
pub struct Tree {
    arena: Arena<Node>,
}

impl View for Tree {
    type V = Seq<Node>;

    closed spec fn view(&self) -> Seq<Node> {
        self.arena@
    }
}

impl Tree {
    /// A tree holding a single root node for the given state.
    pub fn new(root_state_key: StateKey, root_is_terminal: bool) -> (r: Tree)
        ensures
            r@.len() == 1,
            r@[0].state_key == root_state_key,
            r@[0].depth == 0,
            r@[0].parent is None,
            r@[0].is_terminal == root_is_terminal,
            r@[0].edges@.len() == 0,
            tree_wf(r@),
    {
        let mut arena = Arena::new();
        let root = Node::new(root_state_key, 0, None, root_is_terminal);
        let _ = arena.allocate(root);
        Tree { arena }
    }

    /// The root node's id: always index zero.
    pub fn root_id(&self) -> (r: NodeId)
        ensures
            r.0 == 0,
    {
        NodeId(0)
    }

    /// Number of nodes in the tree.
    pub fn node_count(&self) -> (r: usize)
        ensures
            r == self@.len(),
    {
        self.arena.len()
    }

    /// Look a node up by id.
    pub fn node(&self, node_id: NodeId) -> (r: Result<&Node, TreeError>)
        ensures
            node_id.0 < self@.len() ==> (r matches Ok(n) && *n == self@[node_id.0 as int]),
            node_id.0 >= self@.len() ==> r == Err::<&Node, TreeError>(
                TreeError::MissingNode { node_id },
            ),
    {
        match self.arena.get(node_id) {
            Some(n) => Ok(n),
            None => Err(TreeError::MissingNode { node_id }),
        }
    }

    /// Read a node at a position known to be in range.
    pub fn node_at(&self, i: usize) -> (r: &Node)
        requires
            i < self@.len(),
        ensures
            *r == self@[i as int],
    {
        self.arena.at(i)
    }

    /// Borrow a node mutably at a position known to be in range.
    pub fn node_at_mut(&mut self, i: usize) -> (r: &mut Node)
        requires
            i < old(self)@.len(),
        ensures
            *r == old(self)@[i as int],
            final(self)@ == old(self)@.update(i as int, *final(r)),
    {
        self.arena.at_mut(i)
    }

    /// The root action with the most visits; ties go to the smallest
    /// action index. `None` when the root has no edges.
    pub fn best_root_action_by_visits(&self) -> (r: Result<Option<ActionId>, TreeError>)
        requires
            self@.len() >= 1,
        ensures
            r matches Ok(opt) && {
                let edges = self@[0].edges@;
                &&& (opt is None <==> edges.len() == 0)
                &&& opt matches Some(a) ==> {
                    let i = a.0 as int;
                    &&& 0 <= i < edges.len()
                    &&& forall|j: int|
                        0 <= j < edges.len() ==> (#[trigger] edges[j]).edge_stats.visits
                            <= edges[i].edge_stats.visits
                    &&& forall|j: int|
                        0 <= j < i ==> (#[trigger] edges[j]).edge_stats.visits
                            < edges[i].edge_stats.visits
                }
            },
    {
        let root = self.arena.at(0);
        let n = root.edge_count();
        if n == 0 {
            return Ok(None);
        }
        let mut best_idx: usize = 0;
        let mut best_visits: u64 = root.edge_at(0).visits();
        let mut i: usize = 1;
        while i < n
            invariant
                1 <= i <= n,
                n == root.edges@.len(),
                0 <= best_idx < i,
                best_visits == root.edges@[best_idx as int].edge_stats.visits,
                forall|j: int|
                    0 <= j < i ==> (#[trigger] root.edges@[j]).edge_stats.visits <= best_visits,
                forall|j: int|
                    0 <= j < best_idx ==> (#[trigger] root.edges@[j]).edge_stats.visits
                        < best_visits,
            decreases n - i,
        {
            let v = root.edge_at(i).visits();
            if v > best_visits {
                best_idx = i;
                best_visits = v;
            }
            i = i + 1;
        }
        Ok(Some(ActionId(best_idx)))
    }

    /// The root action with the greatest mean value, compared as exact
    /// rationals; ties go to the smallest action index. `None` when the
    /// root has no edges.
    pub fn best_root_action_by_value(&self) -> (r: Result<Option<ActionId>, TreeError>)
        requires
            self@.len() >= 1,
        ensures
            r matches Ok(opt) && {
                let edges = self@[0].edges@;
                &&& (opt is None <==> edges.len() == 0)
                &&& opt matches Some(a) ==> {
                    let i = a.0 as int;
                    &&& 0 <= i < edges.len()
                    &&& forall|j: int|
                        0 <= j < edges.len() ==> !q_lt(
                            edges[i].edge_stats.q_spec(),
                            (#[trigger] edges[j]).edge_stats.q_spec(),
                        )
                    &&& forall|j: int|
                        0 <= j < i ==> q_lt(
                            (#[trigger] edges[j]).edge_stats.q_spec(),
                            edges[i].edge_stats.q_spec(),
                        )
                }
            },
    {
        let root = self.arena.at(0);
        let n = root.edge_count();
        if n == 0 {
            return Ok(None);
        }
        let mut best_idx: usize = 0;
        let mut best_q: QValue = root.edge_at(0).q();
        let mut i: usize = 1;
        while i < n
            invariant
                1 <= i <= n,
                n == root.edges@.len(),
                0 <= best_idx < i,
                best_q == root.edges@[best_idx as int].edge_stats.q_spec(),
                forall|j: int|
                    0 <= j < i ==> !q_lt(
                        best_q,
                        (#[trigger] root.edges@[j]).edge_stats.q_spec(),
                    ),
                forall|j: int|
                    0 <= j < best_idx ==> q_lt(
                        (#[trigger] root.edges@[j]).edge_stats.q_spec(),
                        best_q,
                    ),
            decreases n - i,
        {
            let q = root.edge_at(i).q();
            if best_q.lt(&q) {
                proof {
                    assert forall|j: int| 0 <= j < i implies !q_lt(
                        q,
                        (#[trigger] root.edges@[j]).edge_stats.q_spec(),
                    ) by {
                        let ej = root.edges@[j].edge_stats.q_spec();
                        if q_lt(q, ej) {
                            crate::stats::lemma_q_lt_trans(best_q, q, ej);
                        }
                    };
                    assert forall|j: int| 0 <= j < i implies q_lt(
                        (#[trigger] root.edges@[j]).edge_stats.q_spec(),
                        q,
                    ) by {
                        let ej = root.edges@[j].edge_stats.q_spec();
                        crate::stats::lemma_q_le_lt_trans(ej, best_q, q);
                    };
                }
                best_idx = i;
                best_q = q;
            }
            i = i + 1;
        }
        Ok(Some(ActionId(best_idx)))
    }

    /// One UCB descent from the root with fallible callbacks: select by
    /// UCB, expand unexpanded nodes on demand, route observed outcomes to
    /// children, and stop at a terminal node, an action-free sink, or a
    /// freshly discovered outcome.
    #[verifier::rlimit(100)]
    pub fn tree_policy_fallible<D: FallibleSearchDomain>(&mut self, c: i64, domain: &mut D) -> (r:
        Result<TreePolicyResult, RunError<D::Error>>)
        requires
            tree_wf(old(self)@),
        ensures
            tree_wf(final(self)@),
            grows_from(old(self)@, final(self)@),
            stats_unchanged(old(self)@, final(self)@),
            final(self)@.len() <= old(self)@.len() + 1,
            r matches Err(e) ==> e is Callback,
            D::never_fails() ==> r is Ok,
            r matches Ok(res) ==> {
                &&& res.leaf.0 < final(self)@.len()
                &&& (res.leaf_is_new <==> final(self)@.len() == old(self)@.len() + 1)
                &&& (res.leaf_is_new ==> res.leaf.0 == old(self)@.len())
                &&& (!res.leaf_is_new ==> res.leaf.0 < old(self)@.len())
                &&& path_valid(final(self)@, res.path@)
                &&& (res.path@.len() > 0 ==> res.path@[0].0.0 == 0)
                &&& (forall|t: int| 1 <= t < res.path@.len() ==> (#[trigger] res.path@[t]).0.0 != 0)
                &&& (old(self)@[0].is_terminal ==> res.path@.len() == 0 && res.leaf.0 == 0
                    && res.reward == 0 && !res.leaf_is_new && final(self)@ == old(self)@)
                &&& (!old(self)@[0].is_terminal && old(self)@[0].edges@.len() > 0
                    ==> res.path@.len() > 0)
                &&& (!old(self)@[0].is_terminal && final(self)@[0].edges@.len() > 0
                    ==> res.path@.len() > 0)
                &&& (res.leaf_is_new ==> res.path@.len() > 0 && final(self)@[res.leaf.0 as int].edges@.len() == 0
                    && final(self)@[res.leaf.0 as int].parent == Some(res.path@.last()))
                &&& new_edges_unvisited(old(self)@, final(self)@)
                &&& (counts_below(old(self)@, res.path@.len() as int) ==> counts_delta_exact(
                    old(self)@,
                    final(self)@,
                    res.path@,
                ))
            },
    {
        let ghost pre = self@;
        let mut current: usize = 0;
        let mut path: Vec<(NodeId, ActionId)> = Vec::new();
        let mut reward: i64 = 0;

        loop
            invariant
                tree_wf(self@),
                grows_from(pre, self@),
                self@.len() == pre.len(),
                current < self@.len(),
                path_valid(self@, path@),
                path@.len() == 0 <==> current == 0,
                path@.len() > 0 ==> path@[0].0.0 == 0,
                forall|t: int| 1 <= t < path@.len() ==> (#[trigger] path@[t]).0.0 != 0,
                pre[0].is_terminal ==> current == 0 && self@ == pre && reward == 0,
                !pre[0].is_terminal && pre[0].edges@.len() > 0 ==> current > 0 || self@[0].edges@.len() > 0,
                stats_unchanged(pre, self@),
                outcome_shape(pre, self@),
                counts_bound(pre, self@, path@.len() as int),
                new_edges_unvisited(pre, self@),
                counts_below(pre, path@.len() as int) ==> counts_delta_exact(pre, self@, path@),
                forall|t: int| 0 <= t < path@.len() ==> (#[trigger] path@[t]).0.0 < current,
                tree_wf(pre),
                pre == old(self)@,
            decreases self@.len() - current,
        {
            let cur_key = self.arena.at(current).state_key;
            let cur_depth = self.arena.at(current).depth;
            if self.arena.at(current).is_terminal {
                proof {
                    if current == 0 {
                        assert(crate::search_tree::node_grows(pre[0], self@[0]));
                        assert(pre[0].is_terminal);
                    }
                }
                return Ok(
                    TreePolicyResult { path, leaf: NodeId(current), leaf_is_new: false, reward },
                );
            }

            // Expand the node's action edges if needed.
            if !self.arena.at(current).is_expanded() {
                let n = match domain.num_actions(cur_key) {
                    Ok(v) => v,
                    Err(e) => { return Err(RunError::Callback(e)); },
                };
                if n == 0 {
                    proof {
                        if current == 0 && !pre[0].is_terminal && pre[0].edges@.len() > 0 {
                            assert(node_wf_in(self@, 0));
                            assert(self@[0].wf());
                            assert(self@[0].edges@.len() > 0);
                            assert(false);
                        }
                        if current == 0 {
                            assert(node_wf_in(self@, 0));
                            assert(self@[0].wf());
                            assert(self@[0].edges@.len() == 0);
                        }
                    }
                    // A state with no legal action is an expected sink.
                    return Ok(
                        TreePolicyResult {
                            path,
                            leaf: NodeId(current),
                            leaf_is_new: false,
                            reward,
                        },
                    );
                }
                let ghost before = self@;
                let cur = Ghost(current as int);
                proof {
                    assert(node_wf_in(before, cur@));
                    assert(before[cur@].wf());
                    assert(before[cur@].edges@.len() == 0);
                }
                let node = self.arena.at_mut(current);
                node.expand(n);
                proof {
                    assert(self@ == before.update(cur@, self@[cur@]));
                    assert forall|i: int| 0 <= i < self@.len() implies node_wf_in(self@, i) by {
                        assert(node_wf_in(before, i));
                        if i != cur@ {
                            assert(self@[i] == before[i]);
                        } else {
                            assert(self@[i].wf());
                            assert(forall|j: int|
                                0 <= j < self@[i].edges@.len() ==> (#[trigger] self@[
                                i].edges@[j]).outcomes@.len() == 0);
                        }
                    };
                    assert forall|i: int| 1 <= i < self@.len() implies parent_link_ok(
                        self@,
                        i,
                    ) by {
                        assert(parent_link_ok(before, i));
                        let p = before[i].parent->Some_0.0.0 as int;
                        let a = before[i].parent->Some_0.1.0 as int;
                        if p == cur@ {
                            // The parent owned an edge, so it was already
                            // expanded and is untouched by this branch.
                            assert(before[cur@].edges@.len() > a >= 0);
                            assert(false);
                        }
                        assert(self@[p] == before[p]);
                        assert(self@[i].parent == before[i].parent);
                        assert(self@[i].state_key == before[i].state_key);
                        assert(self@[i].depth == before[i].depth);
                    };
                    assert(tree_wf(self@));
                    // The expanded node had no edges before the descent,
                    // so its fresh edges carry no outcomes and no counts.
                    assert(pre[cur@].edges@.len() == 0);
                    assert forall|n: int, a: int|
                        0 <= n < self@.len() && 0 <= a < self@[n].edges@.len() implies (
                    #[trigger] self@[n].edges@[a]).outcomes@.len() == old_olen(pre, n, a) by {
                        if n != cur@ {
                            assert(self@[n] == before[n]);
                        }
                    };
                    assert(counts_bound(pre, self@, path@.len() as int)) by {
                        assert forall|n: int, a: int, k: int|
                            0 <= n < self@.len() && 0 <= a < self@[n].edges@.len() && 0 <= k
                                < self@[n].edges@[a].outcomes@.len() implies (#[trigger] self@[
                        n].edges@[a].outcomes@[k]).count as int <= old_cnt(pre, n, a, k)
                            + path@.len() by {
                            if n != cur@ {
                                assert(self@[n] == before[n]);
                            }
                        };
                    };
                    if counts_below(pre, path@.len() as int) {
                        assert forall|n: int, a: int|
                            0 <= n < self@.len() && 0 <= a < self@[n].edges@.len() implies
                            crate::outcomes::sum_counts((#[trigger] self@[n].edges@[a]).outcomes@)
                            == old_sum(pre, n, a) + crate::mcts::pair_count(path@, n, a) by {
                            if n == cur@ {
                                assert(self@[n].edges@[a].outcomes@.len() == 0);
                                crate::mcts::lemma_pair_count_absent(path@, n, a);
                            } else {
                                assert(self@[n] == before[n]);
                            }
                        };
                    }
                    assert(new_edges_unvisited(pre, self@)) by {
                        assert forall|n: int, a: int|
                            0 <= n < self@.len() && 0 <= a < self@[n].edges@.len() && !(0 <= n
                                < pre.len() && 0 <= a < pre[n].edges@.len()) implies (
                        #[trigger] self@[n].edges@[a]).edge_stats.visits == 0 && self@[
                        n].edges@[a].edge_stats.value_sum == 0 by {
                            if n != cur@ {
                                assert(self@[n] == before[n]);
                            }
                        };
                    };
                }
            }

            proof {
                assert(node_wf_in(self@, current as int));
                assert(self@[current as int].wf());
                assert(self@[current as int].edges@.len() > 0);
            }
            // Pick the action with the best UCB score.
            let action = {
                match self.arena.at(current).select_edge(c) {
                    Some(a) => a,
                    None => {
                        return Err(
                            RunError::Tree(
                                TreeError::ActionSelectionFailed { node_id: NodeId(current) },
                            ),
                        );
                    },
                }
            };

            let ghost path0 = path@;
            path.push((NodeId(current), action));

            // Sample the environment outcome.
            let (next_key, step_reward, next_terminal) = match domain.step(cur_key, action) {
                Ok(t) => t,
                Err(e) => { return Err(RunError::Callback(e)); },
            };
            reward = crate::fixed::sat_add_i64(reward, step_reward);

            // Route to the child if this outcome was seen before.
            let ghost before = self@;
            let cur = Ghost(current as int);
            let ai = Ghost(action.0 as int);
            let existing_child = {
                let node = self.arena.at_mut(current);
                let edge = &mut node.edges[action.0];
                edge.increment_outcome(next_key)
            };
            let ghost fi = first_index(before[cur@].edges@[ai@].outcomes@, next_key);
            proof {
                assert(node_wf_in(before, cur@));
                lemma_first_index(before[cur@].edges@[ai@].outcomes@, next_key);
                assert(self@ == before.update(cur@, self@[cur@]));
                assert(self@[cur@].edges@ == before[cur@].edges@.update(
                    ai@,
                    self@[cur@].edges@[ai@],
                ));
                if fi >= 0 {
                    let e = before[cur@].edges@[ai@].outcomes@[fi];
                    assert(self@[cur@].edges@[ai@].outcomes@ == before[
                    cur@].edges@[ai@].outcomes@.update(
                        fi,
                        Outcome {
                            next_state_key: e.next_state_key,
                            child: e.child,
                            count: (crate::fixed::sat_inc(e.count as int)) as u64,
                        },
                    ));
                } else {
                    assert(self@[cur@].edges@[ai@].outcomes@ == before[
                    cur@].edges@[ai@].outcomes@);
                }
                assert forall|i: int| 0 <= i < self@.len() implies node_wf_in(self@, i) by {
                    assert(node_wf_in(before, i));
                    if i != cur@ {
                        assert(self@[i] == before[i]);
                    } else {
                        assert(self@[i].wf());
                        assert forall|j: int, k: int|
                            0 <= j < self@[i].edges@.len() && 0 <= k < self@[
                            i].edges@[j].outcomes@.len() implies {
                            let o = #[trigger] self@[i].edges@[j].outcomes@[k];
                            i < o.child.0 < self@.len()
                        } by {
                            if j == ai@ && fi >= 0 && k == fi {
                                assert(self@[i].edges@[j].outcomes@[k].child == before[
                                i].edges@[j].outcomes@[k].child);
                            } else {
                                assert(self@[i].edges@[j].outcomes@[k] == before[
                                i].edges@[j].outcomes@[k]);
                            }
                        };
                    }
                };
                assert forall|i: int| 1 <= i < self@.len() implies parent_link_ok(self@, i) by {
                    assert(parent_link_ok(before, i));
                    let p = before[i].parent->Some_0.0.0 as int;
                    let a = before[i].parent->Some_0.1.0 as int;
                    assert(self@[i].parent == before[i].parent);
                    assert(self@[i].state_key == before[i].state_key);
                    assert(self@[i].depth == before[i].depth);
                    if p == cur@ && a == ai@ && fi >= 0 {
                        lemma_first_index_update_count(
                            before[p].edges@[a].outcomes@,
                            fi,
                            self@[p].edges@[a].outcomes@,
                            before[i].state_key,
                        );
                        assert(self@[p].depth == before[p].depth);
                    } else {
                        assert(self@[p].edges@[a].outcomes@ == before[p].edges@[a].outcomes@);
                        assert(self@[p].depth == before[p].depth);
                        assert(self@[p].edges@.len() == before[p].edges@.len());
                    }
                };
                assert(tree_wf(self@));
            }

            if let Some(child) = existing_child {
                proof {
                    assert(fi >= 0);
                    lemma_first_index(before[cur@].edges@[ai@].outcomes@, next_key);
                    assert(node_wf_in(before, cur@));
                    assert(before[cur@].edges@[ai@].outcomes@[fi].child == child);
                    assert(cur@ < child.0 < self@.len());
                    assert(path@ == path0.push((NodeId(current), action)));
                    let oldset = before[cur@].edges@[ai@].outcomes@;
                    let newset = self@[cur@].edges@[ai@].outcomes@;
                    assert(newset.len() == oldset.len());
                    // Shape and per-count bound survive the increment.
                    assert forall|n: int, a: int|
                        0 <= n < self@.len() && 0 <= a < self@[n].edges@.len() implies (
                    #[trigger] self@[n].edges@[a]).outcomes@.len() == old_olen(pre, n, a) by {
                        if n == cur@ {
                            if a != ai@ {
                                assert(self@[n].edges@[a].outcomes@ == before[n].edges@[a].outcomes@);
                            }
                        } else {
                            assert(self@[n] == before[n]);
                        }
                    };
                    assert forall|n: int, a: int, k: int|
                        0 <= n < self@.len() && 0 <= a < self@[n].edges@.len() && 0 <= k
                            < self@[n].edges@[a].outcomes@.len() implies (#[trigger] self@[
                    n].edges@[a].outcomes@[k]).count as int <= old_cnt(pre, n, a, k)
                        + path@.len() by {
                        if n == cur@ {
                            if a == ai@ {
                                if k != fi {
                                    assert(newset[k] == oldset[k]);
                                }
                            } else {
                                assert(self@[n].edges@[a].outcomes@ == before[n].edges@[a].outcomes@);
                            }
                        } else {
                            assert(self@[n] == before[n]);
                        }
                    };
                    assert forall|n: int, a: int|
                        0 <= n < self@.len() && 0 <= a < self@[n].edges@.len() && !(0 <= n
                            < pre.len() && 0 <= a < pre[n].edges@.len()) implies (
                    #[trigger] self@[n].edges@[a]).edge_stats.visits == 0 && self@[
                    n].edges@[a].edge_stats.value_sum == 0 by {
                        if n == cur@ {
                            assert(self@[n].edges@[a].edge_stats == before[n].edges@[a].edge_stats);
                        } else {
                            assert(self@[n] == before[n]);
                        }
                    };
                    // Exact count growth, under headroom for the longer path.
                    if counts_below(pre, path@.len() as int) {
                        assert(counts_below(pre, path0.len() as int)) by {
                            assert forall|n: int, a: int, k: int|
                                0 <= n < pre.len() && 0 <= a < pre[n].edges@.len() && 0 <= k
                                    < pre[n].edges@[a].outcomes@.len() implies (#[trigger] pre[
                            n].edges@[a].outcomes@[k]).count as int + path0.len()
                                <= u64::MAX as int by {
                                assert(pre[n].edges@[a].outcomes@[k].count as int + path@.len()
                                    <= u64::MAX as int);
                            };
                        };
                        assert(counts_delta_exact(pre, before, path0));
                        assert forall|n: int, a: int|
                            0 <= n < self@.len() && 0 <= a < self@[n].edges@.len() implies
                            crate::outcomes::sum_counts((#[trigger] self@[n].edges@[a]).outcomes@)
                            == old_sum(pre, n, a) + crate::mcts::pair_count(path@, n, a) by {
                            crate::mcts::lemma_pair_count_push(
                                path0,
                                (NodeId(current), action),
                                n,
                                a,
                            );
                            if n == cur@ && a == ai@ {
                                assert(oldset.len() == old_olen(pre, cur@, ai@));
                                assert(oldset[fi].count as int <= old_cnt(pre, cur@, ai@, fi)
                                    + path0.len());
                                assert(old_cnt(pre, cur@, ai@, fi) + path@.len()
                                    <= u64::MAX as int);
                                assert(oldset[fi].count < u64::MAX);
                                crate::outcomes::lemma_sum_counts_update(
                                    oldset,
                                    fi,
                                    newset[fi],
                                );
                                assert(newset[fi].count as int == oldset[fi].count as int + 1);
                                assert(crate::outcomes::sum_counts(newset)
                                    == crate::outcomes::sum_counts(oldset) + 1);
                            } else if n == cur@ {
                                assert(self@[n].edges@[a].outcomes@ == before[
                                n].edges@[a].outcomes@);
                            } else {
                                assert(self@[n] == before[n]);
                            }
                        };
                    }
                }
                current = child.index();
                continue ;
            }

            // A fresh outcome: allocate the child and register it.
            let live_nodes = self.arena.len();
            proof {
                assert(fi < 0);
                assert(node_wf_in(self@, cur@));
                assert(cur_depth as int <= cur@);
                assert(cur@ < live_nodes as int);
                assert(cur_depth < u64::MAX);
            }
            let child_node = Node::new(
                next_key,
                cur_depth + 1,
                Some((NodeId(current), action)),
                next_terminal,
            );
            let ghost before_alloc = self@;
            let child_id = self.arena.allocate(child_node);
            let ghost ci = child_id.0 as int;
            let inserted = {
                let node = self.arena.at_mut(current);
                let edge = &mut node.edges[action.0];
                edge.insert_outcome(next_key, child_id)
            };
            proof {
                let oldset = before_alloc[cur@].edges@[ai@].outcomes@;
                assert(first_index(oldset, next_key) == fi) by {
                    assert(oldset == before[cur@].edges@[ai@].outcomes@);
                };
            }
            match inserted {
                Some(_) => {},
                None => {
                    return Err(
                        RunError::Tree(
                            TreeError::OutcomeInsertFailed {
                                node_id: NodeId(current),
                                action_id: action,
                            },
                        ),
                    );
                },
            }
            proof {
                let oldset = before_alloc[cur@].edges@[ai@].outcomes@;
                lemma_first_index_absent_push(oldset, next_key, child_id);
                let newset = self@[cur@].edges@[ai@].outcomes@;
                assert(newset == oldset.push(
                    Outcome { next_state_key: next_key, child: child_id, count: 1 },
                ));
                assert(self@[ci].parent == Some((NodeId(current), action)));
                assert(self@.len() == before_alloc.len() + 1);
                assert forall|i: int| 0 <= i < self@.len() implies node_wf_in(self@, i) by {
                    if i == ci {
                        assert(self@[i].edges@.len() == 0);
                        assert(self@[i].depth as int == cur_depth as int + 1 <= ci);
                    } else {
                        assert(node_wf_in(before_alloc, i));
                        if i != cur@ {
                            assert(self@[i] == before_alloc[i]);
                        } else {
                            assert(self@[i].wf());
                            assert forall|j: int, k: int|
                                0 <= j < self@[i].edges@.len() && 0 <= k < self@[
                                i].edges@[j].outcomes@.len() implies {
                                let o = #[trigger] self@[i].edges@[j].outcomes@[k];
                                i < o.child.0 < self@.len()
                            } by {
                                if j == ai@ && k == oldset.len() {
                                    assert(self@[i].edges@[j].outcomes@[k].child == child_id);
                                } else {
                                    assert(self@[i].edges@[j].outcomes@[k] == before_alloc[
                                    i].edges@[j].outcomes@[k]);
                                }
                            };
                        }
                    }
                };
                assert forall|i: int| 1 <= i < self@.len() implies parent_link_ok(self@, i) by {
                    if i == ci {
                        lemma_first_index_absent_push(oldset, next_key, child_id);
                        assert(self@[cur@].depth == before_alloc[cur@].depth);
                    } else {
                        assert(parent_link_ok(before_alloc, i));
                        let p = before_alloc[i].parent->Some_0.0.0 as int;
                        let a = before_alloc[i].parent->Some_0.1.0 as int;
                        assert(self@[i].parent == before_alloc[i].parent);
                        assert(self@[i].state_key == before_alloc[i].state_key);
                        assert(self@[i].depth == before_alloc[i].depth);
                        if p == cur@ && a == ai@ {
                            lemma_first_index(oldset, before_alloc[i].state_key);
                            lemma_first_index_push_keeps(
                                oldset,
                                before_alloc[i].state_key,
                                Outcome { next_state_key: next_key, child: child_id, count: 1 },
                            );
                            assert(self@[p].depth == before_alloc[p].depth);
                        } else {
                            assert(self@[p].edges@[a] == before_alloc[p].edges@[a]);
                            assert(self@[p].depth == before_alloc[p].depth);
                            assert(self@[p].edges@.len() == before_alloc[p].edges@.len());
                        }
                    }
                };
                assert(tree_wf(self@));
                // Statistics are untouched; the fresh node has no edges,
                // and the registered outcome adds exactly one count.
                assert(path@ == path0.push((NodeId(current), action)));
                assert(self@[cur@].edges@[ai@].outcomes@ == before_alloc[
                cur@].edges@[ai@].outcomes@.push(
                    Outcome { next_state_key: next_key, child: child_id, count: 1 },
                ));
                assert(before_alloc[cur@].edges@[ai@].outcomes@ == before[
                cur@].edges@[ai@].outcomes@);
                assert forall|n: int, a: int|
                    0 <= n < self@.len() && 0 <= a < self@[n].edges@.len() && !(0 <= n < pre.len()
                        && 0 <= a < pre[n].edges@.len()) implies (#[trigger] self@[
                n].edges@[a]).edge_stats.visits == 0 && self@[n].edges@[a].edge_stats.value_sum
                    == 0 by {
                    assert(n != ci);
                    if n == cur@ {
                        assert(self@[n].edges@[a].edge_stats == before[n].edges@[a].edge_stats);
                    } else {
                        assert(self@[n] == before[n]);
                    }
                };
                if counts_below(pre, path@.len() as int) {
                    assert(counts_below(pre, path0.len() as int)) by {
                        assert forall|n: int, a: int, k: int|
                            0 <= n < pre.len() && 0 <= a < pre[n].edges@.len() && 0 <= k
                                < pre[n].edges@[a].outcomes@.len() implies (#[trigger] pre[
                        n].edges@[a].outcomes@[k]).count as int + path0.len()
                            <= u64::MAX as int by {
                            assert(pre[n].edges@[a].outcomes@[k].count as int + path@.len()
                                <= u64::MAX as int);
                        };
                    };
                    assert(counts_delta_exact(pre, before, path0));
                    assert forall|n: int, a: int|
                        0 <= n < self@.len() && 0 <= a < self@[n].edges@.len() implies
                        crate::outcomes::sum_counts((#[trigger] self@[n].edges@[a]).outcomes@)
                        == old_sum(pre, n, a) + crate::mcts::pair_count(path@, n, a) by {
                        crate::mcts::lemma_pair_count_push(path0, (NodeId(current), action), n, a);
                        if n == ci {
                            assert(self@[n].edges@.len() == 0);
                        } else if n == cur@ && a == ai@ {
                            crate::outcomes::lemma_sum_counts_push(
                                before[cur@].edges@[ai@].outcomes@,
                                Outcome { next_state_key: next_key, child: child_id, count: 1 },
                            );
                        } else if n == cur@ {
                            assert(self@[n].edges@[a].outcomes@ == before_alloc[
                            n].edges@[a].outcomes@);
                            assert(before_alloc[n].edges@[a].outcomes@ == before[
                            n].edges@[a].outcomes@);
                        } else {
                            assert(self@[n] == before_alloc[n]);
                            assert(before_alloc[n] == before[n]);
                        }
                    };
                }
            }

            proof {
                assert(self@[ci].edges@.len() == 0);
                assert(path@.last() == (NodeId(current), action));
            }
            return Ok(TreePolicyResult { path, leaf: child_id, leaf_is_new: true, reward });
        }
    }

    /// One UCB descent from the root with infallible callbacks.
    pub fn tree_policy<D: SearchDomain>(&mut self, c: i64, domain: &mut D) -> (r: Result<
        TreePolicyResult,
        TreeError,
    >)
        requires
            tree_wf(old(self)@),
        ensures
            tree_wf(final(self)@),
            grows_from(old(self)@, final(self)@),
            stats_unchanged(old(self)@, final(self)@),
            final(self)@.len() <= old(self)@.len() + 1,
            r matches Ok(res) ==> {
                &&& res.leaf.0 < final(self)@.len()
                &&& (res.leaf_is_new <==> final(self)@.len() == old(self)@.len() + 1)
                &&& (res.leaf_is_new ==> res.leaf.0 == old(self)@.len())
                &&& (!res.leaf_is_new ==> res.leaf.0 < old(self)@.len())
                &&& path_valid(final(self)@, res.path@)
                &&& (res.path@.len() > 0 ==> res.path@[0].0.0 == 0)
                &&& (forall|t: int| 1 <= t < res.path@.len() ==> (#[trigger] res.path@[t]).0.0 != 0)
                &&& (old(self)@[0].is_terminal ==> res.path@.len() == 0 && res.leaf.0 == 0
                    && res.reward == 0 && !res.leaf_is_new && final(self)@ == old(self)@)
                &&& (!old(self)@[0].is_terminal && old(self)@[0].edges@.len() > 0
                    ==> res.path@.len() > 0)
                &&& (!old(self)@[0].is_terminal && final(self)@[0].edges@.len() > 0
                    ==> res.path@.len() > 0)
                &&& (res.leaf_is_new ==> res.path@.len() > 0 && final(self)@[res.leaf.0 as int].edges@.len() == 0
                    && final(self)@[res.leaf.0 as int].parent == Some(res.path@.last()))
                &&& new_edges_unvisited(old(self)@, final(self)@)
                &&& (counts_below(old(self)@, res.path@.len() as int) ==> counts_delta_exact(
                    old(self)@,
                    final(self)@,
                    res.path@,
                ))
            },
            r is Ok,
    {
        match self.tree_policy_fallible(c, domain) {
            Ok(res) => Ok(res),
            Err(RunError::Tree(e)) => Err(e),
            Err(RunError::Callback(e)) => Err(e),
        }
    }
}

/// Updating an entry's count leaves every key lookup unchanged.
pub proof fn lemma_first_index_update_count(
    s: Seq<Outcome>,
    i: int,
    t: Seq<Outcome>,
    k: StateKey,
)
    requires
        0 <= i < s.len(),
        t.len() == s.len(),
        t[i].next_state_key == s[i].next_state_key,
        t[i].child == s[i].child,
        forall|j: int| 0 <= j < s.len() && j != i ==> t[j] == s[j],
    ensures
        first_index(t, k) == first_index(s, k),
        first_index(s, k) >= 0 ==> t[first_index(s, k)].child == s[first_index(s, k)].child,
{
    lemma_first_index(s, k);
    let fi = first_index(s, k);
    if fi >= 0 {
        assert(forall|j: int| 0 <= j < fi ==> t[j].next_state_key != k);
        lemma_first_index_found(t, k, fi);
    } else {
        assert(forall|j: int| 0 <= j < t.len() ==> t[j].next_state_key != k);
        lemma_first_index_absent(t, k);
    }
}

/// Appending an entry never disturbs the lookup of keys already present.
pub proof fn lemma_first_index_push_keeps(s: Seq<Outcome>, k: StateKey, o: Outcome)
    requires
        first_index(s, k) >= 0,
    ensures
        first_index(s.push(o), k) == first_index(s, k),
        s.push(o)[first_index(s, k)] == s[first_index(s, k)],
{
    lemma_first_index(s, k);
    let fi = first_index(s, k);
    let t = s.push(o);
    assert(forall|j: int| 0 <= j < s.len() ==> t[j] == s[j]);
    lemma_first_index_found(t, k, fi);
}

/// Appending an entry for an absent key makes its lookup land on it.
pub proof fn lemma_first_index_absent_push(s: Seq<Outcome>, k: StateKey, child: NodeId)
    requires
        first_index(s, k) < 0,
    ensures
        ({
            let t = s.push(Outcome { next_state_key: k, child, count: 1 });
            first_index(t, k) == s.len() && t[s.len() as int].child == child
        }),
{
    lemma_first_index(s, k);
    let t = s.push(Outcome { next_state_key: k, child, count: 1 });
    assert(forall|j: int| 0 <= j < s.len() ==> t[j] == s[j]);
    lemma_first_index_found(t, k, s.len() as int);
}

} // verus!
