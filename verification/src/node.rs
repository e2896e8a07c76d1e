//! A decision node of the search tree.

use vstd::prelude::*;

use crate::edges::{score_lt, ucb_spec, ActionEdge, UcbScore};
use crate::fixed::{clamp_u64, sat_add_u64};
use crate::ids::{ActionId, NodeId, StateKey};

verus! {

/// Whether a node's action edges have been created yet. The `Expanding`
/// variant is reserved for a future concurrent expansion phase and is never
/// entered by this single-threaded engine.
#[derive(Debug, Clone, Copy, PartialEq, Eq, Structural)]
pub enum ExpansionState {
    Unexpanded,
    Expanding,
    Expanded,
}

/// Sum of the visit counters over a prefix of an edge sequence.
pub open spec fn sum_visits(s: Seq<ActionEdge>) -> int
    decreases s.len(),
{
    if s.len() == 0 {
        0
    } else {
        sum_visits(s.drop_last()) + s.last().edge_stats.visits as int
    }
}

/// The parent visit total used by UCB: the visit sum over all edges,
/// clamped into the `u64` range, but at least one.
pub open spec fn n_parent_spec(s: Seq<ActionEdge>) -> int {
    let total = clamp_u64(sum_visits(s));
    if total < 1 {
        1
    } else {
        total
    }
}

/// The UCB score of one edge within its node.
pub open spec fn edge_score(e: ActionEdge, np: int, c: int) -> UcbScore {
    ucb_spec(e.edge_stats.visits as int, e.edge_stats.value_sum as int, np, c)
}

/// A decision state in the search tree: its fingerprint, depth, parent
/// back-edge, action edges, terminal flag, and expansion status.
#[derive(Debug, Clone, PartialEq, Eq)]
pub struct Node {
    pub state_key: StateKey,
    pub depth: u64,
    pub parent: Option<(NodeId, ActionId)>,
    pub edges: Vec<ActionEdge>,
    pub is_terminal: bool,
    pub expansion_state: ExpansionState,
}

impl Node {
    /// Local well-formedness: edge `j` carries action id `j` and a
    /// well-formed outcome set; edges exist exactly when the node is
    /// expanded; terminal nodes are never expanded.
    pub open spec fn wf(self) -> bool {
        &&& forall|j: int|
            0 <= j < self.edges@.len() ==> (#[trigger] self.edges@[j]).action.0 == j
                && self.edges@[j].wf()
        &&& (self.expansion_state == ExpansionState::Expanded) <==> self.edges@.len() > 0
        &&& self.is_terminal ==> self.expansion_state == ExpansionState::Unexpanded
    }

    /// A fresh, unexpanded node.
    pub fn new(
        state_key: StateKey,
        depth: u64,
        parent: Option<(NodeId, ActionId)>,
        is_terminal: bool,
    ) -> (r: Node)
        ensures
            r.state_key == state_key,
            r.depth == depth,
            r.parent == parent,
            r.edges@ == Seq::<ActionEdge>::empty(),
            r.is_terminal == is_terminal,
            r.expansion_state == ExpansionState::Unexpanded,
            r.wf(),
    {
        Node {
            state_key,
            depth,
            parent,
            edges: Vec::new(),
            is_terminal,
            expansion_state: ExpansionState::Unexpanded,
        }
    }

    /// Create one fresh edge per legal action and mark the node expanded.
    /// Does nothing when the node is already expanded.
    pub fn expand(&mut self, num_actions: usize)
        requires
            old(self).wf(),
            !old(self).is_terminal,
            num_actions >= 1,
        ensures
            final(self).state_key == old(self).state_key,
            final(self).depth == old(self).depth,
            final(self).parent == old(self).parent,
            final(self).is_terminal == old(self).is_terminal,
            final(self).expansion_state == ExpansionState::Expanded,
            final(self).wf(),
            old(self).expansion_state == ExpansionState::Expanded ==> *final(self) == *old(self),
            old(self).expansion_state != ExpansionState::Expanded ==> {
                &&& final(self).edges@.len() == num_actions
                &&& forall|j: int|
                    0 <= j < num_actions ==> {
                        let e = #[trigger] final(self).edges@[j];
                        &&& e.action.0 == j
                        &&& e.edge_stats.visits == 0
                        &&& e.edge_stats.value_sum == 0
                        &&& e.outcomes@.len() == 0
                    }
            },
    {
        if matches!(self.expansion_state, ExpansionState::Expanded) {
            return ;
        }
        let mut edges: Vec<ActionEdge> = Vec::new();
        let mut j: usize = 0;
        while j < num_actions
            invariant
                0 <= j <= num_actions,
                edges@.len() == j,
                forall|i: int|
                    0 <= i < j ==> {
                        let e = #[trigger] edges@[i];
                        &&& e.action.0 == i
                        &&& e.edge_stats.visits == 0
                        &&& e.edge_stats.value_sum == 0
                        &&& e.outcomes@.len() == 0
                        &&& e.wf()
                    },
            decreases num_actions - j,
        {
            edges.push(ActionEdge::new(ActionId(j)));
            j = j + 1;
        }
        self.edges = edges;
        self.expansion_state = ExpansionState::Expanded;
    }

    /// Pick the edge with the maximal UCB score; ties go to the smallest
    /// action index. Returns `None` exactly when the node has no edges.
    pub fn select_edge(&self, c: i64) -> (r: Option<ActionId>)
        ensures
            r is None <==> self.edges@.len() == 0,
            r matches Some(a) ==> {
                let np = n_parent_spec(self.edges@);
                let i = a.0 as int;
                &&& 0 <= i < self.edges@.len()
                &&& forall|j: int|
                    0 <= j < self.edges@.len() ==> !score_lt(
                        edge_score(self.edges@[i], np, c as int),
                        edge_score(#[trigger] self.edges@[j], np, c as int),
                    )
                &&& forall|j: int|
                    0 <= j < i ==> score_lt(
                        edge_score(#[trigger] self.edges@[j], np, c as int),
                        edge_score(self.edges@[i], np, c as int),
                    )
            },
    {
        let n = self.edges.len();
        if n == 0 {
            return None;
        }
        // Parent visit total: the saturating sum of the edge visits, at
        // least one.
        let mut total: u64 = 0;
        let mut j: usize = 0;
        while j < n
            invariant
                0 <= j <= n,
                n == self.edges@.len(),
                total as int == clamp_u64(sum_visits(self.edges@.subrange(0, j as int))),
            decreases n - j,
        {
            proof {
                let pre = self.edges@.subrange(0, j as int);
                let post = self.edges@.subrange(0, j + 1 as int);
                assert(post.drop_last() =~= pre);
                assert(post.last() == self.edges@[j as int]);
            }
            total = sat_add_u64(total, self.edges[j].edge_stats.visits);
            j = j + 1;
        }
        let n_parent: u64 = if total < 1 {
            1
        } else {
            total
        };
        proof {
            assert(self.edges@.subrange(0, n as int) =~= self.edges@);
            assert(n_parent as int == n_parent_spec(self.edges@));
        }
        let ghost np = n_parent_spec(self.edges@);
        let mut best_idx: usize = 0;
        let mut best_score: UcbScore = self.edges[0].ucb_score(n_parent, c);
        let mut i: usize = 1;
        while i < n
            invariant
                1 <= i <= n,
                n == self.edges@.len(),
                0 <= best_idx < i,
                n_parent >= 1,
                np == n_parent_spec(self.edges@),
                n_parent as int == np,
                best_score == edge_score(self.edges@[best_idx as int], np, c as int),
                forall|j: int|
                    0 <= j < i ==> !score_lt(
                        best_score,
                        edge_score(#[trigger] self.edges@[j], np, c as int),
                    ),
                forall|j: int|
                    0 <= j < best_idx ==> score_lt(
                        edge_score(#[trigger] self.edges@[j], np, c as int),
                        best_score,
                    ),
            decreases n - i,
        {
            let score = self.edges[i].ucb_score(n_parent, c);
            if score.gt(&best_score) {
                best_idx = i;
                best_score = score;
            }
            i = i + 1;
        }
        Some(ActionId(best_idx))
    }

    /// The edge standing for a given action, if it exists.
    pub fn edge(&self, action_id: ActionId) -> (r: Option<&ActionEdge>)
        ensures
            action_id.0 < self.edges@.len() ==> (r matches Some(e) && *e == self.edges@[action_id.0 as int]),
            action_id.0 >= self.edges@.len() ==> r is None,
    {
        if action_id.0 < self.edges.len() {
            Some(&self.edges[action_id.0])
        } else {
            None
        }
    }

    /// Borrow the edge standing for a given action mutably, if it exists.
    pub fn edge_mut(&mut self, action_id: ActionId) -> (r: Option<&mut ActionEdge>)
        ensures
            action_id.0 >= old(self).edges@.len() ==> r is None && *final(self) == *old(self),
            action_id.0 < old(self).edges@.len() ==> r is Some && *r.unwrap() == old(
                self,
            ).edges@[action_id.0 as int] && final(self).edges@ == old(self).edges@.update(
                action_id.0 as int,
                *final(r.unwrap()),
            ) && final(self).state_key == old(self).state_key && final(self).depth == old(
                self,
            ).depth && final(self).parent == old(self).parent && final(self).is_terminal == old(
                self,
            ).is_terminal && final(self).expansion_state == old(self).expansion_state,
    {
        if action_id.0 < self.edges.len() {
            Some(&mut self.edges[action_id.0])
        } else {
            None
        }
    }

    /// Read an edge by position.
    pub fn edge_at(&self, j: usize) -> (r: &ActionEdge)
        requires
            j < self.edges@.len(),
        ensures
            *r == self.edges@[j as int],
    {
        &self.edges[j]
    }

    /// Number of action edges on this node.
    pub fn edge_count(&self) -> (r: usize)
        ensures
            r == self.edges@.len(),
    {
        self.edges.len()
    }

    /// Depth of this node below the root.
    pub fn depth(&self) -> (r: u64)
        ensures
            r == self.depth,
    {
        self.depth
    }

    /// Fingerprint of the decision state this node stands for.
    pub fn state_key(&self) -> (r: StateKey)
        ensures
            r == self.state_key,
    {
        self.state_key
    }

    /// Whether this node's state is terminal.
    pub fn is_terminal(&self) -> (r: bool)
        ensures
            r == self.is_terminal,
    {
        self.is_terminal
    }

    /// Expansion status of this node.
    pub fn expansion_state(&self) -> (r: ExpansionState)
        ensures
            r == self.expansion_state,
    {
        self.expansion_state
    }

    /// Overwrite the expansion status.
    pub fn set_expansion_state(&mut self, state: ExpansionState)
        ensures
            *final(self) == (Node { expansion_state: state, ..*old(self) }),
    {
        self.expansion_state = state;
    }

    /// Whether this node's edges have been created.
    pub fn is_expanded(&self) -> (r: bool)
        ensures
            r == (self.expansion_state == ExpansionState::Expanded),
    {
        matches!(self.expansion_state, ExpansionState::Expanded)
    }

    /// Parent back-edge: the parent node and the action that reached this
    /// node, or `None` for the root.
    pub fn parent(&self) -> (r: Option<(NodeId, ActionId)>)
        ensures
            r == self.parent,
    {
        self.parent
    }
}

} // verus!
