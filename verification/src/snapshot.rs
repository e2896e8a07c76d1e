//! Read-only structural export of a search tree, and its canonical JSON
//! form.
//!
//! The snapshot carries values only — ids, fingerprints, statistics, and
//! observed outcomes — never references into the tree, so it is safe to
//! serialize and inspect. Node order is arena order, edge order is action
//! order, and outcome order is insertion order.

use vstd::prelude::*;

use crate::node::Node;
use crate::search_tree::Tree;
use crate::stats::QValue;
use crate::text::{bool_chars, dec_digits, micros_chars};

verus! {

/// One exported outcome: the observed next-state fingerprint, the child
/// node, and the observation count.
#[derive(Debug, Clone, Copy, PartialEq, Eq, Structural)]
pub struct OutcomeSnapshot {
    pub next_state_key: u64,
    pub child_node_id: usize,
    pub count: u64,
}

/// One exported action edge: its statistics (the value sum in micro-units
/// and the mean value as an exact rational) and its outcomes.
#[derive(Debug, Clone, PartialEq, Eq)]
pub struct ActionEdgeSnapshot {
    pub action_id: usize,
    pub visits: u64,
    pub value_sum: i64,
    pub q: QValue,
    pub outcomes: Vec<OutcomeSnapshot>,
}

/// One exported node: identity, parent back-edge, and edges.
#[derive(Debug, Clone, PartialEq, Eq)]
pub struct NodeSnapshot {
    pub node_id: usize,
    pub state_key: u64,
    pub depth: u64,
    pub is_terminal: bool,
    pub parent_node_id: Option<usize>,
    pub parent_action_id: Option<usize>,
    pub edges: Vec<ActionEdgeSnapshot>,
}

/// The exported tree: a schema version for forward compatibility, the
/// root id, the node count, and the nodes in arena order.
#[derive(Debug, Clone, PartialEq, Eq)]
pub struct TreeSnapshot {
    pub schema_version: u32,
    pub root_node_id: usize,
    pub node_count: usize,
    pub nodes: Vec<NodeSnapshot>,
}

/// The exported edge carries exactly the edge's values.
pub open spec fn edge_snapshot_matches(e: crate::edges::ActionEdge, j: int, s: ActionEdgeSnapshot) -> bool {
    &&& s.action_id == e.action.0
    &&& s.visits == e.edge_stats.visits
    &&& s.value_sum == e.edge_stats.value_sum
    &&& s.q == e.edge_stats.q_spec()
    &&& s.outcomes@.len() == e.outcomes@.len()
    &&& forall|k: int|
        0 <= k < e.outcomes@.len() ==> {
            let o = #[trigger] s.outcomes@[k];
            &&& o.next_state_key == e.outcomes@[k].next_state_key.0
            &&& o.child_node_id == e.outcomes@[k].child.0
            &&& o.count == e.outcomes@[k].count
        }
}

/// The exported node carries exactly the node's values.
pub open spec fn node_snapshot_matches(n: Node, i: int, s: NodeSnapshot) -> bool {
    &&& s.node_id == i
    &&& s.state_key == n.state_key.0
    &&& s.depth == n.depth
    &&& s.is_terminal == n.is_terminal
    &&& (match n.parent {
        Some(pa) => s.parent_node_id == Some(pa.0.0) && s.parent_action_id == Some(pa.1.0),
        None => s.parent_node_id is None && s.parent_action_id is None,
    })
    &&& s.edges@.len() == n.edges@.len()
    &&& forall|j: int|
        0 <= j < n.edges@.len() ==> edge_snapshot_matches(n.edges@[j], j, #[trigger] s.edges@[j])
}

/// The snapshot carries exactly the tree's values.
pub open spec fn tree_snapshot_matches(ns: Seq<Node>, s: TreeSnapshot) -> bool {
    &&& s.schema_version == 1
    &&& s.root_node_id == 0
    &&& s.node_count == ns.len()
    &&& s.nodes@.len() == ns.len()
    &&& forall|i: int| 0 <= i < ns.len() ==> node_snapshot_matches(ns[i], i, #[trigger] s.nodes@[i])
}

impl Tree {
    /// Export the whole tree as a value-only snapshot.
    pub fn snapshot(&self) -> (r: TreeSnapshot)
        ensures
            tree_snapshot_matches(self@, r),
            r.schema_version == 1,
            r.root_node_id == 0,
            r.node_count == self@.len(),
            r.nodes@.len() == self@.len(),
            forall|i: int|
                0 <= i < self@.len() ==> node_snapshot_matches(self@[i], i, #[trigger] r.nodes@[i]),
    {
        let n_nodes = self.node_count();
        let mut nodes: Vec<NodeSnapshot> = Vec::new();
        let mut i: usize = 0;
        while i < n_nodes
            invariant
                0 <= i <= n_nodes,
                n_nodes == self@.len(),
                nodes@.len() == i,
                forall|x: int|
                    0 <= x < i ==> node_snapshot_matches(self@[x], x, #[trigger] nodes@[x]),
            decreases n_nodes - i,
        {
            let node = self.node_at(i);
            let n_edges = node.edge_count();
            let mut edges: Vec<ActionEdgeSnapshot> = Vec::new();
            let mut j: usize = 0;
            while j < n_edges
                invariant
                    0 <= j <= n_edges,
                    n_edges == node.edges@.len(),
                    edges@.len() == j,
                    forall|x: int|
                        0 <= x < j ==> edge_snapshot_matches(
                            node.edges@[x],
                            x,
                            #[trigger] edges@[x],
                        ),
                decreases n_edges - j,
            {
                let edge = node.edge_at(j);
                let n_outcomes = edge.outcomes_len();
                let mut outcomes: Vec<OutcomeSnapshot> = Vec::new();
                let mut k: usize = 0;
                while k < n_outcomes
                    invariant
                        0 <= k <= n_outcomes,
                        n_outcomes == edge.outcomes@.len(),
                        outcomes@.len() == k,
                        forall|x: int|
                            0 <= x < k ==> {
                                let o = #[trigger] outcomes@[x];
                                &&& o.next_state_key == edge.outcomes@[x].next_state_key.0
                                &&& o.child_node_id == edge.outcomes@[x].child.0
                                &&& o.count == edge.outcomes@[x].count
                            },
                    decreases n_outcomes - k,
                {
                    let o = edge.outcomes.entry(k);
                    outcomes.push(
                        OutcomeSnapshot {
                            next_state_key: o.next_state_key.0,
                            child_node_id: o.child.0,
                            count: o.count,
                        },
                    );
                    k = k + 1;
                }
                edges.push(
                    ActionEdgeSnapshot {
                        action_id: edge.action.0,
                        visits: edge.edge_stats.visits,
                        value_sum: edge.edge_stats.value_sum,
                        q: edge.q(),
                        outcomes,
                    },
                );
                j = j + 1;
            }
            let (parent_node_id, parent_action_id) = match node.parent {
                Some((p, a)) => (Some(p.0), Some(a.0)),
                None => (None, None),
            };
            nodes.push(
                NodeSnapshot {
                    node_id: i,
                    state_key: node.state_key.0,
                    depth: node.depth,
                    is_terminal: node.is_terminal,
                    parent_node_id,
                    parent_action_id,
                    edges,
                },
            );
            i = i + 1;
        }
        TreeSnapshot { schema_version: 1, root_node_id: 0, node_count: n_nodes, nodes }
    }

    /// Export the whole tree as a canonical JSON line: the rendered form
    /// of exactly the snapshot this tree exports.
    pub fn snapshot_json(&self) -> (r: String)
        ensures
            exists|snap: TreeSnapshot|
                #[trigger] tree_snapshot_matches(self@, snap) && r@ == json_tree(snap),
    {
        let snap = self.snapshot();
        let rendered = tree_snapshot_json(&snap);
        proof {
            assert(tree_snapshot_matches(self@, snap) && rendered@ == json_tree(snap));
        }
        rendered
    }
}

/// Elements joined by commas.
pub open spec fn join_comma(elems: Seq<Seq<char>>) -> Seq<char>
    decreases elems.len(),
{
    if elems.len() == 0 {
        Seq::<char>::empty()
    } else if elems.len() == 1 {
        elems[0]
    } else {
        join_comma(elems.drop_last()) + seq![','] + elems.last()
    }
}

/// The JSON object of one outcome.
pub open spec fn json_outcome(o: OutcomeSnapshot) -> Seq<char> {
    "{\"next_state_key\":"@ + dec_digits(o.next_state_key as int) + ",\"child_node_id\":"@
        + dec_digits(o.child_node_id as int) + ",\"count\":"@ + dec_digits(o.count as int) + "}"@
}

/// The JSON object of one edge: the value sum as a six-digit fixed-point
/// decimal and the mean value as an exact rational object.
pub open spec fn json_edge(e: ActionEdgeSnapshot) -> Seq<char> {
    "{\"action_id\":"@ + dec_digits(e.action_id as int) + ",\"visits\":"@ + dec_digits(
        e.visits as int,
    ) + ",\"value_sum\":"@ + micros_chars(e.value_sum as int) + ",\"q\":{\"num\":"@ + micros_chars(
        e.q.num as int,
    ) + ",\"den\":"@ + dec_digits(e.q.den as int) + "},\"outcomes\":["@ + join_comma(
        e.outcomes@.map_values(|o: OutcomeSnapshot| json_outcome(o)),
    ) + "]}"@
}

/// The JSON object of one node.
pub open spec fn json_node(n: NodeSnapshot) -> Seq<char> {
    "{\"node_id\":"@ + dec_digits(n.node_id as int) + ",\"state_key\":"@ + dec_digits(
        n.state_key as int,
    ) + ",\"depth\":"@ + dec_digits(n.depth as int) + ",\"is_terminal\":"@ + bool_chars(
        n.is_terminal,
    ) + ",\"parent_node_id\":"@ + json_opt_usize(n.parent_node_id) + ",\"parent_action_id\":"@
        + json_opt_usize(n.parent_action_id) + ",\"edges\":["@ + join_comma(
        n.edges@.map_values(|e: ActionEdgeSnapshot| json_edge(e)),
    ) + "]}"@
}

/// An optional id renders as a number or `null`.
pub open spec fn json_opt_usize(v: Option<usize>) -> Seq<char> {
    match v {
        Some(x) => dec_digits(x as int),
        None => "null"@,
    }
}

/// The JSON object of the whole snapshot.
pub open spec fn json_tree(s: TreeSnapshot) -> Seq<char> {
    "{\"schema_version\":"@ + dec_digits(s.schema_version as int) + ",\"root_node_id\":"@
        + dec_digits(s.root_node_id as int) + ",\"node_count\":"@ + dec_digits(s.node_count as int)
        + ",\"nodes\":["@ + join_comma(s.nodes@.map_values(|n: NodeSnapshot| json_node(n))) + "]}"@
}

/// Render one outcome as JSON.
fn outcome_json(o: &OutcomeSnapshot) -> (r: String)
    ensures
        r@ == json_outcome(*o),
{
    let mut s = String::from_str("{\"next_state_key\":");
    s.append(crate::text::u64_to_string(o.next_state_key).as_str());
    s.append(",\"child_node_id\":");
    s.append(crate::text::usize_to_string(o.child_node_id).as_str());
    s.append(",\"count\":");
    s.append(crate::text::u64_to_string(o.count).as_str());
    s.append("}");
    s
}

/// Render one edge as JSON.
fn edge_json(e: &ActionEdgeSnapshot) -> (r: String)
    ensures
        r@ == json_edge(*e),
{
    let mut s = String::from_str("{\"action_id\":");
    s.append(crate::text::usize_to_string(e.action_id).as_str());
    s.append(",\"visits\":");
    s.append(crate::text::u64_to_string(e.visits).as_str());
    s.append(",\"value_sum\":");
    s.append(crate::text::micros_to_string(e.value_sum).as_str());
    s.append(",\"q\":{\"num\":");
    s.append(crate::text::micros_to_string(e.q.num).as_str());
    s.append(",\"den\":");
    s.append(crate::text::u64_to_string(e.q.den).as_str());
    s.append("},\"outcomes\":[");
    let n = e.outcomes.len();
    let mut k: usize = 0;
    let ghost rendered = e.outcomes@.map_values(|o: OutcomeSnapshot| json_outcome(o));
    let mut body = String::new();
    while k < n
        invariant
            0 <= k <= n,
            n == e.outcomes@.len(),
            rendered == e.outcomes@.map_values(|o: OutcomeSnapshot| json_outcome(o)),
            body@ == join_comma(rendered.take(k as int)),
        decreases n - k,
    {
        if k > 0 {
            body.append(",");
        }
        body.append(outcome_json(&e.outcomes[k]).as_str());
        proof {
            reveal_strlit(",");
            assert(rendered.take(k + 1 as int).drop_last() =~= rendered.take(k as int));
            assert(rendered.take(k + 1 as int).last() == json_outcome(e.outcomes@[k as int]));
            assert(body@ =~= join_comma(rendered.take(k + 1 as int)));
        }
        k = k + 1;
    }
    proof {
        assert(rendered.take(n as int) =~= rendered);
    }
    s.append(body.as_str());
    s.append("]}");
    s
}

/// Render one node as JSON.
fn node_json(n: &NodeSnapshot) -> (r: String)
    ensures
        r@ == json_node(*n),
{
    proof {
        reveal_strlit("null");
    }
    let mut s = String::from_str("{\"node_id\":");
    s.append(crate::text::usize_to_string(n.node_id).as_str());
    s.append(",\"state_key\":");
    s.append(crate::text::u64_to_string(n.state_key).as_str());
    s.append(",\"depth\":");
    s.append(crate::text::u64_to_string(n.depth).as_str());
    s.append(",\"is_terminal\":");
    s.append(crate::text::bool_to_string(n.is_terminal).as_str());
    s.append(",\"parent_node_id\":");
    match n.parent_node_id {
        Some(p) => {
            s.append(crate::text::usize_to_string(p).as_str());
        },
        None => {
            s.append("null");
        },
    }
    s.append(",\"parent_action_id\":");
    match n.parent_action_id {
        Some(a) => {
            s.append(crate::text::usize_to_string(a).as_str());
        },
        None => {
            s.append("null");
        },
    }
    s.append(",\"edges\":[");
    let count = n.edges.len();
    let mut j: usize = 0;
    let ghost rendered = n.edges@.map_values(|e: ActionEdgeSnapshot| json_edge(e));
    let mut body = String::new();
    while j < count
        invariant
            0 <= j <= count,
            count == n.edges@.len(),
            rendered == n.edges@.map_values(|e: ActionEdgeSnapshot| json_edge(e)),
            body@ == join_comma(rendered.take(j as int)),
        decreases count - j,
    {
        if j > 0 {
            body.append(",");
        }
        body.append(edge_json(&n.edges[j]).as_str());
        proof {
            reveal_strlit(",");
            assert(rendered.take(j + 1 as int).drop_last() =~= rendered.take(j as int));
            assert(rendered.take(j + 1 as int).last() == json_edge(n.edges@[j as int]));
            assert(body@ =~= join_comma(rendered.take(j + 1 as int)));
        }
        j = j + 1;
    }
    proof {
        assert(rendered.take(count as int) =~= rendered);
    }
    s.append(body.as_str());
    s.append("]}");
    s
}

/// Render a whole snapshot as one JSON line.
pub fn tree_snapshot_json(snap: &TreeSnapshot) -> (r: String)
    ensures
        r@ == json_tree(*snap),
{
    let mut s = String::from_str("{\"schema_version\":");
    s.append(crate::text::u64_to_string(snap.schema_version as u64).as_str());
    s.append(",\"root_node_id\":");
    s.append(crate::text::usize_to_string(snap.root_node_id).as_str());
    s.append(",\"node_count\":");
    s.append(crate::text::usize_to_string(snap.node_count).as_str());
    s.append(",\"nodes\":[");
    let count = snap.nodes.len();
    let mut i: usize = 0;
    let ghost rendered = snap.nodes@.map_values(|n: NodeSnapshot| json_node(n));
    let mut body = String::new();
    while i < count
        invariant
            0 <= i <= count,
            count == snap.nodes@.len(),
            rendered == snap.nodes@.map_values(|n: NodeSnapshot| json_node(n)),
            body@ == join_comma(rendered.take(i as int)),
        decreases count - i,
    {
        if i > 0 {
            body.append(",");
        }
        body.append(node_json(&snap.nodes[i]).as_str());
        proof {
            reveal_strlit(",");
            assert(rendered.take(i + 1 as int).drop_last() =~= rendered.take(i as int));
            assert(rendered.take(i + 1 as int).last() == json_node(snap.nodes@[i as int]));
            assert(body@ =~= join_comma(rendered.take(i + 1 as int)));
        }
        i = i + 1;
    }
    proof {
        assert(rendered.take(count as int) =~= rendered);
    }
    s.append(body.as_str());
    s.append("]}");
    s
}

} // verus!
