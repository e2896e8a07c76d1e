//! Opaque identifier types used throughout the search tree.

use vstd::prelude::*;

verus! {

/// Dense index of a node inside the tree's arena.
#[derive(Debug, Clone, Copy, PartialEq, Eq, Hash, Structural)]
pub struct NodeId(pub usize);

impl NodeId {
    /// Read the underlying arena index.
    pub fn index(&self) -> (r: usize)
        ensures
            r == self.0,
    {
        self.0
    }
}

impl From<usize> for NodeId {
    /// Explicit conversion from a raw arena index.
    fn from(value: usize) -> (r: NodeId)
        ensures
            r.0 == value,
    {
        NodeId(value)
    }
}

impl vstd::std_specs::convert::FromSpecImpl<usize> for NodeId {
    open spec fn obeys_from_spec() -> bool {
        true
    }

    open spec fn from_spec(v: usize) -> NodeId {
        NodeId(v)
    }
}

/// Domain-supplied 64-bit fingerprint of a decision state. The engine never
/// interprets it; it only compares fingerprints for equality and uses them
/// as outcome-map keys.
#[derive(Debug, Clone, Copy, PartialEq, Eq, Hash, Structural)]
pub struct StateKey(pub u64);

impl StateKey {
    /// Read the underlying numeric fingerprint.
    pub fn value(&self) -> (r: u64)
        ensures
            r == self.0,
    {
        self.0
    }
}

impl From<u64> for StateKey {
    /// Explicit conversion from a raw fingerprint.
    fn from(value: u64) -> (r: StateKey)
        ensures
            r.0 == value,
    {
        StateKey(value)
    }
}

impl vstd::std_specs::convert::FromSpecImpl<u64> for StateKey {
    open spec fn obeys_from_spec() -> bool {
        true
    }

    open spec fn from_spec(v: u64) -> StateKey {
        StateKey(v)
    }
}

/// Dense index of an action within a node's edge sequence; action spaces are
/// always `[0, num_actions)`.
#[derive(Debug, Clone, Copy, PartialEq, Eq, Hash, Structural)]
pub struct ActionId(pub usize);

impl ActionId {
    /// Read the underlying action index.
    pub fn index(&self) -> (r: usize)
        ensures
            r == self.0,
    {
        self.0
    }
}

impl From<usize> for ActionId {
    /// Explicit conversion from a raw action index.
    fn from(value: usize) -> (r: ActionId)
        ensures
            r.0 == value,
    {
        ActionId(value)
    }
}

impl vstd::std_specs::convert::FromSpecImpl<usize> for ActionId {
    open spec fn obeys_from_spec() -> bool {
        true
    }

    open spec fn from_spec(v: usize) -> ActionId {
        ActionId(v)
    }
}

} // verus!
