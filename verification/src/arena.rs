//! Append-only, index-stable storage for tree nodes.

use vstd::prelude::*;

use crate::ids::NodeId;

verus! {

/// An append-only container with stable indices: items are never removed or
/// reordered, so an id handed out by `allocate` stays valid forever.
#[derive(Debug, Clone)]
pub struct Arena<T> {
    storage: Vec<T>,
}

impl<T> View for Arena<T> {
    type V = Seq<T>;

    closed spec fn view(&self) -> Seq<T> {
        self.storage@
    }
}

impl<T> Arena<T> {
    /// A fresh, empty arena.
    pub fn new() -> (r: Arena<T>)
        ensures
            r@ == Seq::<T>::empty(),
    {
        Arena { storage: Vec::new() }
    }

    /// Append an item and return its id: the arena length before the
    /// append.
    pub fn allocate(&mut self, item: T) -> (r: NodeId)
        ensures
            r.0 == old(self)@.len(),
            final(self)@ == old(self)@.push(item),
    {
        let id = NodeId(self.storage.len());
        self.storage.push(item);
        id
    }

    /// Look an item up by id.
    pub fn get(&self, node_id: NodeId) -> (r: Option<&T>)
        ensures
            node_id.0 < self@.len() ==> (r matches Some(t) && *t == self@[node_id.0 as int]),
            node_id.0 >= self@.len() ==> r is None,
    {
        if node_id.0 < self.storage.len() {
            Some(&self.storage[node_id.0])
        } else {
            None
        }
    }

    /// Look an item up by id, mutably.
    pub fn get_mut(&mut self, node_id: NodeId) -> (r: Option<&mut T>)
        ensures
            node_id.0 >= old(self)@.len() ==> r is None && final(self)@ == old(self)@,
            node_id.0 < old(self)@.len() ==> r is Some && *r.unwrap() == old(self)@[node_id.0 as int]
                && final(self)@ == old(self)@.update(node_id.0 as int, *final(r.unwrap())),
    {
        if node_id.0 < self.storage.len() {
            Some(&mut self.storage[node_id.0])
        } else {
            None
        }
    }

    /// Read an item at a position known to be in range.
    pub fn at(&self, i: usize) -> (r: &T)
        requires
            i < self@.len(),
        ensures
            *r == self@[i as int],
    {
        &self.storage[i]
    }

    /// Borrow an item mutably at a position known to be in range.
    pub fn at_mut(&mut self, i: usize) -> (r: &mut T)
        requires
            i < old(self)@.len(),
        ensures
            *r == old(self)@[i as int],
            final(self)@ == old(self)@.update(i as int, *final(r)),
    {
        &mut self.storage[i]
    }

    /// Number of items allocated so far.
    pub fn len(&self) -> (r: usize)
        ensures
            r == self@.len(),
    {
        self.storage.len()
    }

    /// Whether the arena holds no items.
    pub fn is_empty(&self) -> (r: bool)
        ensures
            r == (self@.len() == 0),
    {
        self.storage.is_empty()
    }
}

} // verus!
