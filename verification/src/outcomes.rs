//! Observed stochastic outcomes of one action edge.
//!
//! An outcome set records, in insertion order, each distinct next-state
//! fingerprint observed under an edge, the child node it routes to, and how
//! often it was observed. Lookup is a linear scan on the first matching key;
//! insertion order is the order of first observation.

use vstd::prelude::*;

use crate::fixed::{sat_inc, sat_inc_u64};
use crate::ids::{NodeId, StateKey};

verus! {

/// One observed next state under a `(state, action)` edge.
#[derive(Debug, Clone, Copy, PartialEq, Eq, Structural)]
pub struct Outcome {
    pub next_state_key: StateKey,
    pub child: NodeId,
    pub count: u64,
}

impl Outcome {
    /// A freshly observed outcome: its count starts at one.
    pub fn new(next_state_key: StateKey, child: NodeId) -> (r: Outcome)
        ensures
            r == (Outcome { next_state_key, child, count: 1 }),
    {
        Outcome { next_state_key, child, count: 1 }
    }

    /// Record one more observation of this outcome.
    pub fn increment_count(&mut self)
        ensures
            final(self).next_state_key == old(self).next_state_key,
            final(self).child == old(self).child,
            final(self).count as int == sat_inc(old(self).count as int),
    {
        self.count = sat_inc_u64(self.count);
    }

    /// The child node this outcome routes to.
    pub fn child(&self) -> (r: NodeId)
        ensures
            r == self.child,
    {
        self.child
    }

    /// How often this outcome has been observed.
    pub fn count(&self) -> (r: u64)
        ensures
            r == self.count,
    {
        self.count
    }
}

/// Index of the first entry holding key `k`, or `-1` if no entry does.
pub open spec fn first_index(s: Seq<Outcome>, k: StateKey) -> int
    decreases s.len(),
{
    if s.len() == 0 {
        -1
    } else if s[0].next_state_key == k {
        0
    } else {
        let r = first_index(s.subrange(1, s.len() as int), k);
        if r < 0 {
            -1
        } else {
            1 + r
        }
    }
}

/// `first_index` is either `-1` with no entry holding the key, or the least
/// index of an entry holding it.
pub proof fn lemma_first_index(s: Seq<Outcome>, k: StateKey)
    ensures
        -1 <= first_index(s, k) < s.len(),
        first_index(s, k) == -1 ==> forall|j: int|
            0 <= j < s.len() ==> s[j].next_state_key != k,
        first_index(s, k) >= 0 ==> s[first_index(s, k)].next_state_key == k,
        first_index(s, k) >= 0 ==> forall|j: int|
            0 <= j < first_index(s, k) ==> s[j].next_state_key != k,
    decreases s.len(),
{
    if s.len() == 0 {
    } else if s[0].next_state_key == k {
    } else {
        let t = s.subrange(1, s.len() as int);
        lemma_first_index(t, k);
        assert(forall|j: int| 0 <= j < t.len() ==> t[j] == s[j + 1]);
        let r = first_index(t, k);
        if r < 0 {
            assert(forall|j: int| 1 <= j < s.len() ==> s[j] == t[j - 1]);
            assert(forall|j: int|
                0 <= j < s.len() ==> s[j].next_state_key != k) by {
                assert(forall|j: int|
                    1 <= j < s.len() ==> s[j].next_state_key == t[j - 1].next_state_key);
            };
        } else {
            assert(first_index(s, k) == 1 + r);
            assert(s[1 + r] == t[r]);
            assert(forall|j: int| 1 <= j < 1 + r ==> s[j] == t[j - 1]);
        }
    }
}

/// A scan that stops at `i` matches `first_index`.
pub proof fn lemma_first_index_found(s: Seq<Outcome>, k: StateKey, i: int)
    requires
        0 <= i < s.len(),
        s[i].next_state_key == k,
        forall|j: int| 0 <= j < i ==> s[j].next_state_key != k,
    ensures
        first_index(s, k) == i,
    decreases s.len(),
{
    if i == 0 {
    } else {
        let t = s.subrange(1, s.len() as int);
        assert(forall|j: int| 0 <= j < t.len() ==> t[j] == s[j + 1]);
        lemma_first_index_found(t, k, i - 1);
    }
}

/// A scan that finds nothing matches `first_index`.
pub proof fn lemma_first_index_absent(s: Seq<Outcome>, k: StateKey)
    requires
        forall|j: int| 0 <= j < s.len() ==> s[j].next_state_key != k,
    ensures
        first_index(s, k) == -1,
{
    lemma_first_index(s, k);
    if first_index(s, k) >= 0 {
        assert(s[first_index(s, k)].next_state_key == k);
    }
}

/// No key occurs at two distinct positions.
pub open spec fn keys_distinct(s: Seq<Outcome>) -> bool {
    forall|i: int, j: int|
        0 <= i < j < s.len() ==> s[i].next_state_key != s[j].next_state_key
}

/// Every stored outcome has been observed at least once.
pub open spec fn counts_positive(s: Seq<Outcome>) -> bool {
    forall|i: int| 0 <= i < s.len() ==> s[i].count >= 1
}

/// Sum of the stored observation counts.
pub open spec fn sum_counts(s: Seq<Outcome>) -> int
    decreases s.len(),
{
    if s.len() == 0 {
        0
    } else {
        sum_counts(s.drop_last()) + s.last().count as int
    }
}

/// Updating one entry shifts the sum by the count difference.
pub proof fn lemma_sum_counts_update(s: Seq<Outcome>, i: int, o: Outcome)
    requires
        0 <= i < s.len(),
    ensures
        sum_counts(s.update(i, o)) == sum_counts(s) - s[i].count as int + o.count as int,
    decreases s.len(),
{
    let t = s.update(i, o);
    if i == s.len() - 1 {
        assert(t.drop_last() =~= s.drop_last());
        assert(t.last() == o);
    } else {
        assert(t.drop_last() =~= s.drop_last().update(i, o));
        assert(t.last() == s.last());
        lemma_sum_counts_update(s.drop_last(), i, o);
    }
}

/// Appending an entry adds its count to the sum.
pub proof fn lemma_sum_counts_push(s: Seq<Outcome>, o: Outcome)
    ensures
        sum_counts(s.push(o)) == sum_counts(s) + o.count as int,
{
    assert(s.push(o).drop_last() =~= s);
    assert(s.push(o).last() == o);
}

/// All outcomes observed for a single action edge, in the order of first
/// observation.
#[derive(Debug, Clone, PartialEq, Eq)]
pub struct OutcomeSet {
    outcomes: Vec<Outcome>,
}

impl View for OutcomeSet {
    type V = Seq<Outcome>;

    closed spec fn view(&self) -> Seq<Outcome> {
        self.outcomes@
    }
}

impl OutcomeSet {
    /// Distinct keys, and every count at least one.
    pub open spec fn wf(self) -> bool {
        keys_distinct(self@) && counts_positive(self@)
    }

    /// A fresh, empty outcome set.
    pub fn new() -> (r: OutcomeSet)
        ensures
            r@ == Seq::<Outcome>::empty(),
            r.wf(),
    {
        OutcomeSet { outcomes: Vec::new() }
    }

    /// The child node recorded under the first entry with the given key, if
    /// any entry holds it.
    pub fn get_child_for(&self, next_state_key: StateKey) -> (r: Option<NodeId>)
        ensures
            ({
                let fi = first_index(self@, next_state_key);
                r == if fi >= 0 {
                    Some(self@[fi].child)
                } else {
                    None::<NodeId>
                }
            }),
    {
        let n = self.outcomes.len();
        let mut i: usize = 0;
        while i < n
            invariant
                0 <= i <= n,
                n == self@.len(),
                forall|j: int| 0 <= j < i ==> self@[j].next_state_key != next_state_key,
            decreases n - i,
        {
            if self.outcomes[i].next_state_key == next_state_key {
                proof {
                    lemma_first_index_found(self@, next_state_key, i as int);
                }
                return Some(self.outcomes[i].child);
            }
            i = i + 1;
        }
        proof {
            lemma_first_index_absent(self@, next_state_key);
        }
        None
    }

    /// Insert a newly observed outcome. If the key is absent, append an
    /// entry with count one and return the child id; if the key is already
    /// present, change nothing and return `None`.
    pub fn insert_outcome(&mut self, next_state_key: StateKey, child_id: NodeId) -> (r: Option<
        NodeId,
    >)
        ensures
            ({
                let fi = first_index(old(self)@, next_state_key);
                if fi < 0 {
                    final(self)@ == old(self)@.push(
                        Outcome { next_state_key, child: child_id, count: 1 },
                    ) && r == Some(child_id)
                } else {
                    final(self)@ == old(self)@ && r == None::<NodeId>
                }
            }),
            old(self).wf() ==> final(self).wf(),
    {
        let n = self.outcomes.len();
        let mut i: usize = 0;
        while i < n
            invariant
                0 <= i <= n,
                n == self@.len(),
                self@ == old(self)@,
                forall|j: int| 0 <= j < i ==> self@[j].next_state_key != next_state_key,
            decreases n - i,
        {
            if self.outcomes[i].next_state_key == next_state_key {
                proof {
                    lemma_first_index_found(self@, next_state_key, i as int);
                }
                return None;
            }
            i = i + 1;
        }
        proof {
            lemma_first_index_absent(self@, next_state_key);
        }
        self.outcomes.push(Outcome { next_state_key, child: child_id, count: 1 });
        Some(child_id)
    }

    /// Record one more observation of an already-known outcome. If the key
    /// is present, increment its count and return its child id; otherwise
    /// change nothing and return `None`.
    pub fn increment_outcome(&mut self, next_state_key: StateKey) -> (r: Option<NodeId>)
        ensures
            ({
                let fi = first_index(old(self)@, next_state_key);
                if fi >= 0 {
                    let e = old(self)@[fi];
                    final(self)@ == old(self)@.update(
                        fi,
                        Outcome {
                            next_state_key: e.next_state_key,
                            child: e.child,
                            count: (sat_inc(e.count as int)) as u64,
                        },
                    ) && r == Some(e.child)
                } else {
                    final(self)@ == old(self)@ && r == None::<NodeId>
                }
            }),
            old(self).wf() ==> final(self).wf(),
    {
        let n = self.outcomes.len();
        let mut i: usize = 0;
        while i < n
            invariant
                0 <= i <= n,
                n == self@.len(),
                self@ == old(self)@,
                forall|j: int| 0 <= j < i ==> self@[j].next_state_key != next_state_key,
            decreases n - i,
        {
            if self.outcomes[i].next_state_key == next_state_key {
                proof {
                    lemma_first_index_found(self@, next_state_key, i as int);
                }
                let child = self.outcomes[i].child;
                let entry = &mut self.outcomes[i];
                entry.increment_count();
                proof {
                    let e = old(self)@[i as int];
                    let updated = Outcome {
                        next_state_key: e.next_state_key,
                        child: e.child,
                        count: (sat_inc(e.count as int)) as u64,
                    };
                    assert(self@ =~= old(self)@.update(i as int, updated));
                    if old(self).wf() {
                        assert(keys_distinct(self@));
                        assert(counts_positive(self@)) by {
                            assert(forall|j: int|
                                0 <= j < self@.len() && j != i ==> self@[j] == old(self)@[j]);
                        };
                    }
                }
                return Some(child);
            }
            i = i + 1;
        }
        proof {
            lemma_first_index_absent(self@, next_state_key);
        }
        None
    }

    /// Number of distinct outcomes observed under this edge.
    pub fn len(&self) -> (r: usize)
        ensures
            r == self@.len(),
    {
        self.outcomes.len()
    }

    /// Observation count recorded under the first entry with the given key,
    /// if any entry holds it.
    pub fn count_for(&self, next_state_key: StateKey) -> (r: Option<u64>)
        ensures
            ({
                let fi = first_index(self@, next_state_key);
                r == if fi >= 0 {
                    Some(self@[fi].count)
                } else {
                    None::<u64>
                }
            }),
    {
        let n = self.outcomes.len();
        let mut i: usize = 0;
        while i < n
            invariant
                0 <= i <= n,
                n == self@.len(),
                forall|j: int| 0 <= j < i ==> self@[j].next_state_key != next_state_key,
            decreases n - i,
        {
            if self.outcomes[i].next_state_key == next_state_key {
                proof {
                    lemma_first_index_found(self@, next_state_key, i as int);
                }
                return Some(self.outcomes[i].count);
            }
            i = i + 1;
        }
        proof {
            lemma_first_index_absent(self@, next_state_key);
        }
        None
    }

    /// Read an outcome by its insertion position.
    pub fn entry(&self, i: usize) -> (r: &Outcome)
        requires
            i < self@.len(),
        ensures
            *r == self@[i as int],
    {
        &self.outcomes[i]
    }
}

} // verus!
