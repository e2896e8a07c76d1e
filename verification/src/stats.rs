//! Per-edge visit and value statistics.

use vstd::prelude::*;

use crate::fixed::{sat_add, sat_add_i64, sat_inc, sat_inc_u64};

verus! {

/// Exact mean value of an edge: a value-sum numerator in micro-units over a
/// positive visit-count denominator.
#[derive(Debug, Clone, Copy, PartialEq, Eq, Structural)]
pub struct QValue {
    pub num: i64,
    pub den: u64,
}

/// Strict rational order on mean values, by cross multiplication.
pub open spec fn q_lt(a: QValue, b: QValue) -> bool {
    (a.num as int) * (b.den as int) < (b.num as int) * (a.den as int)
}

/// Rational equality on mean values, by cross multiplication.
pub open spec fn q_eq(a: QValue, b: QValue) -> bool {
    (a.num as int) * (b.den as int) == (b.num as int) * (a.den as int)
}

impl QValue {
    /// Well-formed mean values have a positive denominator.
    pub open spec fn wf(self) -> bool {
        self.den >= 1
    }

    /// Strict rational comparison: is this mean value smaller than `other`?
    pub fn lt(&self, other: &QValue) -> (r: bool)
        ensures
            r == q_lt(*self, *other),
    {
        proof {
            assert(i128::MIN as int <= (self.num as int) * (other.den as int)
                <= i128::MAX as int) by (nonlinear_arith)
                requires
                    i64::MIN as int <= self.num as int <= i64::MAX as int,
                    0 <= other.den as int <= u64::MAX as int,
            ;
            assert(i128::MIN as int <= (other.num as int) * (self.den as int)
                <= i128::MAX as int) by (nonlinear_arith)
                requires
                    i64::MIN as int <= other.num as int <= i64::MAX as int,
                    0 <= self.den as int <= u64::MAX as int,
            ;
        }
        let lhs: i128 = (self.num as i128) * (other.den as i128);
        let rhs: i128 = (other.num as i128) * (self.den as i128);
        lhs < rhs
    }
}

/// The strict rational order is transitive.
pub proof fn lemma_q_lt_trans(a: QValue, b: QValue, c: QValue)
    requires
        a.wf(),
        b.wf(),
        c.wf(),
        q_lt(a, b),
        q_lt(b, c),
    ensures
        q_lt(a, c),
{
    assert((a.num as int) * (c.den as int) < (c.num as int) * (a.den as int)) by (nonlinear_arith)
        requires
            (a.num as int) * (b.den as int) < (b.num as int) * (a.den as int),
            (b.num as int) * (c.den as int) < (c.num as int) * (b.den as int),
            a.den >= 1,
            b.den >= 1,
            c.den >= 1,
    ;
}

/// A value no greater than `b` stays strictly below anything `b` is
/// strictly below.
pub proof fn lemma_q_le_lt_trans(a: QValue, b: QValue, c: QValue)
    requires
        a.wf(),
        b.wf(),
        c.wf(),
        !q_lt(b, a),
        q_lt(b, c),
    ensures
        q_lt(a, c),
{
    assert((a.num as int) * (c.den as int) < (c.num as int) * (a.den as int)) by (nonlinear_arith)
        requires
            !((b.num as int) * (a.den as int) < (a.num as int) * (b.den as int)),
            (b.num as int) * (c.den as int) < (c.num as int) * (b.den as int),
            a.den >= 1,
            b.den >= 1,
            c.den >= 1,
    ;
}

/// Visit count and value sum of one action edge.
///
/// The value sum is a fixed-point count of micro-units; additions saturate
/// at the `i64` range, and the visit counter saturates at the `u64` range.
#[derive(Debug, Clone, Copy, PartialEq, Eq, Structural)]
pub struct EdgeStats {
    pub visits: u64,
    pub value_sum: i64,
}

impl EdgeStats {
    /// Fresh statistics: no visits, zero value sum.
    pub fn new() -> (r: EdgeStats)
        ensures
            r.visits == 0,
            r.value_sum == 0,
    {
        EdgeStats { visits: 0, value_sum: 0 }
    }

    /// Number of times this edge was traversed by backpropagation.
    pub fn visits(&self) -> (r: u64)
        ensures
            r == self.visits,
    {
        self.visits
    }

    /// Sum of all recorded returns, in micro-units.
    pub fn value_sum(&self) -> (r: i64)
        ensures
            r == self.value_sum,
    {
        self.value_sum
    }

    /// Record one backpropagated return: increment the visit count and add
    /// the return to the value sum.
    pub fn record(&mut self, rollout_return: i64)
        ensures
            final(self).visits as int == sat_inc(old(self).visits as int),
            final(self).value_sum as int == sat_add(
                old(self).value_sum as int,
                rollout_return as int,
            ),
    {
        self.visits = sat_inc_u64(self.visits);
        self.value_sum = sat_add_i64(self.value_sum, rollout_return);
    }

    /// Whether this edge has never been visited.
    pub fn is_unvisited(&self) -> (r: bool)
        ensures
            r == (self.visits == 0),
    {
        self.visits == 0
    }

    /// The mean value this edge is carrying.
    pub open spec fn q_spec(self) -> QValue {
        if self.visits == 0 {
            QValue { num: 0, den: 1 }
        } else {
            QValue { num: self.value_sum, den: self.visits }
        }
    }

    /// Mean value estimate: exactly `value_sum / visits` when visited, and
    /// exactly zero when unvisited.
    pub fn q(&self) -> (r: QValue)
        ensures
            r == self.q_spec(),
            r.wf(),
    {
        if self.visits == 0 {
            QValue { num: 0, den: 1 }
        } else {
            QValue { num: self.value_sum, den: self.visits }
        }
    }
}

} // verus!
