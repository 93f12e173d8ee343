//! Sinks that collect constraint terms, each of which must be zero.
use vstd::prelude::*;

verus! {

/// Collects concrete constraint terms, sorted by the rows they are checked on.
pub struct ConstraintConsumer {
    /// Terms checked on the first row only.
    pub first_row: Vec<u64>,
    /// Terms checked on every pair of adjacent rows.
    pub transition: Vec<u64>,
}

impl ConstraintConsumer {
    /// An empty sink.
    pub fn new() -> (r: Self)
        ensures
            r.first_row@.len() == 0,
            r.transition@.len() == 0,
    {
        ConstraintConsumer { first_row: Vec::new(), transition: Vec::new() }
    }

    /// Records a term that must vanish on the first row.
    pub fn constraint_first_row(&mut self, c: u64)
        ensures
            final(self).first_row@ == old(self).first_row@.push(c),
            final(self).transition@ == old(self).transition@,
    {
        self.first_row.push(c);
    }

    /// Records a term that must vanish on every pair of adjacent rows.
    pub fn constraint_transition(&mut self, c: u64)
        ensures
            final(self).first_row@ == old(self).first_row@,
            final(self).transition@ == old(self).transition@.push(c),
    {
        self.transition.push(c);
    }
}

/// Collects constraint terms as wires of a circuit.
pub struct RecursiveConstraintConsumer {
    /// Wires whose value must vanish on the first row only.
    pub first_row: Vec<usize>,
    /// Wires whose value must vanish on every pair of adjacent rows.
    pub transition: Vec<usize>,
}

impl RecursiveConstraintConsumer {
    /// An empty sink.
    pub fn new() -> (r: Self)
        ensures
            r.first_row@.len() == 0,
            r.transition@.len() == 0,
    {
        RecursiveConstraintConsumer { first_row: Vec::new(), transition: Vec::new() }
    }

    /// Records a wire that must vanish on the first row.
    pub fn constraint_first_row(&mut self, w: usize)
        ensures
            final(self).first_row@ == old(self).first_row@.push(w),
            final(self).transition@ == old(self).transition@,
    {
        self.first_row.push(w);
    }

    /// Records a wire that must vanish on every pair of adjacent rows.
    pub fn constraint_transition(&mut self, w: usize)
        ensures
            final(self).first_row@ == old(self).first_row@,
            final(self).transition@ == old(self).transition@.push(w),
    {
        self.transition.push(w);
    }
}

} // verus!
