//! The on-chain counter: an instruction adds to or subtracts from a stored count.
use vstd::prelude::*;

verus! {

/// An instruction for the counter.
#[derive(PartialEq, Eq, Structural, Debug, Clone, Copy)]
pub enum Operation {
    Add(u32),
    Sub(u32),
}

/// The state stored in the counter's account.
#[derive(PartialEq, Eq, Structural, Debug, Clone, Copy)]
pub struct Counter {
    pub count: u32,
}

/// The count after `op`, as an unbounded integer.
pub open spec fn applied(count: u32, op: Operation) -> int {
    match op {
        Operation::Add(v) => count + v,
        Operation::Sub(v) => count - v,
    }
}

/// Whether `op` keeps the count within `u32`.
pub open spec fn in_range(count: u32, op: Operation) -> bool {
    0 <= applied(count, op) <= u32::MAX
}

impl Counter {
    /// Whether applying `op` keeps the count within `u32`; the count
    /// arithmetic does not wrap, so an instruction that would leave the range
    /// is rejected by the caller.
    pub fn can_apply(&self, op: &Operation) -> (r: bool)
        ensures
            r == in_range(self.count, *op),
    {
        match op {
            Operation::Add(v) => self.count <= u32::MAX - *v,
            Operation::Sub(v) => *v <= self.count,
        }
    }

    /// Applies `op` to the count.
    pub fn apply(&mut self, op: &Operation)
        requires
            in_range(old(self).count, *op),
        ensures
            final(self).count == applied(old(self).count, *op),
    {
        match op {
            Operation::Add(val) => {
                self.count += *val;
            },
            Operation::Sub(val) => {
                self.count -= *val;
            },
        }
    }
}

/// Subtracting what was just added gives the count back, and adding what was
/// just subtracted does too.
pub proof fn law_add_sub_inverse(count: u32, v: u32)
    ensures
        in_range(count, Operation::Add(v)) ==> in_range(
            applied(count, Operation::Add(v)) as u32,
            Operation::Sub(v),
        ) && applied(applied(count, Operation::Add(v)) as u32, Operation::Sub(v)) == count,
        in_range(count, Operation::Sub(v)) ==> in_range(
            applied(count, Operation::Sub(v)) as u32,
            Operation::Add(v),
        ) && applied(applied(count, Operation::Sub(v)) as u32, Operation::Add(v)) == count,
{
}

} // verus!
