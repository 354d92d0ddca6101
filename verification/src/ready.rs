//! The ready queue: entries kept in the order in which they are served.

use std::cmp::Ordering;
use vstd::prelude::*;

verus! {

/// One request to run a process.
#[derive(Clone, Copy, Debug, PartialEq, Eq)]
pub struct ReadyEntry {
    /// The stride of the process when it was queued.
    pub stride: i64,
    /// The number of the request among all requests made.
    pub order: usize,
    /// The number of the process.
    pub pid: usize,
}

impl ReadyEntry {
    /// Whether this entry is served strictly before `other`: the smaller
    /// stride first, then the earlier request, then the smaller process
    /// number.
    pub open spec fn precedes(self, other: ReadyEntry) -> bool {
        ||| self.stride < other.stride
        ||| self.stride == other.stride && self.order < other.order
        ||| self.stride == other.stride && self.order == other.order && self.pid < other.pid
    }

    /// Whether this entry is served no later than `other`.
    pub open spec fn not_after(self, other: ReadyEntry) -> bool {
        !other.precedes(self)
    }

    /// Compares two entries by stride, then request number, then process
    /// number.
    pub fn cmp(&self, other: &Self) -> (o: Ordering)
        ensures
            o is Less <==> self.precedes(*other),
            o is Greater <==> other.precedes(*self),
            o is Equal <==> *self == *other,
    {
        match self.stride.cmp(&other.stride) {
            Ordering::Equal => match self.order.cmp(&other.order) {
                Ordering::Equal => self.pid.cmp(&other.pid),
                ord => ord,
            },
            ord => ord,
        }
    }

    /// Whether this entry is served strictly before `other`.
    pub fn is_before(&self, other: &Self) -> (before: bool)
        ensures
            before == self.precedes(*other),
    {
        match self.cmp(other) {
            Ordering::Less => true,
            _ => false,
        }
    }
}

} // verus!
