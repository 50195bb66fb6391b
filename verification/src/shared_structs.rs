//! Trace coordinates: the naming scheme for points inside a recorded trace.

use vstd::prelude::*;

verus! {

/// A named point within a recorded trace.
///
/// `frame_time` is the checkpoint the point lies in; `addr` and
/// `instance_of_addr` disambiguate between several recorded positions of the
/// same checkpoint. A coordinate whose `addr` is `None` is the *sentinel* of
/// its checkpoint: the very first position recorded there.
#[derive(Debug, Clone, Copy, PartialEq, Eq, Hash)]
pub struct TimeStamp {
    pub frame_time: usize,
    pub addr: Option<usize>,
    pub instance_of_addr: Option<usize>,
}

impl TimeStamp {
    /// The sentinel coordinate of checkpoint `frame_time`.
    pub fn new_at_ft(frame_time: usize) -> (r: Self)
        ensures
            r.frame_time == frame_time,
            r.addr is None,
            r.instance_of_addr is None,
    {
        Self { frame_time, addr: None, instance_of_addr: None }
    }

    /// True exactly when the two coordinates agree on all three fields.
    ///
    /// Two coordinates name the same point only under this full equality;
    /// distinct-looking coordinates may still alias the same recorded
    /// position.
    pub fn same_coordinate(&self, other: &TimeStamp) -> (r: bool)
        ensures
            r == (self.frame_time == other.frame_time && self.addr == other.addr
                && self.instance_of_addr == other.instance_of_addr),
    {
        if self.frame_time != other.frame_time {
            return false;
        }
        let addr_eq = match (&self.addr, &other.addr) {
            (Some(a), Some(b)) => *a == *b,
            (None, None) => true,
            _ => false,
        };
        if !addr_eq {
            return false;
        }
        match (&self.instance_of_addr, &other.instance_of_addr) {
            (Some(a), Some(b)) => *a == *b,
            (None, None) => true,
            _ => false,
        }
    }
}

/// A half-open span of the trace: inclusive of the position `start` names,
/// exclusive of the position `end` names.
#[derive(Debug, Clone)]
pub struct TimeRange {
    pub start: TimeStamp,
    pub end: TimeStamp,
}

/// One element of a rendered source line: either literal text or a reference
/// to a function or type at a known address.
#[derive(Debug, Clone, PartialEq)]
pub enum LineItem {
    RawString(String),
    FunctionReference { address: usize },
    TypeReference { address: usize },
}

} // verus!
