//! Query-side vocabulary: capture fidelity levels and the shape of query
//! nodes and results.

use vstd::prelude::*;

verus! {

/// How faithfully a capture observes the debuggee, from cheap static
/// instrumentation to single-stepping every instruction.
#[derive(Debug, Clone, Copy, PartialEq, Eq, Structural)]
pub enum Fidelity {
    /// Dynamic code-segment instrumentation with single steps; very slow.
    DynamicEveryInstruction,
    /// Dynamic instrumentation; thousands of times the original run time.
    DynamicHighFidelity,
    /// Static code-segment instrumentation; several times the original.
    StaticHighFidelity,
    /// Static instrumentation; near the original run time.
    StaticLowFidelity,
}

impl Fidelity {
    /// The strictness order of fidelity levels.
    pub open spec fn rank(self) -> int {
        match self {
            Self::StaticLowFidelity => 0,
            Self::StaticHighFidelity => 1,
            Self::DynamicHighFidelity => 9,
            Self::DynamicEveryInstruction => 10,
        }
    }

    /// Of the two levels, the one that observes more.
    pub fn get_higher<'a>(&'a self, other: &'a Fidelity) -> (r: &'a Fidelity)
        ensures
            *r == (if self.rank() > other.rank() {
                *self
            } else {
                *other
            }),
    {
        if self.to_int() > other.to_int() {
            self
        } else {
            other
        }
    }

    fn to_int(&self) -> (r: usize)
        ensures
            r == self.rank(),
    {
        match self {
            Self::StaticLowFidelity => 0,
            Self::StaticHighFidelity => 1,
            Self::DynamicHighFidelity => 9,
            Self::DynamicEveryInstruction => 10,
        }
    }
}

/// What a query runs with: the fidelity to capture at and the checkpoint
/// range to look at.
pub struct QueryConfig {
    fidelity: Fidelity,
    frame_time_range: (usize, usize),
}

/// The kinds of nodes a query graph is built from.
pub enum QueryNodeType {
    Filter,
    Config,
    InstructionComparator,
    JumpQuery,
}

/// The kinds of values a query can produce.
pub enum QueryResultType {
    InstructionSequence,
}

/// A value a query produced. Implemented by the consumers that feed query
/// results onward.
pub trait QueryResult {
    fn get_type(&self) -> QueryResultType;
}

} // verus!
