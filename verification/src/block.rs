//! Code-flow vocabulary shared by the instrumentation strategies.

use vstd::prelude::*;

verus! {

/// Which instrumentation strategy a code-flow capture uses.
#[derive(Debug, Clone, Copy, PartialEq, Eq, Structural)]
pub enum Fidelity {
    /// Dynamic code-segment instrumentation with single steps.
    EveryInstruction,
    /// Static code-segment instrumentation, high fidelity.
    StaticHighFidelity,
    /// Static code-segment instrumentation, low fidelity.
    StaticLowFidelity,
}

} // verus!
