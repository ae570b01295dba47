use vstd::prelude::*;

verus! {

/// The failure conditions of the evolutionary core.
///
/// Configuration errors abort a run before any work begins; out-of-bounds and
/// capacity errors are local contract violations surfaced with the offending
/// value; comparing or sorting programs that carry no cached fitness fails
/// explicitly rather than silently default-ordering.
#[derive(Clone, Copy, Debug, PartialEq, Eq, Structural)]
pub enum EvolveError {
    /// A hyperparameter or generation parameter is outside its allowed range
    /// (zero-sized register file, empty operation registry, a survival gap
    /// above one, and the like).
    InvalidConfiguration,
    /// A register or slice index reaches beyond the file's length.
    OutOfBounds { index: usize, len: usize },
    /// An insertion into a population that is already at capacity.
    CapacityExceeded { capacity: usize },
    /// A comparison or sort touched a program whose fitness was never cached.
    FitnessNotEvaluated,
}

} // verus!
