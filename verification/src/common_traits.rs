use vstd::prelude::*;

use crate::registers::InputRecord;

verus! {

/// Capability bundle for values that take part in total-order comparisons.
pub trait Compare: PartialEq + Eq + PartialOrd + Ord {}

/// Capability bundle for values that can be rendered for diagnostics.
pub trait Show: core::fmt::Debug {}

/// The dataset one population is evaluated against: an ordered sequence of
/// typed records, shared read-only across every program.
pub type Inputs = Vec<InputRecord>;

} // verus!
