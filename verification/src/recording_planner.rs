//! Identity of the rule that a schedule came from.

use vstd::prelude::*;

verus! {

/// The plan that produced a schedule. It only decides the directory that the
/// recording is saved in.
#[derive(Debug, Clone, Copy, PartialEq, Eq, Structural)]
pub enum PlanId {
    /// Added by hand, through no plan.
    Unplanned,
    /// Expanded from a keyword plan.
    Word(u128),
    /// Expanded from a series plan.
    Series(u128),
}

} // verus!
