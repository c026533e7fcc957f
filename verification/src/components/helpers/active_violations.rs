//! Which of the four lists of a path is shown.

use vstd::prelude::*;

verus! {

pub const UNCONTAINED_OUT_SORTABLE: usize = 0;

pub const UNCONTAINED_IN_SORTABLE: usize = 1;

pub const CONTAINED_OUT_SORTABLE: usize = 2;

pub const CONTAINED_IN_SORTABLE: usize = 3;

/// The list of the selected path that the table of violations shows.
#[derive(Debug, Clone, Copy, PartialEq, Eq)]
pub enum ActiveViolations {
    Out,
    In,
    ContainedOut,
    ContainedIn,
}

impl Default for ActiveViolations {
    /// The uncontained outgoing violations are shown first.
    fn default() -> (r: Self)
        ensures
            r == ActiveViolations::Out,
    {
        Self::Out
    }
}

} // verus!
