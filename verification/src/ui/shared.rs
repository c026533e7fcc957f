//! Measures of the layout.

use vstd::prelude::*;

verus! {

/// The share of a side, in percent, that is left on each of its two ends by
/// a rectangle that takes `percent` of the side and stands in its middle.
pub fn side_margin(percent: u16) -> (r: u16)
    requires
        percent <= 100,
    ensures
        r == (100 - percent) / 2,
{
    (100 - percent) / 2
}

} // verus!
