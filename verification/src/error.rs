//! What a cloud answers where it cannot do what was asked.

use vstd::prelude::*;

verus! {

/// The failures that a caller can recover from.
#[derive(Clone, Copy, Debug, PartialEq, Eq, Structural)]
pub enum CloudError {
    /// A stable index was named that no point has been given.
    OutOfRange,
    /// A question about ranks was put to a cloud that keeps no order.
    DegradedModeMisuse,
}

} // verus!
