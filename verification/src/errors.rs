//! The typed errors that the library returns.

use vstd::prelude::*;

verus! {

/// Why a chart, a tempo map or a grid was rejected.
#[derive(Debug, Clone, Copy, PartialEq, Eq, Structural)]
pub enum ChartError {
    /// A tempo that is not strictly positive, or too large to represent.
    InvalidTempo,
    /// No notes, or no timing changes.
    EmptyChart,
    /// A note whose lane lies outside `1..=key_count`.
    LaneOutOfRange,
    /// The target format cannot represent the chart's lane count.
    UnsupportedKeyCount,
    /// A grid row whose width differs from the declared lane count.
    MalformedGrid,
    /// A chart for another game mode than the one asked for.
    InvalidMode,
    /// Source text that does not follow its format.
    MalformedText,
}

} // verus!
