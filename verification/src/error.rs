//! The failures that layout construction reports.

use vstd::prelude::*;
use crate::geometry::Rect;

verus! {

/// A composition plan, or a value that configures it, is malformed. Such an
/// error ends layout construction: nothing is placed or drawn after it.
#[derive(Clone, Copy, Debug, PartialEq, Eq, Structural)]
pub enum ConfigurationError {
    /// A directive takes a tile as its reference before that tile has a
    /// position on both axes.
    UnplacedReference,
    /// A directive names a tile that the plan does not hold.
    UnknownTile,
    /// A width, a height or a pitch is zero or negative.
    NonPositiveDimension,
    /// The signals are not as many as the tracks, or the tracks do not
    /// strictly increase.
    SignalTrackMismatch,
    /// The layer stack has no layer of the given number.
    UnknownLayer,
    /// The plan holds no row of devices.
    EmptyPlan,
    /// A coordinate, a dimension or a pitch leaves the 64-bit range.
    OutOfRange,
}

/// A rectangle holds no lattice-aligned rectangle of positive area: it is too
/// small for the lattice.
#[derive(Clone, Copy, Debug, PartialEq, Eq, Structural)]
pub struct LatticeError {
    /// The rectangle, in physical units, that was to be shrunk.
    pub rect: Rect,
}

/// Any failure of placement or track assignment.
#[derive(Clone, Copy, Debug, PartialEq, Eq, Structural)]
pub enum LayoutError {
    Configuration(ConfigurationError),
    Lattice(LatticeError),
}

} // verus!
