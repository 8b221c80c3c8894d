//! Placement and track assignment for a clocked differential latch comparator
//! built from two-finger transistor tiles on a manufacturing lattice.
//!
//! The comparator is a stack of rows, each a pair of tiles of one device,
//! above two guard tiles. This library decides where every tile stands and on
//! which lattice row each signal of the cell runs; generating the tiles,
//! drawing them and routing between them is left to its user.
//!
//! - [`arith`]: rounding division, greatest common divisor, least common
//!   multiple.
//! - [`geometry`]: spans and rectangles, and the regions that model them.
//! - [`grid`]: the layer stack, its coarse pitch, and the conversions between
//!   physical and lattice coordinates.
//! - [`align`]: alignment directives and the interpreter that applies them.
//! - [`plan`]: the composition plan and its alignment sequence.
//! - [`place`]: the placement engine and the frozen set of placed tiles.
//! - [`tracks`]: track assignment.
//! - [`tile`]: the parameters and nets of a two-finger tile.
//! - [`comparator`]: the comparator itself: its schematic, its plan, and its
//!   layout from plan to tracks.
//! - [`error`]: the failures of all of these.

pub mod align;
pub mod arith;
pub mod comparator;
pub mod error;
pub mod geometry;
pub mod grid;
pub mod place;
pub mod plan;
pub mod tile;
pub mod tracks;
