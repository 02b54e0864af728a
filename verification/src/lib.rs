//! Coordinates on a bounded hexagonal map in offset layout: map sizes,
//! positions and offset vectors, the six neighbours of a cell, the distance
//! between cells in steps, and a table of the offsets that lie at a given
//! ring distance from a centre, with queries on it.

pub mod pos;

pub mod prelude;
