//! A minesweeper engine played on the cells of a planar Voronoi tessellation.
//!
//! The library owns the game logic: validating a site set and the neighbor
//! graph derived from its tessellation, locating the nearest site to a query
//! point, board state (mines, covers, flags, adjacency counts), the flood-fill
//! reveal cascade over the neighbor graph, and the session state machine with
//! first-click safety and win/loss detection. The tessellation itself and all
//! rendering and input handling live outside, and hand the library plain
//! integer data.

use vstd::prelude::*;

pub mod board;
pub mod cascade;
pub mod diagram;
pub mod geometry;
pub mod rng;
pub mod session;

verus! {

/// The ways construction and lookup can fail.
#[derive(Clone, Copy, Debug, PartialEq, Eq, Structural)]
pub enum ErrorKind {
    /// Tessellation is undefined: fewer than three sites, coincident sites,
    /// out-of-range coordinates, or raw tessellation output whose shape does
    /// not match the site list.
    DegenerateInput,
    /// A nearest-site query was made against an empty site list.
    EmptyBoard,
    /// An action named a cell index outside the board.
    IndexOutOfRange,
}

} // verus!
