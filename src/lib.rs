//! A grid of toggle cells in the manner of the "Lights Out" puzzle: each cell
//! is an axis-aligned rectangle with an on/off state and a hover flag, and a
//! per-frame tick moves the hover flag to the cell under the pointer and
//! toggles that cell on a press.
//!
//! Coordinates are integers. A cell keeps twice its centre, so that layouts
//! with an odd margin or an odd cell size stay exact.
pub mod cell;
pub mod color;
pub mod grid;
pub mod laws;

pub use cell::Cell;
pub use grid::LightsOut;
