use vstd::prelude::*;

use crate::cell::Cell;

verus! {

/// The four ways a cell is shown.
#[derive(Clone, Copy, Debug, PartialEq, Eq, Structural)]
pub enum CellColor {
    Off,
    /// Off, under the pointer (brighter).
    OffHovered,
    On,
    /// On, under the pointer (brighter).
    OnHovered,
}

/// How a cell with the given flags is shown.
pub open spec fn spec_cell_color(state: bool, hover: bool) -> CellColor {
    if state {
        if hover {
            CellColor::OnHovered
        } else {
            CellColor::On
        }
    } else if hover {
        CellColor::OffHovered
    } else {
        CellColor::Off
    }
}

/// Picks the colour for a cell's state and hover flags.
pub fn cell_color(state: bool, hover: bool) -> (r: CellColor)
    ensures
        r == spec_cell_color(state, hover),
{
    match (state, hover) {
        (true, true) => CellColor::OnHovered,
        (true, false) => CellColor::On,
        (false, true) => CellColor::OffHovered,
        (false, false) => CellColor::Off,
    }
}

impl Cell {
    /// The colour this cell is shown in.
    pub fn color(&self) -> (r: CellColor)
        ensures
            r == spec_cell_color(self.state, self.hover),
    {
        cell_color(self.state, self.hover)
    }
}

} // verus!
