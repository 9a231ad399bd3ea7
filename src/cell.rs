use vstd::prelude::*;

verus! {

/// One cell of the grid: its rectangle and its two flags.
///
/// The rectangle is centred at `(center_x2 / 2, center_y2 / 2)` and is
/// `width` by `height` wide; points on its border belong to it.
#[derive(Clone, Copy, Debug, PartialEq, Eq, Structural)]
pub struct Cell {
    /// Twice the x coordinate of the centre.
    pub center_x2: i64,
    /// Twice the y coordinate of the centre.
    pub center_y2: i64,
    pub width: u16,
    pub height: u16,
    /// The on/off state of the cell.
    pub state: bool,
    /// Whether the pointer is over the cell.
    pub hover: bool,
}

impl Cell {
    /// The point `(px, py)` lies in the closed rectangle of the cell.
    pub open spec fn contains(self, px: int, py: int) -> bool {
        &&& -(self.width as int) <= 2 * px - self.center_x2 <= self.width as int
        &&& -(self.height as int) <= 2 * py - self.center_y2 <= self.height as int
    }

    /// The point `(px, py)` lies in the interior of the rectangle.
    pub open spec fn strictly_contains(self, px: int, py: int) -> bool {
        &&& -(self.width as int) < 2 * px - self.center_x2 < self.width as int
        &&& -(self.height as int) < 2 * py - self.center_y2 < self.height as int
    }

    /// A cell that is off and not hovered.
    pub fn new(center_x2: i64, center_y2: i64, width: u16, height: u16) -> (r: Cell)
        ensures
            r.center_x2 == center_x2,
            r.center_y2 == center_y2,
            r.width == width,
            r.height == height,
            !r.state,
            !r.hover,
    {
        Cell { center_x2, center_y2, width, height, state: false, hover: false }
    }

    /// Point-in-rectangle test, border included.
    pub fn contains_point(&self, px: i32, py: i32) -> (r: bool)
        ensures
            r == self.contains(px as int, py as int),
    {
        let dx: i128 = 2 * (px as i128) - self.center_x2 as i128;
        let dy: i128 = 2 * (py as i128) - self.center_y2 as i128;
        let w: i128 = self.width as i128;
        let h: i128 = self.height as i128;
        -w <= dx && dx <= w && -h <= dy && dy <= h
    }

    /// Flips the on/off state; nothing else changes.
    pub fn toggle(&mut self)
        ensures
            *final(self) == (Cell { state: !old(self).state, ..*old(self) }),
    {
        self.state = !self.state;
    }

    /// Sets the hover flag; nothing else changes.
    pub fn set_hover(&mut self, hover: bool)
        ensures
            *final(self) == (Cell { hover, ..*old(self) }),
    {
        self.hover = hover;
    }
}

} // verus!
