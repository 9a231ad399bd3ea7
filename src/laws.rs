//! What a tick does, stated over the cells' model.
use vstd::prelude::*;

use crate::cell::Cell;
use crate::grid::{is_first_hit, ticked};

verus! {

/// A pointer strictly inside one cell's rectangle and outside every other
/// cell's rectangle leaves exactly that cell hovered after a tick.
pub proof fn lemma_hover_inside_one(cells: Seq<Cell>, px: int, py: int, pressed: bool, i: int)
    requires
        0 <= i < cells.len(),
        cells[i].strictly_contains(px, py),
        forall|j: int| 0 <= j < cells.len() && j != i ==> !(#[trigger] cells[j]).contains(px, py),
    ensures
        forall|j: int|
            0 <= j < cells.len() ==> (#[trigger] ticked(cells, px, py, pressed)[j]).hover == (j
                == i),
{
    assert(is_first_hit(cells, px, py, i));
}

/// A pointer outside every cell's rectangle leaves no cell hovered after a
/// tick.
pub proof fn lemma_hover_outside_all(cells: Seq<Cell>, px: int, py: int, pressed: bool)
    requires
        forall|j: int| 0 <= j < cells.len() ==> !(#[trigger] cells[j]).contains(px, py),
    ensures
        forall|j: int|
            0 <= j < cells.len() ==> !(#[trigger] ticked(cells, px, py, pressed)[j]).hover,
{
}

/// A press while no cell is hovered leaves every cell's state as it was.
pub proof fn lemma_press_without_hover(cells: Seq<Cell>, px: int, py: int)
    requires
        forall|j: int| 0 <= j < cells.len() ==> !(#[trigger] cells[j]).contains(px, py),
    ensures
        forall|j: int|
            0 <= j < cells.len() ==> (#[trigger] ticked(cells, px, py, true)[j]).state
                == cells[j].state,
{
}

/// A press while cell `i` is hovered flips cell `i`'s state and leaves every
/// other cell's state as it was.
pub proof fn lemma_press_on_hovered(cells: Seq<Cell>, px: int, py: int, i: int)
    requires
        is_first_hit(cells, px, py, i),
    ensures
        ticked(cells, px, py, true)[i].state == !cells[i].state,
        forall|j: int|
            0 <= j < cells.len() && j != i ==> (#[trigger] ticked(cells, px, py, true)[j]).state
                == cells[j].state,
{
    assert forall|j: int| 0 <= j < cells.len() && j != i implies !is_first_hit(
        cells,
        px,
        py,
        j,
    ) by {
        if j > i {
            assert(cells[i].contains(px, py));
        } else {
            assert(!cells[j].contains(px, py));
        }
    }
}

/// Pressing twice with the pointer at the same place gives back every
/// cell's state: two pressed ticks end as one tick without a press.
pub proof fn lemma_press_twice(cells: Seq<Cell>, px: int, py: int)
    ensures
        ticked(ticked(cells, px, py, true), px, py, true) == ticked(cells, px, py, false),
{
    let once = ticked(cells, px, py, true);
    assert forall|i: int| 0 <= i < cells.len() implies is_first_hit(once, px, py, i)
        == is_first_hit(cells, px, py, i) by {
        assert forall|j: int| 0 <= j < i implies once[j].contains(px, py) == cells[j].contains(
            px,
            py,
        ) by {}
        assert(once[i].contains(px, py) == cells[i].contains(px, py));
    }
    assert(ticked(once, px, py, true) =~= ticked(cells, px, py, false));
}

} // verus!
