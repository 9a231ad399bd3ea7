use lights_out::cell::Cell;
use lights_out::color::{cell_color, CellColor};
use lights_out::grid::{ConfigError, LightsOut};

fn standard() -> LightsOut {
    LightsOut::new(5, 5, (100, 100), 4, (-260, 260)).unwrap()
}

fn hovered_flags(g: &LightsOut) -> Vec<bool> {
    g.cells().iter().map(|c| c.hover).collect()
}

fn states(g: &LightsOut) -> Vec<bool> {
    g.cells().iter().map(|c| c.state).collect()
}

#[test]
fn layout_follows_formula() {
    let g = standard();
    assert_eq!(g.cells().len(), 25);
    for row in 0..5u16 {
        for col in 0..5u16 {
            let c = g.cell(row, col).unwrap();
            // twice (origin + margin/2 + size/2 + k * (size + margin))
            assert_eq!(c.center_x2, 2 * -260 + 4 + 100 + 2 * (col as i64) * 104);
            assert_eq!(c.center_y2, 2 * 260 - 4 - 100 - 2 * (row as i64) * 104);
            assert_eq!((c.width, c.height), (100, 100));
            assert!(!c.state && !c.hover);
        }
    }
}

#[test]
fn first_cell_center() {
    let g = standard();
    let c = g.cell(0, 0).unwrap();
    assert_eq!((c.center_x2, c.center_y2), (-416, 416));
    let last = g.cell(4, 4).unwrap();
    assert_eq!((last.center_x2, last.center_y2), (416, -416));
}

#[test]
fn odd_sizes_stay_exact() {
    let g = LightsOut::new(2, 2, (5, 7), 3, (0, 0)).unwrap();
    let c = g.cell(1, 1).unwrap();
    assert_eq!(c.center_x2, 3 + 5 + 2 * 8);
    assert_eq!(c.center_y2, -3 - 7 - 2 * 10);
}

#[test]
fn cell_out_of_range() {
    let g = standard();
    assert_eq!(g.cell(5, 0), None);
    assert_eq!(g.cell(0, 5), None);
}

#[test]
fn empty_grid_is_refused() {
    assert!(matches!(LightsOut::new(0, 5, (100, 100), 4, (0, 0)), Err(ConfigError::EmptyGrid)));
    assert!(matches!(LightsOut::new(5, 0, (100, 100), 4, (0, 0)), Err(ConfigError::EmptyGrid)));
}

#[test]
fn empty_cell_is_refused() {
    assert!(matches!(LightsOut::new(5, 5, (0, 100), 4, (0, 0)), Err(ConfigError::EmptyCell)));
    assert!(matches!(LightsOut::new(5, 5, (100, 0), 4, (0, 0)), Err(ConfigError::EmptyCell)));
}

#[test]
fn pointer_inside_one_cell_hovers_it() {
    let mut g = standard();
    // inside cell (1, 2), off its centre
    g.tick(10, 90, false);
    let mut expected = vec![false; 25];
    expected[7] = true;
    assert_eq!(hovered_flags(&g), expected);
    assert_eq!(g.hovered(), Some(7));
}

#[test]
fn pointer_in_gap_hovers_nothing() {
    let mut g = standard();
    g.tick(0, 0, false);
    assert_eq!(g.hovered(), Some(12));
    // between columns 0 and 1
    g.tick(-156, 0, false);
    assert_eq!(hovered_flags(&g), vec![false; 25]);
    assert_eq!(g.hovered(), None);
    // outside the grid
    g.tick(1000, -1000, false);
    assert_eq!(g.hovered(), None);
}

#[test]
fn border_belongs_to_cell() {
    let mut g = standard();
    // right border of cell (0, 0): centre -208, half width 50
    g.tick(-158, 208, false);
    assert_eq!(g.hovered(), Some(0));
    g.tick(-157, 208, false);
    assert_eq!(g.hovered(), None);
}

#[test]
fn shared_edge_goes_to_lowest_index() {
    let mut g = LightsOut::new(1, 2, (10, 10), 0, (0, 0)).unwrap();
    g.tick(10, -5, false);
    assert_eq!(hovered_flags(&g), vec![true, false]);
    g.tick(10, -5, true);
    assert_eq!(states(&g), vec![true, false]);
}

#[test]
fn press_without_hover_changes_nothing() {
    let mut g = standard();
    g.tick(0, 0, true);
    let before = states(&g);
    g.tick(-156, 0, true);
    assert_eq!(states(&g), before);
    g.tick(1000, 1000, true);
    assert_eq!(states(&g), before);
}

#[test]
fn press_toggles_only_hovered_cell() {
    let mut g = standard();
    g.tick(-208, -208, true);
    let mut expected = vec![false; 25];
    expected[20] = true;
    assert_eq!(states(&g), expected);
    g.tick(-208, -208, true);
    assert_eq!(states(&g), vec![false; 25]);
}

#[test]
fn tick_without_press_keeps_states() {
    let mut g = standard();
    g.tick(0, 0, true);
    g.tick(0, 0, false);
    assert!(g.cells()[12].state);
    assert_eq!(states(&g).iter().filter(|s| **s).count(), 1);
}

#[test]
fn click_scenario() {
    let mut g = standard();
    // centre of cell (2, 3)
    g.tick(104, 0, false);
    assert_eq!(g.hovered(), Some(13));
    assert_eq!(g.cell(2, 3).unwrap().color(), CellColor::OffHovered);
    g.tick(104, 0, true);
    let c = g.cell(2, 3).unwrap();
    assert!(c.state && c.hover);
    assert_eq!(c.color(), CellColor::OnHovered);
    g.tick(1000, 1000, false);
    let c = g.cell(2, 3).unwrap();
    assert!(c.state && !c.hover);
    assert_eq!(c.color(), CellColor::On);
    assert_eq!(g.hovered(), None);
}

#[test]
fn color_table() {
    assert_eq!(cell_color(false, false), CellColor::Off);
    assert_eq!(cell_color(false, true), CellColor::OffHovered);
    assert_eq!(cell_color(true, false), CellColor::On);
    assert_eq!(cell_color(true, true), CellColor::OnHovered);
}

#[test]
fn cell_flags() {
    let mut c = Cell::new(0, 0, 4, 2);
    assert!(c.contains_point(2, 1));
    assert!(c.contains_point(-2, -1));
    assert!(!c.contains_point(3, 0));
    assert!(!c.contains_point(0, 2));
    c.toggle();
    assert!(c.state);
    c.toggle();
    assert!(!c.state);
    c.set_hover(true);
    assert!(c.hover);
    assert_eq!(c.color(), CellColor::OffHovered);
}

#[test]
fn layout_is_kept() {
    let mut g = standard();
    g.tick(0, 0, true);
    let l = g.layout();
    assert_eq!((l.rows, l.columns, l.cell_width, l.cell_height, l.margin), (5, 5, 100, 100, 4));
    assert_eq!((l.origin_x, l.origin_y), (-260, 260));
}
