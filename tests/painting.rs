use hexgrid::{Color, Grid, Hex};

fn color_at(g: &Grid, h: Hex) -> Option<Color> {
    g.cells().into_iter().find(|(k, _)| *k == h).map(|(_, c)| c)
}

#[test]
fn paint_sets_the_color() {
    let mut g = Grid::make_hex(Hex::new(0, 0), 1);
    let green = Color::from_rgb(25, 200, 100);
    g.paint_cell(Hex::new(1, -1), green);
    assert_eq!(color_at(&g, Hex::new(1, -1)), Some(green));
    assert_eq!(color_at(&g, Hex::new(0, 0)), Some(Color::transparent()));
    assert_eq!(g.len(), 7);
}

#[test]
fn painting_twice_changes_nothing() {
    let mut g = Grid::make_hex(Hex::new(0, 0), 2);
    let red = Color::from_rgb(255, 0, 0);
    g.paint_cell(Hex::new(-1, 2), red);
    let once = g.cells();
    g.paint_cell(Hex::new(-1, 2), red);
    assert_eq!(g.len(), 19);
    assert_eq!(g.cells(), once);
    assert_eq!(color_at(&g, Hex::new(-1, 2)), Some(red));
}

#[test]
fn repaint_overwrites_only_that_cell() {
    let mut g = Grid::make_rhombus(Hex::new(0, 0), Hex::new(2, 2));
    let red = Color::from_rgb(255, 0, 0);
    let blue = Color::from_rgb(0, 0, 255);
    g.paint_cell(Hex::new(1, 1), red);
    g.paint_cell(Hex::new(2, 0), red);
    g.paint_cell(Hex::new(1, 1), blue);
    assert_eq!(g.len(), 9);
    assert_eq!(color_at(&g, Hex::new(1, 1)), Some(blue));
    assert_eq!(color_at(&g, Hex::new(2, 0)), Some(red));
    assert_eq!(color_at(&g, Hex::new(0, 0)), Some(Color::transparent()));
}

#[test]
fn paint_outside_the_region_adds_a_cell() {
    let mut g = Grid::make_hex(Hex::new(0, 0), 0);
    let c = Color::from_rgb(1, 2, 3);
    g.paint_cell(Hex::new(10, -4), c);
    assert_eq!(g.len(), 2);
    assert_eq!(color_at(&g, Hex::new(10, -4)), Some(c));
}

#[test]
fn empty_grid() {
    let mut g = Grid::new();
    assert_eq!(g.len(), 0);
    assert!(g.cells().is_empty());
    g.paint_cell(Hex::new(0, 0), Color::from_rgb(9, 9, 9));
    assert_eq!(g.len(), 1);
    assert_eq!(Grid::default().len(), 0);
}

#[test]
fn cells_list_each_cell_once() {
    let mut g = Grid::make_hex(Hex::new(0, 0), 3);
    g.paint_cell(Hex::new(0, 0), Color::from_rgb(5, 5, 5));
    g.paint_cell(Hex::new(3, -3), Color::from_rgb(6, 6, 6));
    let mut keys: Vec<Hex> = g.cells().into_iter().map(|(h, _)| h).collect();
    let n = keys.len();
    keys.sort_by_key(|h| (h.q(), h.r()));
    keys.dedup();
    assert_eq!(keys.len(), n);
    assert_eq!(n, 37);
}

#[test]
fn color_channels() {
    let c = Color::from_rgb(25, 200, 100);
    assert_eq!(c.to_array(), [25, 200, 100, 255]);
    assert_eq!(Color::default().to_array(), [0, 0, 0, 0]);
    assert_eq!(Color::from_rgba_premultiplied(1, 2, 3, 4).to_array(), [1, 2, 3, 4]);
}
