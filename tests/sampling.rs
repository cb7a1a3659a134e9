use hexgrid::{FracHex, Grid, Hex};

const DEN: i64 = 1 << 20;

/// Fractional cube coordinate of pixel `(x, y)` under a pointy-top layout
/// with unit size and origin at zero.
fn pointy_fraction(x: f64, y: f64) -> FracHex {
    let sqrt3 = 3f64.sqrt();
    let q = sqrt3 / 3.0 * x - 1.0 / 3.0 * y;
    let r = 2.0 / 3.0 * y;
    let s = -q - r;
    let d = DEN as f64;
    FracHex::new((q * d).round() as i64, (r * d).round() as i64, (s * d).round() as i64, DEN)
}

/// Pixel center of `h` under the same layout.
fn pointy_center(h: Hex) -> (f64, f64) {
    let sqrt3 = 3f64.sqrt();
    let (q, r) = (h.q() as f64, h.r() as f64);
    (sqrt3 * q + sqrt3 / 2.0 * r, 1.5 * r)
}

const NEIGHBOURS: [(i32, i32); 6] = [(1, 0), (1, -1), (0, -1), (-1, 0), (-1, 1), (0, 1)];

#[test]
fn origin_pixel_samples_origin_cell() {
    let g = Grid::make_hex(Hex::new(0, 0), 1);
    assert_eq!(g.len(), 7);
    assert_eq!(pointy_fraction(0.0, 0.0).round(), Hex::new(0, 0));
}

#[test]
fn just_past_a_shared_edge_samples_the_neighbour() {
    for &(q, r) in NEIGHBOURS.iter() {
        let n = Hex::new(q, r);
        let (cx, cy) = pointy_center(n);
        // The shared edge crosses the segment between the two centers at its
        // midpoint.
        let past = pointy_fraction(cx * 0.51, cy * 0.51).round();
        let short = pointy_fraction(cx * 0.49, cy * 0.49).round();
        assert_eq!(past, n);
        assert_eq!(short, Hex::new(0, 0));
    }
}

#[test]
fn every_center_samples_its_own_cell() {
    let g = Grid::make_hex(Hex::new(2, -1), 4);
    for (h, _) in g.cells() {
        let (x, y) = pointy_center(h);
        assert_eq!(pointy_fraction(x, y).round(), h);
    }
}
