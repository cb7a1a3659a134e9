use hexgrid::{FracHex, Hex};

fn frac(q: i64, r: i64, s: i64, den: i64) -> FracHex {
    FracHex::new(q, r, s, den)
}

#[test]
fn boundary_tie_repairs_r() {
    // (0.5, 0.5, -1.0): q and r both move by a half; r is rederived.
    let h = frac(1, 1, -2, 2).round();
    assert_eq!(h, Hex::new(1, 0));
    assert_eq!(h.s(), -1);
}

#[test]
fn boundary_tie_repairs_s() {
    // (0.5, -1.0, 0.5): q and s tie; neither beats r, so s is rederived.
    let h = frac(1, -2, 1, 2).round();
    assert_eq!(h, Hex::new(1, -1));
}

#[test]
fn negative_halves_round_away_from_zero() {
    // (-0.5, -0.5, 1.0) rounds to (-1, -1, 1), then r is rederived.
    assert_eq!(frac(-1, -1, 2, 2).round(), Hex::new(-1, 0));
}

#[test]
fn largest_residual_is_repaired() {
    // (0.4, 0.3, -0.7): rounds to (0, 0, -1); q moved furthest, by 0.4.
    assert_eq!(frac(4, 3, -7, 10).round(), Hex::new(1, 0));
    // (1.2, -0.6, -0.6): rounds to (1, -1, -1); r and s tie at 0.4.
    assert_eq!(frac(12, -6, -6, 10).round(), Hex::new(1, -1));
}

#[test]
fn centers_round_to_themselves() {
    for &(q, r) in &[(0, 0), (3, -7), (-12, 5), (i32::MAX, i32::MIN + 1), (i32::MIN, 0)] {
        let h = Hex::new(q, r);
        assert_eq!(FracHex::center(h).round(), h);
    }
}

#[test]
fn center_has_unit_denominator() {
    let f = FracHex::center(Hex::new(2, -5));
    assert_eq!(f, frac(2, -5, 3, 1));
}

#[test]
fn nearby_points_round_to_center() {
    // (2.1, -0.95, -1.15)
    assert_eq!(frac(210, -95, -115, 100).round(), Hex::new(2, -1));
    // (-3.4, 1.3, 2.1)
    assert_eq!(frac(-34, 13, 21, 10).round(), Hex::new(-3, 1));
}

#[test]
fn large_denominator() {
    let den = 1i64 << 40;
    let h = frac(den / 2 + 1, -(den / 2 + 1), 0, den).round();
    assert_eq!(h, Hex::new(1, -1));
}
