use hexgrid::Hex;

#[test]
fn new_derives_third_component() {
    let h = Hex::new(3, -5);
    assert_eq!(h.q(), 3);
    assert_eq!(h.r(), -5);
    assert_eq!(h.s(), 2);
    assert_eq!(h.q() as i64 + h.r() as i64 + h.s(), 0);
}

#[test]
fn cube_sum_is_zero_at_extremes() {
    for &(q, r) in &[(i32::MAX, i32::MAX), (i32::MIN, i32::MIN), (i32::MIN, i32::MAX), (0, 0)] {
        let h = Hex::new(q, r);
        assert_eq!(h.q() as i64 + h.r() as i64 + h.s(), 0);
    }
}

#[test]
fn add_and_sub_are_componentwise() {
    let a = Hex::new(1, -3);
    let b = Hex::new(4, 2);
    assert_eq!(a.add(b), Hex::new(5, -1));
    assert_eq!(a.sub(b), Hex::new(-3, -5));
    assert_eq!(a.add(b).s(), a.s() + b.s());
}

#[test]
fn equality_follows_axial_components() {
    assert_eq!(Hex::new(2, 7), Hex::new(2, 7));
    assert_ne!(Hex::new(2, 7), Hex::new(7, 2));
}

#[test]
fn from_pair() {
    let h: Hex = (4, -1).into();
    assert_eq!(h, Hex::new(4, -1));
    assert_eq!(Hex::from((0, 9)).s(), -9);
}

#[test]
fn distance_is_largest_cube_difference() {
    let o = Hex::new(0, 0);
    assert_eq!(o.distance(o), 0);
    assert_eq!(o.distance(Hex::new(1, 0)), 1);
    assert_eq!(o.distance(Hex::new(1, -1)), 1);
    assert_eq!(o.distance(Hex::new(2, 1)), 3);
    assert_eq!(Hex::new(-2, 5).distance(Hex::new(1, 1)), 4);
    assert_eq!(Hex::new(i32::MIN, 0).distance(Hex::new(i32::MAX, 0)), u32::MAX as i64);
}
