use potential_path::position::{Position, APPROX_EPSILON};

#[test]
fn new_and_default() {
    let p = Position::new(1, -2, 3);
    assert_eq!((p.x, p.y, p.z), (1, -2, 3));
    assert_eq!(Position::default(), Position::new(0, 0, 0));
    assert_eq!(Position::origin(), Position::new(0, 0, 0));
}

#[test]
fn move_by_moves_the_point() {
    let mut p = Position::new(1_000_000, 2_000_000, 3_000_000);
    p.move_by(500_000, -2_000_000, 1);
    assert_eq!(p, Position::new(1_500_000, 0, 3_000_001));
}

#[test]
fn scalar_scales_and_rounds_toward_zero() {
    let mut p = Position::new(3_000_001, -3_000_001, 7);
    let half = p.scalar(500_000);
    assert_eq!(half, Position::new(1_500_000, -1_500_000, 3));
    assert_eq!(p, Position::new(3_000_001, -3_000_001, 7));
    assert_eq!(p.scalar(-2_000_000), Position::new(-6_000_002, 6_000_002, -14));
    assert_eq!(p.scalar(0), Position::new(0, 0, 0));
}

#[test]
fn approx_equals_uses_the_tolerance_on_every_axis() {
    assert_eq!(APPROX_EPSILON, 100);
    let p = Position::new(0, 0, 0);
    assert!(p.approx_equals(&Position::new(99, -99, 99)));
    assert!(!p.approx_equals(&Position::new(100, 0, 0)));
    assert!(!p.approx_equals(&Position::new(0, -100, 0)));
    assert!(!p.approx_equals(&Position::new(0, 0, 100)));
    assert!(!Position::new(i64::MAX, 0, 0).approx_equals(&Position::new(i64::MIN, 0, 0)));
}

#[test]
fn distance_is_planar_and_rounded_down() {
    let a = Position::new(0, 0, 0);
    assert_eq!(a.distance_to(&Position::new(3_000_000, 4_000_000, 9_000_000)), 5_000_000);
    assert_eq!(a.distance_to(&Position::new(1, 1, 0)), 1);
    assert_eq!(a.distance_to(&Position::new(2, 2, 0)), 2);
    assert_eq!(a.distance_to(&a), 0);
    assert_eq!(a.distance_squared_to(&Position::new(-3, 4, 5)), 25);
    let far = Position::new(2_000_000_000_000_000_000, -2_000_000_000_000_000_000, 0);
    let other = Position::new(-2_000_000_000_000_000_000, 2_000_000_000_000_000_000, 0);
    assert_eq!(far.distance_to(&other), 5_656_854_249_492_380_195);
}

#[test]
fn dot_and_norm() {
    let a = Position::new(2_000_000, 3_000_000, 100);
    let b = Position::new(-1_000_000, 4_000_000, 100);
    assert_eq!(a.dot(&b), 10_000_000_000_000);
    assert_eq!(Position::new(3_000_000, -4_000_000, 1).norm(), 5_000_000);
}

#[test]
fn norm2d_gives_a_unit_vector() {
    let unit = Position::new(3_000_000, -4_000_000, 12).norm2D();
    assert_eq!(unit, Position::new(600_000, -800_000, 0));
    assert_eq!(Position::new(0, 0, 5).norm2D(), Position::new(0, 0, 0));
    assert_eq!(Position::new(0, -7, 0).norm2D(), Position::new(0, -1_000_000, 0));
}

#[test]
fn minus_subtracts_every_axis() {
    let a = Position::new(5, 7, 9);
    let b = Position::new(1, 10, -1);
    assert_eq!(a.minus(&b), Position::new(4, -3, 10));
}

#[test]
fn workspace_membership() {
    assert!(Position::new(1_000_000_000_000, -1_000_000_000_000, 0).is_within(1_000_000_000_000));
    assert!(!Position::new(1_000_000_000_001, 0, 0).is_within(1_000_000_000_000));
    assert!(!Position::new(0, 0, 0).is_within(-1));
    assert!(Position::new(5, 5, 1_000_000_000_000).is_in_workspace());
    assert!(!Position::new(5, 5, 1_000_000_000_001).is_in_workspace());
    assert!(!Position::new(5, -1_000_000_000_001, 0).is_in_workspace());
}
