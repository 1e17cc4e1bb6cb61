use potential_path::fixed::{exp_neg_fixed, exp_pos_capped, EXP_CAP, SCALE};
use potential_path::obstacle::{gaussian_potential_at, Obstacle};
use potential_path::position::Position;

fn units(v: i64) -> f64 {
    v as f64 / SCALE as f64
}

#[test]
fn exp_neg_tracks_the_exponential() {
    assert_eq!(exp_neg_fixed(0), SCALE);
    assert_eq!(exp_neg_fixed(1_000_000), 367_879);
    let mut x: i64 = 0;
    while x <= 16_000_000 {
        let exact = (-units(x)).exp();
        assert!((units(exp_neg_fixed(x)) - exact).abs() < 2e-5);
        x += 62_500;
    }
}

#[test]
fn exp_neg_vanishes_far_out() {
    assert_eq!(exp_neg_fixed(20_000_000), 0);
    assert_eq!(exp_neg_fixed(i64::MAX), 0);
}

#[test]
fn exp_pos_tracks_the_exponential_up_to_its_cap() {
    assert_eq!(exp_pos_capped(0), SCALE as i128);
    let mut x: i64 = 0;
    while x <= 30_000_000 {
        let exact = units(x).exp();
        let got = exp_pos_capped(x) as f64 / 1e6;
        assert!((got / exact - 1.0).abs() < 1e-4);
        x += 250_000;
    }
    assert!(exp_pos_capped(60_000_000) > EXP_CAP);
    assert!(exp_pos_capped(i64::MAX) > EXP_CAP);
}

#[test]
fn bell_field_falls_with_every_radius() {
    let o = Obstacle::new(Position::new(5_000_000, 5_000_000, 0), 1_000_000).unwrap();
    assert_eq!(o.gaussian_field_function(Position::new(5_000_000, 5_000_000, 0)), 5_340_708);
    let rim = o.gaussian_field_function(Position::new(6_700_000, 5_000_000, 0));
    assert_eq!(rim, 1_964_734);
    assert!((units(rim) - 1.7 * std::f64::consts::PI / std::f64::consts::E).abs() < 1e-5);
    let far = o.gaussian_field_function(Position::new(5_000_000, 8_400_000, 0));
    assert!((units(far) - 1.7 * std::f64::consts::PI * (-2.0f64).exp()).abs() < 1e-5);
    assert_eq!(o.gaussian_field_function(Position::new(500_000_000, 5_000_000, 0)), 0);
}

#[test]
fn bell_fields_add_up() {
    let a = Obstacle::new(Position::new(0, 0, 0), 1_000_000).unwrap();
    let b = Obstacle::new(Position::new(3_000_000, 0, 0), 500_000).unwrap();
    let p = Position::new(1_000_000, 1_000_000, 0);
    assert_eq!(
        gaussian_potential_at(&[a, b], p),
        a.gaussian_field_function(p) + b.gaussian_field_function(p)
    );
    assert_eq!(gaussian_potential_at(&[], p), 0);
}

#[test]
fn bell_gradient_weighs_the_offset_along_each_axis() {
    let o = Obstacle::new(Position::new(0, 0, 0), 1_000_000).unwrap();
    let g = o.gaussian_gradient_function(Position::new(1_700_000, -1_700_000, 0));
    let two_pi = 2.0 * std::f64::consts::PI;
    assert!((units(g[0]) - two_pi / std::f64::consts::E).abs() < 1e-5);
    assert!((units(g[1]) + two_pi * std::f64::consts::E).abs() < 1e-4);
    assert_eq!(o.gaussian_gradient_function(Position::new(0, 0, 0)), [0, 0]);
    assert_eq!(o.gaussian_gradient_along(850_000), 1_905_473);
    assert!((units(o.gaussian_gradient_along(850_000)) - std::f64::consts::PI * (-0.5f64).exp()).abs() < 2e-6);
}

#[test]
fn bell_gradient_is_limited_to_what_it_can_hold() {
    let o = Obstacle::new(Position::new(0, 0, 0), 1_000_000).unwrap();
    assert_eq!(o.gaussian_gradient_along(-1_000_000_000), i64::MIN);
    assert_eq!(o.gaussian_gradient_along(1_000_000_000), 0);
    assert_eq!(o.gaussian_gradient_along(-60_000_000), i64::MIN);
    let near_limit = o.gaussian_gradient_along(-40_800_000);
    let exact = -2.0 * std::f64::consts::PI * 24.0 * 24.0f64.exp() * 1e6;
    assert!(near_limit > i64::MIN);
    assert!((near_limit as f64 / exact - 1.0).abs() < 1e-3);
    assert_eq!(o.gaussian_gradient_function(Position::new(-2_000_000_000, 2_000_000_000, 0)), [i64::MIN, 0]);
}
