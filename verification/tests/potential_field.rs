use potential_path::error::PlanError;
use potential_path::fixed::{cos_fixed, isqrt, sin_fixed, SCALE};
use potential_path::obstacle::{obstacle_sum, Obstacle};
use potential_path::position::Position;

fn micro(v: f64) -> i64 {
    (v * SCALE as f64).round() as i64
}

fn units(v: i64) -> f64 {
    v as f64 / SCALE as f64
}

#[test]
fn isqrt_exact_values() {
    assert_eq!(isqrt(0), 0);
    assert_eq!(isqrt(1), 1);
    assert_eq!(isqrt(3), 1);
    assert_eq!(isqrt(4), 2);
    assert_eq!(isqrt(24), 4);
    assert_eq!(isqrt(25), 5);
    assert_eq!(isqrt(1_000_000_000_000), 1_000_000);
    assert_eq!(isqrt(u128::MAX), u64::MAX);
}

#[test]
fn cosine_polynomial_tracks_cosine() {
    assert_eq!(cos_fixed(0), SCALE);
    let mut theta: i64 = 0;
    while theta <= SCALE {
        let exact = units(theta).cos();
        assert!((units(cos_fixed(theta)) - exact).abs() < 5e-6);
        theta += 12_500;
    }
}

#[test]
fn sine_polynomial_tracks_sine() {
    assert_eq!(sin_fixed(0), 0);
    let mut theta: i64 = 0;
    while theta <= SCALE {
        let exact = units(theta).sin();
        assert!((units(sin_fixed(theta)) - exact).abs() < 5e-6);
        theta += 12_500;
    }
}

#[test]
fn obstacle_derives_its_radii() {
    let o = Obstacle::new(Position::new(micro(5.0), micro(5.0), 0), micro(1.0)).unwrap();
    assert_eq!(o.get_radius(), 1_000_000);
    assert_eq!(o.get_calculation_radius(), 1_700_000);
    assert_eq!(o.get_field_scale(), 5_340_708);
    assert_eq!(o.get_center(), Position::new(5_000_000, 5_000_000, 0));
}

#[test]
fn potential_peaks_at_the_centre() {
    let o = Obstacle::new(Position::new(micro(5.0), micro(5.0), 0), micro(1.0)).unwrap();
    let v = o.cosine_field_function(Position::new(micro(5.0), micro(5.0), 0));
    assert_eq!(v, 2_670_354);
    assert!((units(v) - 1.7 * std::f64::consts::PI / 2.0).abs() < 1e-5);
}

#[test]
fn potential_keeps_its_rim_value() {
    let o = Obstacle::new(Position::new(micro(5.0), micro(5.0), 0), micro(1.0)).unwrap();
    let v = o.cosine_field_function(Position::new(micro(6.7), micro(5.0), 0));
    let rim = 1.7 * std::f64::consts::PI / 2.0 * 1.0f64.cos();
    assert!(v > 0);
    assert!((units(v) - rim).abs() < 1e-5);
    assert_eq!(v, 1_442_800);
}

#[test]
fn potential_vanishes_outside_the_disc() {
    let o = Obstacle::new(Position::new(micro(5.0), micro(5.0), 0), micro(1.0)).unwrap();
    assert_eq!(o.cosine_field_function(Position::new(6_700_001, 5_000_000, 0)), 0);
    assert_eq!(o.cosine_field_function(Position::new(0, 0, 0)), 0);
    assert_eq!(o.cosine_gradient_function(Position::new(6_700_001, 5_000_000, 0)), [0, 0]);
    assert_eq!(o.cosine_gradient_function(Position::new(0, 0, 0)), [0, 0]);
}

#[test]
fn gradient_points_toward_the_centre() {
    let o = Obstacle::new(Position::new(micro(5.0), micro(5.0), 0), micro(1.0)).unwrap();
    let g = o.cosine_gradient_function(Position::new(micro(6.0), micro(5.0), 0));
    let expected = std::f64::consts::FRAC_PI_2 * (1.0f64 / 1.7).sin() * 0.001;
    assert!(g[0] < 0);
    assert_eq!(g[1], 0);
    assert!((units(-g[0]) - expected).abs() < 2e-6);
    let h = o.cosine_gradient_function(Position::new(micro(5.0), micro(4.0), 0));
    assert_eq!(h[0], 0);
    assert_eq!(h[1], -g[0]);
}

#[test]
fn gradient_is_zero_at_the_centre() {
    let o = Obstacle::new(Position::new(micro(5.0), micro(5.0), 0), micro(1.0)).unwrap();
    assert_eq!(o.cosine_gradient_function(Position::new(5_000_000, 5_000_000, 0)), [0, 0]);
    assert_eq!(o.cosine_gradient_function(Position::new(5_000_049, 5_000_000, 0)), [0, 0]);
    assert!(o.cosine_gradient_function(Position::new(5_100_000, 5_000_000, 0))[0] < 0);
}

#[test]
fn obstacle_rejects_bad_arguments() {
    assert_eq!(Obstacle::new(Position::new(0, 0, 0), -1).err(), Some(PlanError::NegativeRadius));
    assert_eq!(
        Obstacle::new(Position::new(0, 0, 0), 1_000_000_000_001).err(),
        Some(PlanError::RadiusTooLarge)
    );
    assert_eq!(
        Obstacle::new(Position::new(1_000_000_000_001, 0, 0), 1).err(),
        Some(PlanError::OutOfWorkspace)
    );
    assert!(Obstacle::new(Position::new(1_000_000_000_000, -1_000_000_000_000, 7), 0).is_ok());
}

#[test]
fn set_radius_recomputes_or_refuses() {
    let mut o = Obstacle::new(Position::new(0, 0, 0), 1_000_000).unwrap();
    assert_eq!(o.set_radius(2_000_000), Ok(()));
    assert_eq!(o.get_radius(), 2_000_000);
    assert_eq!(o.get_calculation_radius(), 2_700_000);
    assert_eq!(o.get_field_scale(), 8_482_301);
    assert_eq!(o.set_radius(-5), Err(PlanError::NegativeRadius));
    assert_eq!(o.get_radius(), 2_000_000);
    assert_eq!(o.get_calculation_radius(), 2_700_000);
}

#[test]
fn potentials_add_up() {
    let a = Obstacle::new(Position::new(0, 0, 0), 1_000_000).unwrap();
    let b = Obstacle::new(Position::new(1_000_000, 0, 0), 1_000_000).unwrap();
    let p = Position::new(500_000, 0, 0);
    let both = [a, b];
    assert_eq!(
        obstacle_sum(&both, p.x, p.y),
        a.cosine_field_function(p) + b.cosine_field_function(p)
    );
    assert_eq!(obstacle_sum(&[], p.x, p.y), 0);
    assert!(obstacle_sum(&both, p.x, p.y) > 0);
}
