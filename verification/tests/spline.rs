use potential_path::position::Position;
use potential_path::robot::{PathPoint, Robot};
use potential_path::spline::blend_coordinate;
use potential_path::wire::{Color, Wire};

fn robot_with(points: &[(i64, i64)]) -> Robot {
    let mut robot = Robot::new(Position::new(0, 0, 0), 1_000_000);
    robot.path_points = points.iter().map(|&(x, y)| PathPoint::new(x, y)).collect();
    robot
}

fn catmull_rom(before: f64, start: f64, end: f64, after: f64, t: f64) -> f64 {
    let t2 = t * t;
    let t3 = t2 * t;
    0.5 * ((-t3 + 2.0 * t2 - t) * before
        + (3.0 * t3 - 5.0 * t2 + 2.0) * start
        + (-3.0 * t3 + 4.0 * t2 + t) * end
        + (t3 - t2) * after)
}

#[test]
fn blend_passes_through_the_segment_ends() {
    assert_eq!(blend_coordinate(-7, 11, 13, 99, 0), 11);
    assert_eq!(blend_coordinate(-7, 11, 13, 99, 1_000_000), 13);
    assert_eq!(blend_coordinate(5, -1_000_000_000_000, 1_000_000_000_000, 5, 0), -1_000_000_000_000);
}

#[test]
fn blend_halfway_between_equal_steps() {
    assert_eq!(blend_coordinate(0, 1_000_000, 2_000_000, 3_000_000, 500_000), 1_500_000);
    assert_eq!(blend_coordinate(0, 0, 1_000_000, 1_000_000, 500_000), 500_000);
    assert_eq!(blend_coordinate(0, 0, 1_000_000, 0, 500_000), 562_500);
}

#[test]
fn blend_tracks_the_cubic() {
    let (before, start, end, after) = (1_250_000, -3_000_000, 4_500_000, 2_000_000);
    let mut t: i64 = 0;
    while t <= 1_000_000 {
        let exact = catmull_rom(1.25, -3.0, 4.5, 2.0, t as f64 / 1e6);
        let got = blend_coordinate(before, start, end, after, t) as f64 / 1e6;
        assert!((got - exact).abs() < 3e-5);
        t += 31_250;
    }
}

#[test]
fn catmull_rom_point_blends_every_axis() {
    let robot = robot_with(&[]);
    let p = robot.catmull_rom_point(
        Position::new(0, 0, 0),
        Position::new(1_000_000, 2_000_000, 3_000_000),
        Position::new(2_000_000, 4_000_000, 6_000_000),
        Position::new(3_000_000, 6_000_000, 9_000_000),
        250_000,
    );
    assert_eq!(p, Position::new(1_250_000, 2_500_000, 3_750_000));
}

#[test]
fn curve_starts_at_the_first_and_ends_at_the_last_waypoint() {
    let robot = robot_with(&[(0, 0), (1_000_000, 2_000_000), (3_000_000, 1_000_000), (4_000_000, 4_000_000), (9_000_000, -2_000_000)]);
    assert_eq!(robot.catmull_rom_spline(0), (0, 0));
    assert_eq!(robot.catmull_rom_spline(1_000_000), (9_000_000, -2_000_000));
    assert_eq!(robot.catmull_rom_spline(-5), (0, 0));
    assert_eq!(robot.catmull_rom_spline(2_000_000), (9_000_000, -2_000_000));
}

#[test]
fn curve_passes_through_every_waypoint() {
    let points = [(0, 0), (1_000_000, 2_000_000), (3_000_000, 1_000_000), (4_000_000, 4_000_000), (9_000_000, -2_000_000)];
    let robot = robot_with(&points);
    for (i, &p) in points.iter().enumerate() {
        assert_eq!(robot.catmull_rom_spline(i as i64 * 250_000), p);
    }
}

#[test]
fn curve_follows_a_straight_line() {
    let robot = robot_with(&[(0, 0), (1_000_000, 0), (2_000_000, 0), (3_000_000, 0), (4_000_000, 0)]);
    assert_eq!(robot.catmull_rom_spline(375_000), (1_500_000, 0));
    assert_eq!(robot.catmull_rom_spline(500_000), (2_000_000, 0));
    assert_eq!(robot.catmull_rom_spline(625_000), (2_500_000, 0));
}

#[test]
fn short_paths_answer_with_the_nearest_waypoint() {
    assert_eq!(robot_with(&[]).catmull_rom_spline(300_000), (0, 0));
    let one = robot_with(&[(7, 8)]);
    assert_eq!(one.catmull_rom_spline(0), (7, 8));
    assert_eq!(one.catmull_rom_spline(1_000_000), (7, 8));
    let two = robot_with(&[(1, 1), (2, 2)]);
    assert_eq!(two.catmull_rom_spline(0), (1, 1));
    assert_eq!(two.catmull_rom_spline(499_999), (1, 1));
    assert_eq!(two.catmull_rom_spline(500_000), (2, 2));
    assert_eq!(two.catmull_rom_spline(1_000_000), (2, 2));
    let three = robot_with(&[(1, 1), (2, 2), (3, 3)]);
    assert_eq!(three.catmull_rom_spline(0), (1, 1));
    assert_eq!(three.catmull_rom_spline(249_999), (1, 1));
    assert_eq!(three.catmull_rom_spline(250_000), (2, 2));
    assert_eq!(three.catmull_rom_spline(749_999), (2, 2));
    assert_eq!(three.catmull_rom_spline(750_000), (3, 3));
    assert_eq!(three.catmull_rom_spline(1_000_000), (3, 3));
}

#[test]
fn sampled_curve_has_a_sample_per_waypoint_and_segment() {
    let points = [(0, 0), (1_000_000, 1_000_000), (2_000_000, 0)];
    let robot = robot_with(&points);
    let samples = robot.generate_catmull_rom_spline();
    assert_eq!(samples.len(), 1 + 2 * 3);
    assert_eq!(samples[0], Position::new(0, 0, 0));
    assert_eq!(samples[3], Position::new(1_000_000, 1_000_000, 0));
    assert_eq!(samples[6], Position::new(2_000_000, 0, 0));
    let x = catmull_rom(0.0, 0.0, 1.0, 2.0, 1.0 / 3.0);
    let y = catmull_rom(0.0, 0.0, 1.0, 0.0, 1.0 / 3.0);
    assert!((samples[1].x as f64 / 1e6 - x).abs() < 3e-6);
    assert!((samples[1].y as f64 / 1e6 - y).abs() < 3e-6);
    assert!(robot_with(&[(1, 1)]).generate_catmull_rom_spline().is_empty());
    assert!(robot_with(&[]).generate_catmull_rom_spline().is_empty());
}

#[test]
fn path_wires_join_the_samples() {
    let robot = robot_with(&[(0, 0), (1_000_000, 1_000_000), (2_000_000, 0)]);
    let samples = robot.generate_catmull_rom_spline();
    let wires = robot.get_path_wires();
    assert_eq!(wires.len(), samples.len() - 1);
    for (i, w) in wires.iter().enumerate() {
        assert_eq!(*w, Wire { start: samples[i], end: samples[i + 1], color: Color::new(0, 255, 0) });
    }
    assert!(robot_with(&[(5, 5)]).get_path_wires().is_empty());
    let pair = robot_with(&[(0, 0), (10, 0)]).get_path_wires();
    assert_eq!(pair.len(), 2);
    assert_eq!(pair[0].start, Position::new(0, 0, 0));
    assert_eq!(pair[1].end, Position::new(10, 0, 0));
}
