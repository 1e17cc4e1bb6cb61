use potential_path::position::Position;
use potential_path::pruner::is_colinear;
use potential_path::robot::{PathPoint, Robot};

fn robot_with(points: &[(i64, i64)]) -> Robot {
    let mut robot = Robot::new(Position::new(0, 0, 0), 1_000_000);
    robot.path_points = points.iter().map(|&(x, y)| PathPoint::new(x, y)).collect();
    robot
}

fn route(robot: &Robot) -> Vec<(i64, i64)> {
    robot.path_points.iter().map(|p| (p.position.x, p.position.y)).collect()
}

#[test]
fn colinearity_follows_the_angle() {
    let chord = Position::new(10_000_000, 0, 0);
    assert!(is_colinear(&Position::new(1_000_000, 0, 0), &chord));
    assert!(is_colinear(&Position::new(1_000_000, 1_000, 0), &chord));
    assert!(is_colinear(&Position::new(1_000_000, -1_414, 0), &chord));
    assert!(!is_colinear(&Position::new(1_000_000, 1_415, 0), &chord));
    assert!(!is_colinear(&Position::new(1_000_000, 2_000, 0), &chord));
    assert!(!is_colinear(&Position::new(-1_000_000, 0, 0), &chord));
    assert!(!is_colinear(&Position::new(0, 1_000_000, 0), &chord));
    assert!(!is_colinear(&Position::new(50, 0, 0), &chord));
    assert!(is_colinear(&Position::new(100, 0, 0), &chord));
    assert!(!is_colinear(&Position::new(1_000_000, 0, 0), &Position::new(0, 0, 0)));
}

#[test]
fn colinearity_agrees_with_the_cosine() {
    let chord = Position::new(3_000_000, 4_000_000, 0);
    let mut k: i64 = -40;
    while k <= 40 {
        let v = Position::new(6_000_000 - 4 * k * 100, 8_000_000 + 3 * k * 100, 0);
        let dot = v.x as f64 * 3.0 + v.y as f64 * 4.0;
        let cosine = dot / (5.0 * ((v.x as f64).powi(2) + (v.y as f64).powi(2)).sqrt());
        if (cosine - 0.999999).abs() > 1e-9 {
            assert_eq!(is_colinear(&v, &chord), cosine > 0.999999);
        }
        k += 1;
    }
}

#[test]
fn straight_path_is_not_pruned() {
    let points: Vec<(i64, i64)> = (0..10).map(|i| (i * 1_000_000, 0)).collect();
    let mut robot = robot_with(&points);
    robot.get_points_of_curvature();
    assert_eq!(route(&robot), points);
}

#[test]
fn short_path_is_not_pruned() {
    let points = [(0, 0), (1_000_000, 0), (2_000_000, 3_000_000), (3_000_000, 0)];
    let mut robot = robot_with(&points);
    robot.get_points_of_curvature();
    assert_eq!(route(&robot), points.to_vec());
    let mut empty = robot_with(&[]);
    empty.get_points_of_curvature();
    assert!(empty.path_points.is_empty());
}

#[test]
fn window_around_a_transition_is_removed() {
    let points = [
        (0, 0),
        (1_000_000, 0),
        (2_000_000, 0),
        (3_000_000, 0),
        (4_000_000, 1_000_000),
        (5_000_000, 1_000_000),
        (6_000_000, 1_000_000),
        (7_000_000, 1_000_000),
        (8_000_000, 0),
    ];
    let mut robot = robot_with(&points);
    robot.get_points_of_curvature();
    assert_eq!(
        route(&robot),
        vec![
            (0, 0),
            (1_000_000, 0),
            (5_000_000, 1_000_000),
            (6_000_000, 1_000_000),
            (7_000_000, 1_000_000),
            (8_000_000, 0)
        ]
    );
}

#[test]
fn window_grows_over_close_waypoints_but_spares_the_ends() {
    let points = [
        (0, 0),
        (2_900_000, 0),
        (2_950_000, 0),
        (3_000_000, 0),
        (3_050_000, 300_000),
        (3_100_000, 600_000),
        (5_000_000, 1_000_000),
        (8_000_000, 0),
    ];
    let mut robot = robot_with(&points);
    robot.get_points_of_curvature();
    let kept = route(&robot);
    assert_eq!(kept.first(), Some(&(0, 0)));
    assert_eq!(kept.last(), Some(&(8_000_000, 0)));
    assert_eq!(kept, vec![(0, 0), (8_000_000, 0)]);
}

#[test]
fn pruning_keeps_first_and_last() {
    let points = [
        (0, 0),
        (100_000, 0),
        (200_000, 0),
        (300_000, 200_000),
        (400_000, 0),
        (500_000, 0),
        (600_000, 0),
    ];
    let mut robot = robot_with(&points);
    robot.get_points_of_curvature();
    let kept = route(&robot);
    assert!(kept.len() >= 2);
    assert_eq!(kept[0], (0, 0));
    assert_eq!(*kept.last().unwrap(), (600_000, 0));
    for p in &kept {
        assert!(points.contains(p));
    }
}
