use potential_path::error::PlanError;
use potential_path::obstacle::Obstacle;
use potential_path::optimizer::{clamp_to_workspace, corrected_position_of, displacement_at, is_near_any, nearest_obstacle_index};
use potential_path::optimizer::{OptimizeReport, MIN_PATH_POINTS};
use potential_path::position::Position;
use potential_path::robot::{PathPoint, Robot, MAX_ITERATIONS};

fn robot_at(x: i64, y: i64) -> Robot {
    Robot::new(Position::new(x, y, 0), 1_000_000)
}

fn straight_path(n: usize, step: i64) -> Vec<PathPoint> {
    (0..n).map(|i| PathPoint::new(i as i64 * step, 0)).collect()
}

#[test]
fn straight_line_without_obstacles() {
    let mut robot = robot_at(0, 0);
    let report = robot.generate_path(&Position::new(10_000_000, 0, 0), 10, &[]).unwrap();
    assert_eq!(report, OptimizeReport { iterations: 0, converged: true });
    let xs: Vec<i64> = robot.path_points.iter().map(|p| p.position.x).collect();
    assert_eq!(
        xs,
        vec![
            0, 1_000_000, 2_000_000, 3_000_000, 4_000_000, 5_000_000, 6_000_000, 7_000_000,
            8_000_000, 9_000_000, 10_000_000, 10_000_000
        ]
    );
    for p in &robot.path_points {
        assert_eq!(p.position.y, 0);
        assert_eq!(p.position.z, 0);
        assert_eq!(p.height, 0);
    }
}

#[test]
fn generated_path_runs_from_start_to_target() {
    let obstacles = [
        Obstacle::new(Position::new(5_000_000, 5_000_000, 0), 1_000_000).unwrap(),
        Obstacle::new(Position::new(8_000_000, 7_500_000, 0), 600_000).unwrap(),
    ];
    let mut robot = robot_at(2_000_000, 2_000_000);
    robot.current_path_progress = 400_000;
    let target = Position::new(9_000_000, 9_000_000, 0);
    let report = robot.generate_path(&target, 40, &obstacles).unwrap();
    assert!(report.iterations <= MAX_ITERATIONS);
    let first = robot.path_points.first().unwrap();
    let last = robot.path_points.last().unwrap();
    assert_eq!(first.position, Position::new(2_000_000, 2_000_000, 0));
    assert_eq!(last.position, target);
    assert!(robot.path_points.len() >= 2);
    assert_eq!(robot.current_path_progress, 0);
    assert!(robot.is_valid());
}

#[test]
fn generated_path_avoids_the_obstacle() {
    let obstacles = [Obstacle::new(Position::new(5_000_000, 5_000_000, 0), 1_000_000).unwrap()];
    let mut robot = robot_at(2_000_000, 2_100_000);
    let report = robot.generate_path(&Position::new(8_000_000, 8_000_000, 0), 40, &obstacles).unwrap();
    assert!(report.converged);
    assert!(report.iterations > 0);
    let n = robot.path_points.len();
    for p in &robot.path_points[1..n - 1] {
        let d = p.position.distance_to(&obstacles[0].get_center());
        assert!(d >= 1_100_000);
        assert_eq!(p.height, 0);
        assert_eq!(p.position.z, 0);
    }
}

#[test]
fn generate_path_rejects_bad_arguments() {
    let target = Position::new(1_000_000, 1_000_000, 0);
    let mut robot = robot_at(0, 0);
    robot.path_points = straight_path(3, 5);
    assert_eq!(robot.generate_path(&target, 0, &[]), Err(PlanError::InvalidSegmentCount));
    assert_eq!(robot.generate_path(&target, 1_000_001, &[]), Err(PlanError::InvalidSegmentCount));
    assert_eq!(
        robot.generate_path(&Position::new(1_000_000_000_001, 0, 0), 5, &[]),
        Err(PlanError::OutOfWorkspace)
    );
    assert_eq!(robot.path_points, straight_path(3, 5));
    let mut lost = robot_at(0, -1_000_000_000_001);
    assert_eq!(lost.generate_path(&target, 5, &[]), Err(PlanError::OutOfWorkspace));
    assert_eq!(lost.generate_path(&target, 0, &[]), Err(PlanError::InvalidSegmentCount));
}

#[test]
fn generate_path_rejects_too_many_obstacles() {
    let one = Obstacle::new(Position::new(50_000_000, 50_000_000, 0), 1_000_000).unwrap();
    let crowd = vec![one; 1_000_001];
    let mut robot = robot_at(0, 0);
    assert_eq!(
        robot.generate_path(&Position::new(1_000_000, 0, 0), 5, &crowd),
        Err(PlanError::TooManyObstacles)
    );
    assert!(robot.path_points.is_empty());
}

#[test]
fn third_coordinate_of_the_end_points_becomes_their_height() {
    let mut robot = Robot::new(Position::new(0, 0, 7), 1_000_000);
    robot.generate_path(&Position::new(3_000_000, 0, 9), 3, &[]).unwrap();
    assert_eq!(robot.path_points[0], PathPoint { position: Position::new(0, 0, 0), height: 7 });
    assert_eq!(
        *robot.path_points.last().unwrap(),
        PathPoint { position: Position::new(3_000_000, 0, 0), height: 9 }
    );
}

#[test]
fn clean_path_keeps_a_minimum_and_the_ends() {
    let mut robot = robot_at(0, 0);
    robot.path_points = straight_path(30, 1_000_000);
    assert!(robot.clean_path(1_000_000));
    assert_eq!(robot.path_points.len(), 16);
    assert_eq!(robot.path_points[0], PathPoint::new(0, 0));
    assert_eq!(*robot.path_points.last().unwrap(), PathPoint::new(29_000_000, 0));

    let mut dense = robot_at(0, 0);
    dense.path_points = straight_path(30, 10);
    assert!(dense.clean_path(1_000_000));
    assert_eq!(dense.path_points.len(), MIN_PATH_POINTS);
    assert_eq!(dense.path_points[0], PathPoint::new(0, 0));
    assert_eq!(*dense.path_points.last().unwrap(), PathPoint::new(290, 0));
}

#[test]
fn clean_path_leaves_short_paths_alone() {
    let mut robot = robot_at(0, 0);
    robot.path_points = straight_path(12, 10);
    assert!(!robot.clean_path(1_000_000));
    assert_eq!(robot.path_points, straight_path(12, 10));
    robot.path_points = Vec::new();
    assert!(!robot.clean_path(1_000_000));
    assert!(robot.path_points.is_empty());
}

#[test]
fn clean_path_merges_only_close_points() {
    let mut robot = robot_at(0, 0);
    robot.path_points = straight_path(20, 1_300_000);
    assert!(!robot.clean_path(1_000_000));
    assert_eq!(robot.path_points.len(), 20);
    robot.path_points = straight_path(20, 1_299_999);
    assert!(robot.clean_path(1_000_000));
}

#[test]
fn settled_path_is_left_where_it_is() {
    let obstacles = [Obstacle::new(Position::new(5_000_000, 5_000_000, 0), 1_000_000).unwrap()];
    let mut robot = robot_at(0, 0);
    robot.path_points = straight_path(6, 1_000_000);
    robot.path_points[2].position.z = 5;
    robot.path_points[2].height = 900;
    robot.path_points[0].height = 4;
    let before: Vec<(i64, i64)> = robot.path_points.iter().map(|p| (p.position.x, p.position.y)).collect();
    assert!(robot.is_path_optimized(&obstacles));
    let report = robot.optimize_path(&obstacles);
    assert_eq!(report, OptimizeReport { iterations: 0, converged: true });
    let after: Vec<(i64, i64)> = robot.path_points.iter().map(|p| (p.position.x, p.position.y)).collect();
    assert_eq!(before, after);
    assert_eq!(robot.path_points[2].height, 0);
    assert_eq!(robot.path_points[2].position.z, 0);
    assert_eq!(robot.path_points[0].height, 4);
    let again = robot.optimize_path(&obstacles);
    assert_eq!(again, OptimizeReport { iterations: 0, converged: true });
    let third: Vec<(i64, i64)> = robot.path_points.iter().map(|p| (p.position.x, p.position.y)).collect();
    assert_eq!(before, third);
}

#[test]
fn short_paths_are_not_optimized() {
    let obstacles = [Obstacle::new(Position::new(0, 0, 0), 1_000_000).unwrap()];
    let mut robot = robot_at(0, 0);
    robot.path_points = vec![
        PathPoint { position: Position::new(0, 0, 3), height: 5_000 },
        PathPoint { position: Position::new(10, 0, 4), height: 6_000 },
    ];
    let before = robot.path_points.clone();
    assert_eq!(robot.optimize_path(&obstacles), OptimizeReport { iterations: 0, converged: true });
    assert_eq!(robot.path_points, before);
}

#[test]
fn one_pass_pushes_a_point_out_of_an_obstacle() {
    let obstacles = [Obstacle::new(Position::new(0, 0, 0), 1_000_000).unwrap()];
    let mut robot = robot_at(-3_000_000, 0);
    robot.path_points = vec![
        PathPoint::new(-3_000_000, 0),
        PathPoint::new(600_000, 800_000),
        PathPoint::new(3_000_000, 0),
    ];
    assert!(!robot.is_path_optimized(&obstacles));
    assert!(!robot.optimize_path_single_iteration(&obstacles));
    assert_eq!(robot.path_points[0], PathPoint::new(-3_000_000, 0));
    assert_eq!(robot.path_points[2], PathPoint::new(3_000_000, 0));
    let moved = robot.path_points[1];
    assert_eq!(moved.position, Position::new(900_000, 1_200_000, 0));
    assert_eq!(moved.height, obstacles[0].cosine_field_function(moved.position));
    assert!(moved.height > 0);
}

#[test]
fn one_pass_steps_down_the_gradient() {
    let obstacles = [Obstacle::new(Position::new(0, 0, 0), 1_000_000).unwrap()];
    let mut robot = robot_at(-3_000_000, 0);
    let at = Position::new(1_500_000, 0, 0);
    robot.path_points = vec![
        PathPoint::new(-3_000_000, 0),
        PathPoint { position: at, height: obstacles[0].cosine_field_function(at) },
        PathPoint::new(3_000_000, 0),
    ];
    let g = obstacles[0].cosine_gradient_function(at);
    assert!(g[0] < 0);
    assert!(!robot.optimize_path_single_iteration(&obstacles));
    assert_eq!(robot.path_points[1].position, Position::new(1_500_000 - g[0], 0, 0));
    assert!(robot.path_points[1].height < obstacles[0].cosine_field_function(at));
}

#[test]
fn one_pass_leaves_settled_points() {
    let obstacles = [Obstacle::new(Position::new(0, 0, 0), 1_000_000).unwrap()];
    let mut robot = robot_at(10_000_000, 0);
    robot.path_points = straight_path(5, 1_000_000).into_iter().map(|mut p| {
        p.position.x += 10_000_000;
        p
    }).collect();
    let before = robot.path_points.clone();
    assert!(robot.optimize_path_single_iteration(&obstacles));
    assert_eq!(robot.path_points, before);
}

#[test]
fn stale_height_without_obstacles_is_recomputed_in_place() {
    let mut robot = robot_at(0, 0);
    robot.path_points = straight_path(4, 1_000_000);
    robot.path_points[1].height = 5_000;
    assert!(!robot.is_path_optimized(&[]));
    assert!(!robot.optimize_path_single_iteration(&[]));
    assert_eq!(robot.path_points, straight_path(4, 1_000_000));
    assert!(robot.is_path_optimized(&[]));
}

#[test]
fn optimizer_stops_at_the_iteration_limit() {
    let obstacles = [Obstacle::new(Position::new(0, 0, 0), 1_000_000).unwrap()];
    let mut robot = robot_at(-3_000_000, 0);
    robot.path_points = vec![
        PathPoint::new(-3_000_000, 0),
        PathPoint { position: Position::new(0, 0, 0), height: 2_000_000 },
        PathPoint::new(3_000_000, 0),
    ];
    let report = robot.optimize_path(&obstacles);
    assert_eq!(report, OptimizeReport { iterations: MAX_ITERATIONS, converged: false });
    assert_eq!(robot.path_points[1], PathPoint::new(0, 0));
    assert_eq!(robot.path_points[0], PathPoint::new(-3_000_000, 0));
    assert_eq!(robot.path_points[2], PathPoint::new(3_000_000, 0));
}

#[test]
fn corrective_pass_pushes_away_from_the_nearest_obstacle() {
    let obstacles = [
        Obstacle::new(Position::new(-1_000_000, 0, 0), 1_000_000).unwrap(),
        Obstacle::new(Position::new(1_000_000, 0, 0), 1_000_000).unwrap(),
    ];
    let mut robot = robot_at(0, -5_000_000);
    robot.path_points = vec![
        PathPoint::new(0, -5_000_000),
        PathPoint { position: Position::new(0, 0, 0), height: 1 },
        PathPoint::new(0, 5_000_000),
    ];
    assert_eq!(displacement_at(&Position::new(0, 0, 0), &obstacles), (0, 0));
    let report = robot.optimize_path(&obstacles);
    assert_eq!(report, OptimizeReport { iterations: MAX_ITERATIONS, converged: false });
    assert_eq!(robot.path_points[1], PathPoint::new(500_000, 0));
    assert_eq!(robot.path_points[0], PathPoint::new(0, -5_000_000));
    assert_eq!(robot.path_points[2], PathPoint::new(0, 5_000_000));
}

#[test]
fn push_unsettled_points_moves_only_what_is_above_the_threshold() {
    let obstacles = [Obstacle::new(Position::new(0, 0, 0), 1_000_000).unwrap()];
    let mut robot = robot_at(0, 0);
    robot.path_points = vec![
        PathPoint { position: Position::new(3_000_000, 4_000_000, 0), height: 5_000 },
        PathPoint { position: Position::new(3_000_000, 4_000_000, 0), height: 1_001 },
        PathPoint { position: Position::new(3_000_000, 4_000_000, 0), height: 1_000 },
        PathPoint { position: Position::new(0, 0, 0), height: 5_000 },
        PathPoint { position: Position::new(-3_000_000, 4_000_000, 0), height: 5_000 },
    ];
    robot.push_unsettled_points(&obstacles);
    assert_eq!(robot.path_points[0].position, Position::new(3_000_000, 4_000_000, 0));
    assert_eq!(robot.path_points[1], PathPoint { position: Position::new(3_300_000, 4_400_000, 0), height: 1_001 });
    assert_eq!(robot.path_points[2].position, Position::new(3_000_000, 4_000_000, 0));
    assert_eq!(robot.path_points[3].position, Position::new(0, 0, 0));
    assert_eq!(robot.path_points[4].position, Position::new(-3_000_000, 4_000_000, 0));
    let mut free = robot_at(0, 0);
    free.path_points = vec![PathPoint::new(0, 0), PathPoint { position: Position::new(1, 1, 0), height: 9_999 }, PathPoint::new(2, 2)];
    free.push_unsettled_points(&[]);
    assert_eq!(free.path_points[1].position, Position::new(1, 1, 0));
}

#[test]
fn nearest_obstacle_is_the_first_of_the_closest() {
    let obstacles = [
        Obstacle::new(Position::new(5_000_000, 0, 0), 1_000_000).unwrap(),
        Obstacle::new(Position::new(-2_000_000, 0, 0), 1_000_000).unwrap(),
        Obstacle::new(Position::new(0, 2_000_000, 0), 3_000_000).unwrap(),
        Obstacle::new(Position::new(0, -1_000_000, 0), 1_000_000).unwrap(),
    ];
    let origin = Position::new(0, 0, 0);
    assert_eq!(nearest_obstacle_index(&origin, &obstacles), 3);
    assert_eq!(nearest_obstacle_index(&origin, &obstacles[..3]), 1);
    assert_eq!(nearest_obstacle_index(&origin, &obstacles[..1]), 0);
    assert_eq!(nearest_obstacle_index(&origin, &[]), 0);
    assert_eq!(corrected_position_of(&origin, &obstacles), Position::new(0, 500_000, 0));
    assert_eq!(corrected_position_of(&Position::new(7, 8, 9), &[]), Position::new(7, 8, 9));
}

#[test]
fn safety_margin_is_a_tenth_beyond_the_radius() {
    let obstacles = [Obstacle::new(Position::new(0, 0, 0), 1_000_000).unwrap()];
    assert!(is_near_any(&Position::new(1_099_999, 0, 0), &obstacles));
    assert!(!is_near_any(&Position::new(1_100_000, 0, 0), &obstacles));
    assert!(!is_near_any(&Position::new(0, 0, 0), &[]));
}

#[test]
fn displacement_adds_the_contributions() {
    let near = Obstacle::new(Position::new(0, 0, 0), 1_000_000).unwrap();
    let far = Obstacle::new(Position::new(3_000_000, 0, 0), 1_000_000).unwrap();
    let p = Position::new(1_000_000, 0, 0);
    let g = far.cosine_gradient_function(p);
    assert_eq!(far.cosine_gradient_function(p), [0, 0]);
    assert_eq!(displacement_at(&p, &[near, far]), (500_000 - g[0], 0));
    let q = Position::new(1_400_000, 0, 0);
    let from_near = near.cosine_gradient_function(q);
    let from_far = far.cosine_gradient_function(q);
    assert!(from_near[0] < 0 && from_far[0] > 0);
    assert_eq!(displacement_at(&q, &[near, far]), (-from_near[0] - from_far[0], 0));
}

#[test]
fn short_steps_are_lengthened_to_the_least_step() {
    let left = Obstacle::new(Position::new(0, 0, 0), 1_000_000).unwrap();
    let right = Obstacle::new(Position::new(3_000_000, 0, 0), 1_000_000).unwrap();
    let obstacles = [left, right];
    let at = Position::new(1_520_000, 0, 0);
    let raw = displacement_at(&at, &obstacles);
    assert!(0 < raw.0 && raw.0 < 100);
    assert_eq!(raw.1, 0);
    let mut robot = robot_at(1_520_000, -5_000_000);
    robot.path_points = vec![
        PathPoint::new(1_520_000, -5_000_000),
        PathPoint { position: at, height: 2_000_000 },
        PathPoint::new(1_520_000, 5_000_000),
    ];
    assert!(!robot.optimize_path_single_iteration(&obstacles));
    assert_eq!(robot.path_points[1].position, Position::new(1_520_100, 0, 0));
    assert_eq!(
        robot.path_points[1].height,
        left.cosine_field_function(Position::new(1_520_100, 0, 0))
            + right.cosine_field_function(Position::new(1_520_100, 0, 0))
    );
}

#[test]
fn longer_steps_are_taken_as_they_are() {
    let o = Obstacle::new(Position::new(0, 0, 0), 1_000_000).unwrap();
    let at = Position::new(1_699_000, 30_000, 0);
    let g = o.cosine_gradient_function(at);
    assert!(g[0] < -100);
    assert!(g[1] < 0 && g[1] > -100);
    let mut robot = robot_at(-5_000_000, 0);
    robot.path_points = vec![
        PathPoint::new(-5_000_000, 0),
        PathPoint { position: at, height: o.cosine_field_function(at) },
        PathPoint::new(5_000_000, 0),
    ];
    robot.optimize_path_single_iteration(&[o]);
    assert_eq!(robot.path_points[1].position, Position::new(at.x - g[0], at.y - g[1], 0));
}

#[test]
fn relaxed_waypoints_stop_at_the_workspace_edge() {
    assert_eq!(clamp_to_workspace(1_000_000_000_001), 1_000_000_000_000);
    assert_eq!(clamp_to_workspace(-1_000_000_500_000), -1_000_000_000_000);
    assert_eq!(clamp_to_workspace(17), 17);
    let o = Obstacle::new(Position::new(999_999_400_000, 0, 0), 1_000_000).unwrap();
    let mut robot = robot_at(0, 0);
    robot.path_points = vec![
        PathPoint::new(0, 0),
        PathPoint::new(999_999_900_000, 0),
        PathPoint::new(999_999_900_000, 5_000_000),
    ];
    robot.optimize_path_single_iteration(&[o]);
    assert_eq!(robot.path_points[1].position, Position::new(1_000_000_000_000, 0, 0));
    assert!(robot.is_valid());
}

#[test]
fn exact_gradient_value() {
    let o = Obstacle::new(Position::new(5_000_000, 5_000_000, 0), 1_000_000).unwrap();
    let g = o.cosine_gradient_function(Position::new(5_600_000, 5_800_000, 0));
    let magnitude = std::f64::consts::FRAC_PI_2 * (1.0f64 / 1.7).sin() * 0.001;
    assert!((g[0] as f64 / 1e6 + magnitude * 0.6).abs() < 2e-6);
    assert!((g[1] as f64 / 1e6 + magnitude * 0.8).abs() < 2e-6);
    assert_eq!(g, [-522, -697]);
}
