use potential_path::follower::{FollowReport, CONTROL_INTERVAL, PROGRESS_STEP};
use potential_path::position::Position;
use potential_path::robot::{PathPoint, Robot};

fn robot_on_line(length: i64, points: usize) -> Robot {
    let mut robot = Robot::new(Position::new(0, 0, 0), 1_000_000);
    let step = length / (points as i64 - 1);
    robot.path_points = (0..points).map(|i| PathPoint::new(i as i64 * step, 0)).collect();
    robot.follow_path = true;
    robot
}

fn speed_of(robot: &Robot) -> f64 {
    ((robot.velocity_x as f64).powi(2) + (robot.velocity_y as f64).powi(2)).sqrt()
}

#[test]
fn follower_waits_for_the_control_interval() {
    let mut robot = robot_on_line(10_000_000, 11);
    robot.velocity_update_timer = CONTROL_INTERVAL - 1;
    robot.follow_path_with_dt(20_000);
    assert_eq!(robot.current_path_progress, 0);
    assert_eq!((robot.velocity_x, robot.velocity_y), (0, 0));
    assert_eq!(robot.velocity_update_timer, CONTROL_INTERVAL - 1);
    assert!(robot.follow_path);
    robot.velocity_update_timer = CONTROL_INTERVAL;
    robot.follow_path_with_dt(20_000);
    assert!(robot.current_path_progress > 0);
    assert_eq!(robot.velocity_update_timer, 0);
}

#[test]
fn control_step_heads_along_the_curve_at_the_target_speed() {
    let mut robot = robot_on_line(10_000_000, 11);
    robot.velocity_update_timer = CONTROL_INTERVAL;
    robot.follow_path_with_dt(20_000);
    assert_eq!(robot.velocity_x, 2_000_000);
    assert_eq!(robot.velocity_y, 0);
    assert_eq!(robot.current_path_progress, 8 * PROGRESS_STEP);
    assert!(robot.follow_path);
}

#[test]
fn slow_robot_advances_by_the_least_step() {
    let mut robot = robot_on_line(10_000_000, 11);
    robot.set_target_speed(40_000);
    robot.velocity_update_timer = CONTROL_INTERVAL;
    robot.follow_path_with_dt(20_000);
    assert_eq!(robot.current_path_progress, PROGRESS_STEP);
    assert_eq!((robot.velocity_x, robot.velocity_y), (40_000, 0));
    let mut still = robot_on_line(10_000_000, 11);
    still.set_target_speed(0);
    still.velocity_update_timer = CONTROL_INTERVAL;
    still.follow_path_with_dt(20_000);
    assert_eq!(still.current_path_progress, PROGRESS_STEP);
    assert_eq!((still.velocity_x, still.velocity_y), (0, 0));
}

#[test]
fn following_progresses_monotonically_and_ends() {
    let mut robot = Robot::new(Position::new(0, 0, 0), 1_000_000);
    robot.path_points = vec![
        PathPoint::new(0, 0),
        PathPoint::new(1_000_000, 500_000),
        PathPoint::new(2_000_000, 1_500_000),
        PathPoint::new(3_000_000, 1_500_000),
        PathPoint::new(4_000_000, 500_000),
        PathPoint::new(5_000_000, 0),
    ];
    robot.follow_path = true;
    let mut steps = 0;
    let mut last = 0;
    while robot.follow_path {
        robot.velocity_update_timer = CONTROL_INTERVAL;
        robot.follow_path_with_dt(20_000);
        assert!(robot.current_path_progress >= last + PROGRESS_STEP || robot.current_path_progress == 1_000_000);
        last = robot.current_path_progress;
        if robot.follow_path {
            assert!((speed_of(&robot) / 2_000_000.0 - 1.0).abs() < 1e-4);
            assert!(robot.velocity_x > 0);
        }
        steps += 1;
        assert!(steps <= 1000);
    }
    assert_eq!(robot.current_path_progress, 1_000_000);
    assert_eq!((robot.velocity_x, robot.velocity_y), (0, 0));
    assert!(steps > 100);
    robot.follow_path = true;
    robot.set_velocity(5, 5);
    robot.follow_path_with_dt(20_000);
    assert!(!robot.follow_path);
    assert_eq!((robot.velocity_x, robot.velocity_y), (0, 0));
    assert_eq!(robot.current_path_progress, 1_000_000);
}

#[test]
fn far_target_is_searched_to_the_end_of_the_curve() {
    let mut robot = robot_on_line(1_000_000, 5);
    robot.set_target_speed(1_000_000_000);
    robot.velocity_update_timer = CONTROL_INTERVAL;
    let report = robot.follow_path_with_dt(20_000);
    assert_eq!(report, FollowReport { velocity_x: 0, velocity_y: 0, search_exhausted: true });
    assert_eq!(robot.current_path_progress, 1_000_000);
    assert!(!robot.follow_path);
    assert_eq!((robot.velocity_x, robot.velocity_y), (0, 0));
}

#[test]
fn search_from_the_middle_ends_before_its_steps_are_used_up() {
    let mut robot = robot_on_line(1_000_000, 5);
    robot.set_target_speed(1_000_000_000);
    robot.current_path_progress = 500_000;
    robot.velocity_update_timer = CONTROL_INTERVAL;
    let report = robot.follow_path_with_dt(20_000);
    assert!(!report.search_exhausted);
    assert_eq!(robot.current_path_progress, 1_000_000);
}

#[test]
fn report_repeats_the_velocity() {
    let mut robot = robot_on_line(10_000_000, 11);
    robot.velocity_update_timer = CONTROL_INTERVAL;
    let report = robot.follow_path_with_dt(20_000);
    assert_eq!(report, FollowReport { velocity_x: 2_000_000, velocity_y: 0, search_exhausted: false });
    let waiting = robot.follow_path_with_dt(20_000);
    assert_eq!(waiting, report);
    let mut idle = Robot::new(Position::new(0, 0, 0), 1_000_000);
    idle.set_velocity(7, -7);
    assert_eq!(idle.update_position(1_000), FollowReport { velocity_x: 7, velocity_y: -7, search_exhausted: false });
}

#[test]
fn follow_path_uses_the_control_interval() {
    let mut a = robot_on_line(10_000_000, 11);
    let mut b = robot_on_line(10_000_000, 11);
    a.velocity_update_timer = CONTROL_INTERVAL;
    b.velocity_update_timer = CONTROL_INTERVAL;
    a.follow_path();
    b.follow_path_with_dt(CONTROL_INTERVAL);
    assert_eq!(a.current_path_progress, b.current_path_progress);
    assert_eq!((a.velocity_x, a.velocity_y), (b.velocity_x, b.velocity_y));
}

#[test]
fn update_position_integrates_the_velocity() {
    let mut robot = Robot::new(Position::new(1_000_000, 1_000_000, 5), 1_000_000);
    robot.set_velocity(2_000_000, -500_000);
    robot.update_position(20_000);
    assert_eq!(robot.position, Position::new(1_040_000, 990_000, 5));
    assert_eq!(robot.velocity_update_timer, 20_000);
    robot.update_position(5_000);
    assert_eq!(robot.position, Position::new(1_050_000, 987_500, 5));
    assert_eq!(robot.velocity_update_timer, 25_000);
    assert_eq!(robot.current_path_progress, 0);
}

#[test]
fn update_position_runs_the_follower() {
    let mut robot = robot_on_line(10_000_000, 11);
    robot.update_position(10_000);
    assert_eq!(robot.current_path_progress, 0);
    assert_eq!(robot.position, Position::new(0, 0, 0));
    assert_eq!(robot.velocity_update_timer, 10_000);
    robot.update_position(10_000);
    assert_eq!(robot.velocity_update_timer, 0);
    assert_eq!((robot.velocity_x, robot.velocity_y), (2_000_000, 0));
    assert_eq!(robot.position, Position::new(20_000, 0, 0));
    assert!(robot.current_path_progress >= PROGRESS_STEP);
}

#[test]
fn update_position_stops_at_the_workspace_edge_and_saturates_the_timer() {
    let mut robot = Robot::new(Position::new(999_999_999_990, 0, 0), 1_000_000);
    robot.set_velocity(1_000_000_000, 0);
    robot.velocity_update_timer = i64::MAX - 5;
    robot.update_position(1_000_000);
    assert_eq!(robot.position, Position::new(1_000_000_000_000, 0, 0));
    assert_eq!(robot.velocity_update_timer, i64::MAX);
    assert!(robot.is_valid());
}

#[test]
fn robot_state_and_setters() {
    let mut robot = Robot::create_default();
    assert_eq!(robot.position, Position::new(2_000_000, 2_000_000, 0));
    assert_eq!(robot.scale, 1_000_000);
    assert_eq!(robot.target_speed, 2_000_000);
    assert!(robot.path_points.is_empty());
    assert!(!robot.follow_path);
    assert!(robot.is_valid());
    robot.set_velocity(3, -4);
    assert_eq!((robot.velocity_x, robot.velocity_y), (3, -4));
    robot.set_target_speed(-1);
    assert!(!robot.is_valid());
    robot.set_target_speed(7);
    assert_eq!(robot.target_speed, 7);
    robot.current_path_progress = 1_000_001;
    assert!(!robot.is_valid());
    robot.current_path_progress = 0;
    robot.path_points.push(PathPoint::new(1_000_000_000_001, 0));
    assert!(!robot.is_valid());
}

#[test]
fn path_point_accessors() {
    let mut p = PathPoint::new(3, 4);
    assert_eq!(p.position, Position::new(3, 4, 0));
    assert_eq!(p.get_height(), 0);
    p.set_height(17);
    assert_eq!(p.get_height(), 17);
    assert_eq!(p.position, Position::new(3, 4, 0));
    let q = PathPoint::from_position(Position::new(5, 6, 7));
    assert_eq!(q.position, Position::new(5, 6, 0));
    assert_eq!(q.get_height(), 7);
}

#[test]
fn ticks_bring_the_robot_to_the_end() {
    let mut robot = robot_on_line(4_000_000, 9);
    robot.set_target_speed(1_000_000);
    let mut ticks = 0;
    let mut last = 0;
    while robot.follow_path {
        robot.update_position(5_000);
        assert!(robot.current_path_progress >= last);
        last = robot.current_path_progress;
        ticks += 1;
        assert!(ticks <= 4 * 1000);
        if ticks % 4 == 0 {
            assert!(robot.current_path_progress >= (ticks / 4) * PROGRESS_STEP || robot.current_path_progress == 1_000_000);
        }
    }
    assert_eq!(robot.current_path_progress, 1_000_000);
    assert_eq!((robot.velocity_x, robot.velocity_y), (0, 0));
    assert!(robot.position.x > 0);
    assert_eq!(robot.position.y, 0);
    let rest = robot.position;
    robot.update_position(5_000);
    assert_eq!(robot.position, rest);
}
