use potential_path::follower::CONTROL_INTERVAL;
use potential_path::obstacle::Obstacle;
use potential_path::position::Position;
use potential_path::robot::Robot;

fn obstacles() -> Vec<Obstacle> {
    vec![
        Obstacle::new(Position::new(5_000_000, 3_200_000, 0), 600_000).unwrap(),
        Obstacle::new(Position::new(9_000_000, 4_900_000, 0), 800_000).unwrap(),
        Obstacle::new(Position::new(12_000_000, 5_000_000, 0), 500_000).unwrap(),
    ]
}

#[test]
fn planned_path_clears_every_obstacle() {
    let obstacles = obstacles();
    let mut robot = Robot::create_default();
    let target = Position::new(14_000_000, 6_000_000, 0);
    let report = robot.generate_path(&target, 160, &obstacles).unwrap();
    assert!(report.converged);
    assert!(robot.is_path_optimized(&obstacles));
    assert_eq!(robot.path_points.first().unwrap().position, Position::new(2_000_000, 2_000_000, 0));
    assert_eq!(robot.path_points.last().unwrap().position, target);
    let n = robot.path_points.len();
    assert!(n >= 12 && n <= 162);
    for p in &robot.path_points[1..n - 1] {
        for o in &obstacles {
            assert!(p.position.distance_to(&o.get_center()) >= o.get_radius() + 100_000);
        }
        assert_eq!(p.height, 0);
    }
}

#[test]
fn planning_twice_gives_the_same_path() {
    let obstacles = obstacles();
    let target = Position::new(14_000_000, 6_000_000, 0);
    let mut first = Robot::create_default();
    let mut second = Robot::create_default();
    let a = first.generate_path(&target, 80, &obstacles).unwrap();
    let b = second.generate_path(&target, 80, &obstacles).unwrap();
    assert_eq!(a, b);
    assert_eq!(first.path_points, second.path_points);
    let again = second.generate_path(&target, 80, &obstacles).unwrap();
    assert_eq!(again, a);
    assert_eq!(first.path_points, second.path_points);
}

#[test]
fn optimizing_a_planned_path_again_changes_nothing() {
    let obstacles = obstacles();
    let mut robot = Robot::create_default();
    robot.generate_path(&Position::new(14_000_000, 6_000_000, 0), 160, &obstacles).unwrap();
    let before = robot.path_points.clone();
    let report = robot.optimize_path(&obstacles);
    assert_eq!(report.iterations, 0);
    assert!(report.converged);
    assert_eq!(robot.path_points, before);
}

#[test]
fn robot_follows_its_path_to_the_target() {
    let obstacles = obstacles();
    let mut robot = Robot::create_default();
    let target = Position::new(14_000_000, 6_000_000, 0);
    robot.generate_path(&target, 160, &obstacles).unwrap();
    robot.follow_path = true;
    let mut ticks = 0;
    let mut last = 0;
    while robot.follow_path {
        let report = robot.update_position(CONTROL_INTERVAL);
        assert!(!report.search_exhausted);
        assert!(robot.current_path_progress >= last);
        last = robot.current_path_progress;
        ticks += 1;
        assert!(ticks <= 1000);
        assert!(robot.is_valid());
    }
    assert_eq!(robot.current_path_progress, 1_000_000);
    assert_eq!((robot.velocity_x, robot.velocity_y), (0, 0));
    assert!(ticks > 200 && ticks < 400);
    assert!(robot.position.distance_to(&target) < 4_000_000);
    assert!(robot.position.x > 10_000_000);
}
