//! The robot, its state, and the path it plans and follows.
use crate::fixed::{SCALE, WORKSPACE_LIMIT};
use crate::position::Position;
use vstd::prelude::*;

verus! {

/// Side of the robot's bounding square: one unit.
pub const ROBOT_SCALE: i64 = 1_000_000;

/// Speed a new robot aims for: two units per unit of time.
pub const DEFAULT_TARGET_SPEED: i64 = 2_000_000;

/// Smallest step a displaced waypoint takes along an axis: a ten-thousandth
/// of a unit.
pub const MIN_ADJUST_RATE: i64 = 100;

/// Most relaxation passes one optimization runs.
pub const MAX_ITERATIONS: usize = 2000;

/// Height above which a waypoint still needs relaxing: a thousandth.
pub const PATH_OPTIMIZATION_THRESHOLD: i64 = 1_000;

/// One waypoint of a path: where it is, and the potential there.
#[derive(Clone, Copy, Debug, PartialEq, Eq, Structural)]
pub struct PathPoint {
    pub position: Position,
    pub height: i64,
}

impl PathPoint {
    /// The waypoint that a position turns into: its planar coordinates, with
    /// the third coordinate moved into the height.
    pub open spec fn of(position: Position) -> PathPoint {
        PathPoint { position: Position { x: position.x, y: position.y, z: 0 }, height: position.z }
    }

    /// A waypoint at `(x, y)` with height zero.
    pub fn new(x: i64, y: i64) -> (p: PathPoint)
        ensures
            p == (PathPoint { position: Position { x, y, z: 0 }, height: 0 }),
    {
        PathPoint { position: Position::new(x, y, 0), height: 0 }
    }

    /// A waypoint at the planar coordinates of `position`, whose height is
    /// the third coordinate of `position`.
    pub fn from_position(position: Position) -> (p: PathPoint)
        ensures
            p == PathPoint::of(position),
    {
        PathPoint { position: Position::new(position.x, position.y, 0), height: position.z }
    }

    /// The potential recorded for this waypoint.
    pub fn get_height(&self) -> (h: i64)
        ensures
            h == self.height,
    {
        self.height
    }

    /// Records a potential for this waypoint.
    pub fn set_height(&mut self, height: i64)
        ensures
            final(self).height == height,
            final(self).position == old(self).position,
    {
        self.height = height;
    }
}

/// Every waypoint lies in the workspace.
pub open spec fn path_in_workspace(path: Seq<PathPoint>) -> bool {
    forall|i: int| 0 <= i < path.len() ==> (#[trigger] path[i]).position.in_workspace()
}

/// A robot: where it is, how large, the path it has planned, and how far it
/// has followed it.
#[derive(Debug)]
pub struct Robot {
    /// Current position.
    pub position: Position,
    /// Side of the bounding square; a quarter of it bounds what pruning
    /// removes around a turn.
    pub scale: i64,
    /// The planned path, from the position at planning time to the target.
    pub path_points: Vec<PathPoint>,
    /// Velocity along `x`.
    pub velocity_x: i64,
    /// Velocity along `y`.
    pub velocity_y: i64,
    /// How much of the curve has been followed, from zero to `SCALE`.
    pub current_path_progress: i64,
    /// Speed to follow the path at.
    pub target_speed: i64,
    /// Whether the robot is following its path.
    pub follow_path: bool,
    /// Time since the velocity was last recomputed.
    pub velocity_update_timer: i64,
}

impl Robot {
    /// The state in which the planner and the follower work: robot and
    /// waypoints inside the workspace, progress between zero and one, and
    /// neither the target speed nor the timer negative.
    pub open spec fn valid(self) -> bool {
        &&& self.position.within(WORKSPACE_LIMIT as int)
        &&& path_in_workspace(self.path_points@)
        &&& 0 <= self.current_path_progress <= SCALE
        &&& 0 <= self.target_speed
        &&& 0 <= self.velocity_update_timer
    }

    /// Everything but the path is the same in both states.
    pub open spec fn same_but_path(self, other: Robot) -> bool {
        &&& self.position == other.position
        &&& self.scale == other.scale
        &&& self.velocity_x == other.velocity_x
        &&& self.velocity_y == other.velocity_y
        &&& self.current_path_progress == other.current_path_progress
        &&& self.target_speed == other.target_speed
        &&& self.follow_path == other.follow_path
        &&& self.velocity_update_timer == other.velocity_update_timer
    }

    /// A robot at rest at `position`, with no path.
    pub fn new(position: Position, scale: i64) -> (r: Robot)
        ensures
            r.position == position,
            r.scale == scale,
            r.path_points@.len() == 0,
            r.velocity_x == 0,
            r.velocity_y == 0,
            r.current_path_progress == 0,
            r.target_speed == DEFAULT_TARGET_SPEED,
            !r.follow_path,
            r.velocity_update_timer == 0,
            position.within(WORKSPACE_LIMIT as int) ==> r.valid(),
    {
        Robot {
            position,
            scale,
            path_points: Vec::new(),
            velocity_x: 0,
            velocity_y: 0,
            current_path_progress: 0,
            target_speed: DEFAULT_TARGET_SPEED,
            follow_path: false,
            velocity_update_timer: 0,
        }
    }

    /// The robot every session starts with: at `(2, 2)`, one unit wide.
    pub fn create_default() -> (r: Robot)
        ensures
            r.position == (Position { x: 2_000_000, y: 2_000_000, z: 0 }),
            r.scale == ROBOT_SCALE,
            r.path_points@.len() == 0,
            r.velocity_x == 0,
            r.velocity_y == 0,
            r.current_path_progress == 0,
            r.target_speed == DEFAULT_TARGET_SPEED,
            !r.follow_path,
            r.velocity_update_timer == 0,
            r.valid(),
    {
        Robot::new(Position::new(2_000_000, 2_000_000, 0), ROBOT_SCALE)
    }

    /// Whether the state is one the planner and the follower work in.
    pub fn is_valid(&self) -> (b: bool)
        ensures
            b == self.valid(),
    {
        if !self.position.is_within(WORKSPACE_LIMIT) {
            return false;
        }
        if self.current_path_progress < 0 || self.current_path_progress > SCALE {
            return false;
        }
        if self.velocity_update_timer < 0 || self.target_speed < 0 {
            return false;
        }
        let mut i: usize = 0;
        while i < self.path_points.len()
            invariant
                i <= self.path_points@.len(),
                forall|j: int|
                    0 <= j < i ==> (#[trigger] self.path_points@[j]).position.in_workspace(),
            decreases self.path_points@.len() - i,
        {
            if !self.path_points[i].position.is_in_workspace() {
                return false;
            }
            i = i + 1;
        }
        true
    }

    /// Sets the velocity.
    pub fn set_velocity(&mut self, x: i64, y: i64)
        ensures
            final(self).velocity_x == x,
            final(self).velocity_y == y,
            final(self).position == old(self).position,
            final(self).scale == old(self).scale,
            final(self).path_points == old(self).path_points,
            final(self).current_path_progress == old(self).current_path_progress,
            final(self).target_speed == old(self).target_speed,
            final(self).follow_path == old(self).follow_path,
            final(self).velocity_update_timer == old(self).velocity_update_timer,
    {
        self.velocity_x = x;
        self.velocity_y = y;
    }

    /// Sets the speed to follow the path at.
    pub fn set_target_speed(&mut self, speed: i64)
        ensures
            final(self).target_speed == speed,
            final(self).position == old(self).position,
            final(self).scale == old(self).scale,
            final(self).path_points == old(self).path_points,
            final(self).velocity_x == old(self).velocity_x,
            final(self).velocity_y == old(self).velocity_y,
            final(self).current_path_progress == old(self).current_path_progress,
            final(self).follow_path == old(self).follow_path,
            final(self).velocity_update_timer == old(self).velocity_update_timer,
    {
        self.target_speed = speed;
    }
}

} // verus!
