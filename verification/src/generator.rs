//! Planning a path from the robot to a target.
//!
//! A path is seeded on the straight line to the target, cleaned of waypoints
//! that lie too close together, relaxed away from the obstacles, and pruned
//! around the turns that the relaxation left.
use crate::error::PlanError;
use crate::fixed::{abs, isqrt, mul_wide, sqrt_floor, trunc_div, WORKSPACE_LIMIT};
use crate::obstacle::{potential_at, total_potential, Obstacle, MAX_OBSTACLES};
use crate::optimizer::{cleaned, lemma_clean_from, merge_threshold, optimized_path, OptimizeReport};
use crate::position::Position;
use crate::pruner::pruned;
use crate::robot::{path_in_workspace, PathPoint, Robot};
use vstd::prelude::*;

verus! {

/// Most segments a path is seeded with.
pub const MAX_SEGMENTS: usize = 1_000_000;

/// The step along one axis between two seeded waypoints.
pub open spec fn seed_step(from: int, to: int, segments: int) -> int {
    trunc_div(to - from, segments)
}

/// Where the `i`-th waypoint is seeded: `i` equal steps from the start.
pub open spec fn seed_position(start: Position, target: Position, segments: int, i: int) -> Position {
    Position {
        x: (start.x + i * seed_step(start.x as int, target.x as int, segments)) as i64,
        y: (start.y + i * seed_step(start.y as int, target.y as int, segments)) as i64,
        z: 0,
    }
}

/// The seeded path: the start, `segments` waypoints at equal steps from it,
/// each with the potential at its place, and the target itself.
pub open spec fn seeded_path(
    start: Position,
    target: Position,
    segments: int,
    obstacles: Seq<Obstacle>,
) -> Seq<PathPoint> {
    Seq::new(
        (segments + 2) as nat,
        |i: int|
            if i == 0 {
                PathPoint::of(start)
            } else if i == segments + 1 {
                PathPoint::of(target)
            } else {
                PathPoint {
                    position: seed_position(start, target, segments, i),
                    height: total_potential(
                        obstacles,
                        seed_position(start, target, segments, i),
                    ) as i64,
                }
            },
    )
}

/// The distance between two seeded waypoints, rounded down.
pub open spec fn seed_distance(start: Position, target: Position, segments: int) -> int {
    let dx = seed_step(start.x as int, target.x as int, segments);
    let dy = seed_step(start.y as int, target.y as int, segments);
    sqrt_floor((dx * dx + dy * dy) as nat) as int
}

/// The path that planning yields.
pub open spec fn planned_path(
    start: Position,
    target: Position,
    segments: int,
    obstacles: Seq<Obstacle>,
    scale: int,
) -> Seq<PathPoint> {
    pruned(
        optimized_path(
            cleaned(
                seeded_path(start, target, segments, obstacles),
                seed_distance(start, target, segments),
            ),
            obstacles,
        ),
        scale,
    )
}

/// The error that planning answers these arguments with, if any: first a
/// segment count of zero or above `MAX_SEGMENTS`, then a start or target
/// outside the workspace, then too many obstacles.
pub open spec fn plan_error(
    start: Position,
    target: Position,
    segments: int,
    obstacles: Seq<Obstacle>,
) -> Option<PlanError> {
    if segments == 0 || segments > MAX_SEGMENTS {
        Some(PlanError::InvalidSegmentCount)
    } else if !start.within(WORKSPACE_LIMIT as int) || !target.within(WORKSPACE_LIMIT as int) {
        Some(PlanError::OutOfWorkspace)
    } else if obstacles.len() > MAX_OBSTACLES {
        Some(PlanError::TooManyObstacles)
    } else {
        None
    }
}

/// Steps of equal length never overshoot: `i` steps lie between nothing and
/// the whole way.
pub proof fn lemma_seed_step(from: int, to: int, segments: int, i: int)
    requires
        segments >= 1,
        0 <= i <= segments,
    ensures
        to >= from ==> 0 <= i * seed_step(from, to, segments) <= to - from,
        to < from ==> to - from <= i * seed_step(from, to, segments) <= 0,
        abs(seed_step(from, to, segments)) <= abs(to - from),
{
    let a = abs(to - from);
    let q = a / segments;
    vstd::arithmetic::div_mod::lemma_fundamental_div_mod(a, segments);
    vstd::arithmetic::div_mod::lemma_div_pos_is_pos(a, segments);
    assert(0 <= i * q <= segments * q) by (nonlinear_arith)
        requires
            0 <= i <= segments,
            0 <= q,
    ;
    assert(segments * q <= a);
    assert(q <= segments * q) by (nonlinear_arith)
        requires
            segments >= 1,
            0 <= q,
    ;
    if !(to >= from) {
        assert(i * (-q) == -(i * q)) by (nonlinear_arith);
    }
}

/// Every seeded waypoint lies in the workspace when start and target do.
pub proof fn lemma_seed_position(start: Position, target: Position, segments: int, i: int)
    requires
        segments >= 1,
        0 <= i <= segments,
        start.within(WORKSPACE_LIMIT as int),
        target.within(WORKSPACE_LIMIT as int),
    ensures
        seed_position(start, target, segments, i).in_workspace(),
        seed_position(start, target, segments, i).x == start.x + i * seed_step(
            start.x as int,
            target.x as int,
            segments,
        ),
        seed_position(start, target, segments, i).y == start.y + i * seed_step(
            start.y as int,
            target.y as int,
            segments,
        ),
{
    lemma_seed_step(start.x as int, target.x as int, segments, i);
    lemma_seed_step(start.y as int, target.y as int, segments, i);
}

/// The seeded path lies in the workspace, starts at the start and ends at the
/// target.
pub proof fn lemma_seeded_path(
    start: Position,
    target: Position,
    segments: int,
    obstacles: Seq<Obstacle>,
)
    requires
        segments >= 1,
        start.within(WORKSPACE_LIMIT as int),
        target.within(WORKSPACE_LIMIT as int),
    ensures
        seeded_path(start, target, segments, obstacles).len() == segments + 2,
        seeded_path(start, target, segments, obstacles).first() == PathPoint::of(start),
        seeded_path(start, target, segments, obstacles).last() == PathPoint::of(target),
        path_in_workspace(seeded_path(start, target, segments, obstacles)),
{
    let path = seeded_path(start, target, segments, obstacles);
    assert forall|i: int| 0 <= i < path.len() implies (#[trigger] path[i]).position.in_workspace() by {
        if 0 < i < segments + 1 {
            lemma_seed_position(start, target, segments, i);
        }
    }
}

/// The planned path runs from the start to the target inside the workspace.
pub proof fn lemma_planned_path(
    start: Position,
    target: Position,
    segments: int,
    obstacles: Seq<Obstacle>,
    scale: int,
)
    requires
        segments >= 1,
        start.within(WORKSPACE_LIMIT as int),
        target.within(WORKSPACE_LIMIT as int),
    ensures
        cleaned(
            seeded_path(start, target, segments, obstacles),
            seed_distance(start, target, segments),
        ).len() >= 3,
        cleaned(
            seeded_path(start, target, segments, obstacles),
            seed_distance(start, target, segments),
        ).first() == PathPoint::of(start),
        cleaned(
            seeded_path(start, target, segments, obstacles),
            seed_distance(start, target, segments),
        ).last() == PathPoint::of(target),
        path_in_workspace(
            cleaned(
                seeded_path(start, target, segments, obstacles),
                seed_distance(start, target, segments),
            ),
        ),
{
    lemma_seeded_path(start, target, segments, obstacles);
    lemma_clean_from(
        seeded_path(start, target, segments, obstacles),
        1,
        merge_threshold(seed_distance(start, target, segments)),
    );
}

impl Robot {
    /// Plans a path from the robot's position to `target_position` around
    /// the obstacles, and makes it the robot's path, to be followed from its
    /// beginning.
    ///
    /// The path is seeded with `segments_count` waypoints at equal steps
    /// between the two end points, then cleaned, relaxed and pruned. It
    /// always begins at the robot's position and ends at the target. A
    /// request that is refused leaves the robot as it was.
    pub fn generate_path(
        &mut self,
        target_position: &Position,
        segments_count: usize,
        obstacles: &[Obstacle],
    ) -> (res: Result<OptimizeReport, PlanError>)
        ensures
            match plan_error(
                old(self).position,
                *target_position,
                segments_count as int,
                obstacles@,
            ) {
                Some(e) => res == Err::<OptimizeReport, PlanError>(e) && *final(self) == *old(self),
                None => {
                    &&& res is Ok
                    &&& final(self).path_points@ == planned_path(
                        old(self).position,
                        *target_position,
                        segments_count as int,
                        obstacles@,
                        old(self).scale as int,
                    )
                    &&& final(self).current_path_progress == 0
                    &&& final(self).position == old(self).position
                    &&& final(self).scale == old(self).scale
                    &&& final(self).velocity_x == old(self).velocity_x
                    &&& final(self).velocity_y == old(self).velocity_y
                    &&& final(self).target_speed == old(self).target_speed
                    &&& final(self).follow_path == old(self).follow_path
                    &&& final(self).velocity_update_timer == old(self).velocity_update_timer
                    &&& 2 <= final(self).path_points@.len() <= segments_count + 2
                    &&& final(self).path_points@.first() == (PathPoint {
                        position: Position {
                            x: old(self).position.x,
                            y: old(self).position.y,
                            z: 0,
                        },
                        height: old(self).position.z,
                    })
                    &&& final(self).path_points@.last() == (PathPoint {
                        position: Position { x: target_position.x, y: target_position.y, z: 0 },
                        height: target_position.z,
                    })
                    &&& path_in_workspace(final(self).path_points@)
                    &&& res->Ok_0.iterations <= crate::robot::MAX_ITERATIONS
                },
            },
    {
        if segments_count == 0 || segments_count > MAX_SEGMENTS {
            return Err(PlanError::InvalidSegmentCount);
        }
        if !self.position.is_within(WORKSPACE_LIMIT) || !target_position.is_within(
            WORKSPACE_LIMIT,
        ) {
            return Err(PlanError::OutOfWorkspace);
        }
        if obstacles.len() > MAX_OBSTACLES {
            return Err(PlanError::TooManyObstacles);
        }
        let start = self.position;
        let end = *target_position;
        let ghost segments = segments_count as int;
        let ghost seeded = seeded_path(start, end, segments, obstacles@);
        proof {
            lemma_seeded_path(start, end, segments, obstacles@);
            lemma_planned_path(start, end, segments, obstacles@, self.scale as int);
            lemma_seed_step(start.x as int, end.x as int, segments, 1);
            lemma_seed_step(start.y as int, end.y as int, segments, 1);
        }
        let mut points: Vec<PathPoint> = Vec::with_capacity(segments_count + 2);
        points.push(PathPoint::from_position(start));
        let dx: i64 = (end.x - start.x) / (segments_count as i64);
        let dy: i64 = (end.y - start.y) / (segments_count as i64);
        let mut i: usize = 1;
        while i <= segments_count
            invariant
                1 <= i <= segments_count + 1,
                segments == segments_count,
                1 <= segments_count <= MAX_SEGMENTS,
                obstacles@.len() <= MAX_OBSTACLES,
                start.within(WORKSPACE_LIMIT as int),
                end.within(WORKSPACE_LIMIT as int),
                dx == seed_step(start.x as int, end.x as int, segments),
                dy == seed_step(start.y as int, end.y as int, segments),
                points@.len() == i,
                seeded == seeded_path(start, end, segments, obstacles@),
                forall|j: int| 0 <= j < i ==> #[trigger] points@[j] == seeded[j],
            decreases segments_count + 1 - i,
        {
            let prev_point = points[i - 1];
            proof {
                if i > 1 {
                    lemma_seed_position(start, end, segments, i - 1);
                }
                lemma_seed_position(start, end, segments, i as int);
                assert(i * dx == (i - 1) * dx + dx) by (nonlinear_arith);
                assert(i * dy == (i - 1) * dy + dy) by (nonlinear_arith);
                assert(0 * dx == 0 && 0 * dy == 0);
                assert(points@[i - 1] == seeded[i - 1]);
            }
            let mut p = PathPoint::new(prev_point.position.x + dx, prev_point.position.y + dy);
            let height: i64 = potential_at(obstacles, p.position);
            p.set_height(height);
            points.push(p);
            i = i + 1;
        }
        points.push(PathPoint::from_position(end));
        proof {
            assert(points@ =~= seeded);
            let a = dx as int;
            let b = dy as int;
            assert(0 <= a * a <= 4_000_000_000_000_000_000_000_000) by (nonlinear_arith)
                requires
                    -2_000_000_000_000 <= a <= 2_000_000_000_000,
            ;
            assert(0 <= b * b <= 4_000_000_000_000_000_000_000_000) by (nonlinear_arith)
                requires
                    -2_000_000_000_000 <= b <= 2_000_000_000_000,
            ;
            crate::fixed::lemma_sqrt_floor_bounds((a * a + b * b) as nat);
            let r = sqrt_floor((a * a + b * b) as nat);
            assert(r <= 4_000_000_000_000) by (nonlinear_arith)
                requires
                    r * r <= a * a + b * b,
                    a * a + b * b <= 8_000_000_000_000_000_000_000_000,
            ;
        }
        self.path_points = points;
        self.current_path_progress = 0;
        let step_distance: u64 = isqrt((mul_wide(dx, dx) + mul_wide(dy, dy)) as u128);
        self.clean_path(step_distance as i64);
        let report = self.optimize_path(obstacles);
        self.get_points_of_curvature();
        Ok(report)
    }
}

} // verus!
