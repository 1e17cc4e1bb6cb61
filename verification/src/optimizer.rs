//! Relaxation of a path away from the obstacles.
//!
//! A waypoint is settled when its recorded height is at most
//! [`PATH_OPTIMIZATION_THRESHOLD`] and it keeps [`SAFETY_MARGIN`] from every
//! obstacle. One pass displaces every interior waypoint that is not settled;
//! passes repeat, each followed by a cleaning of waypoints that moved too close
//! together, until the path is settled or [`MAX_ITERATIONS`] passes have run.
use crate::fixed::{abs, clamp, div_trunc, mul_wide, trunc_div, SCALE, WORKSPACE_LIMIT};
use crate::obstacle::{potential_at, total_potential, Obstacle, MAX_OBSTACLES};
use crate::position::{lemma_unit_component, Position};
use crate::robot::{path_in_workspace, PathPoint, Robot};
use crate::robot::{MAX_ITERATIONS, MIN_ADJUST_RATE, PATH_OPTIMIZATION_THRESHOLD};
use vstd::prelude::*;

verus! {

/// Distance a waypoint keeps from the surface of an obstacle: a tenth of a
/// unit.
pub const SAFETY_MARGIN: i64 = 100_000;

/// Length of the step that pushes a waypoint out of an obstacle: half a unit.
pub const PUSH_STEP: i64 = 500_000;

/// Distance from the centre below which a push has no direction: a thousandth
/// of a unit.
pub const PUSH_EPSILON: i64 = 1_000;

/// Largest magnitude of what one obstacle adds to a displacement.
pub const CONTRIBUTION_MAX: i64 = 500_000;

/// `p` is closer to the centre of `o` than its radius and the safety margin.
pub open spec fn too_close(p: Position, o: Obstacle) -> bool {
    p.distance(o.center()) < o.radius() + SAFETY_MARGIN
}

/// `p` is too close to one of the obstacles.
pub open spec fn near_any(p: Position, obstacles: Seq<Obstacle>) -> bool {
    exists|i: int| 0 <= i < obstacles.len() && too_close(p, #[trigger] obstacles[i])
}

/// The waypoint needs no relaxing.
pub open spec fn point_settled(pt: PathPoint, obstacles: Seq<Obstacle>) -> bool {
    pt.height <= PATH_OPTIMIZATION_THRESHOLD && !near_any(pt.position, obstacles)
}

/// Every interior waypoint is settled.
pub open spec fn path_settled(path: Seq<PathPoint>, obstacles: Seq<Obstacle>) -> bool {
    forall|i: int| 0 < i < path.len() - 1 ==> point_settled(#[trigger] path[i], obstacles)
}

/// One component of the push out of an obstacle, where `delta` is that
/// component of the vector from the centre to the point and `d` its length:
/// half the matching component of the unit vector.
pub open spec fn push_component(delta: int, d: int) -> int {
    trunc_div(trunc_div(delta * SCALE, d) * PUSH_STEP, SCALE as int)
}

/// What obstacle `o` adds to the `x` displacement of a waypoint at `p`: a
/// push straight away from the centre when `p` is too close, and one step
/// down the gradient otherwise.
pub open spec fn contribution_x(p: Position, o: Obstacle) -> int {
    if too_close(p, o) {
        if p.distance(o.center()) > PUSH_EPSILON {
            push_component(p.x - o.center().x, p.distance(o.center()))
        } else {
            0
        }
    } else {
        -o.gradient_x(p)
    }
}

/// What obstacle `o` adds to the `y` displacement of a waypoint at `p`.
pub open spec fn contribution_y(p: Position, o: Obstacle) -> int {
    if too_close(p, o) {
        if p.distance(o.center()) > PUSH_EPSILON {
            push_component(p.y - o.center().y, p.distance(o.center()))
        } else {
            0
        }
    } else {
        -o.gradient_y(p)
    }
}

/// Sum over the obstacles of their `x` contributions at `p`.
pub open spec fn displacement_x(p: Position, obstacles: Seq<Obstacle>) -> int
    decreases obstacles.len(),
{
    if obstacles.len() == 0 {
        0
    } else {
        displacement_x(p, obstacles.drop_last()) + contribution_x(p, obstacles.last())
    }
}

/// Sum over the obstacles of their `y` contributions at `p`.
pub open spec fn displacement_y(p: Position, obstacles: Seq<Obstacle>) -> int
    decreases obstacles.len(),
{
    if obstacles.len() == 0 {
        0
    } else {
        displacement_y(p, obstacles.drop_last()) + contribution_y(p, obstacles.last())
    }
}

/// `MIN_ADJUST_RATE` with the sign of `v`.
pub open spec fn least_step(v: int) -> int {
    if v > 0 {
        MIN_ADJUST_RATE as int
    } else if v < 0 {
        -MIN_ADJUST_RATE
    } else {
        0
    }
}

/// The step taken along one axis, given the displacement along it and along
/// the other axis: when both are shorter than `MIN_ADJUST_RATE`, a component
/// that is not zero is lengthened to `MIN_ADJUST_RATE`.
pub open spec fn effective_step(along: int, across: int) -> int {
    if abs(along) < MIN_ADJUST_RATE && abs(across) < MIN_ADJUST_RATE {
        least_step(along)
    } else {
        along
    }
}

/// Where one pass moves a waypoint at `p` that is not settled. The waypoint
/// stops at the edge of the workspace.
pub open spec fn relaxed_position(p: Position, obstacles: Seq<Obstacle>) -> Position {
    let dx = displacement_x(p, obstacles);
    let dy = displacement_y(p, obstacles);
    Position {
        x: clamp(p.x + effective_step(dx, dy), -WORKSPACE_LIMIT, WORKSPACE_LIMIT as int) as i64,
        y: clamp(p.y + effective_step(dy, dx), -WORKSPACE_LIMIT, WORKSPACE_LIMIT as int) as i64,
        z: p.z,
    }
}

/// What one pass makes of a waypoint: a settled one stays, another moves and
/// records the potential at its new place.
pub open spec fn relaxed_point(pt: PathPoint, obstacles: Seq<Obstacle>) -> PathPoint {
    if point_settled(pt, obstacles) {
        pt
    } else {
        let np = relaxed_position(pt.position, obstacles);
        PathPoint { position: np, height: total_potential(obstacles, np) as i64 }
    }
}

/// What one pass makes of a path: the end points stay, every interior
/// waypoint is relaxed.
pub open spec fn relaxed_path(path: Seq<PathPoint>, obstacles: Seq<Obstacle>) -> Seq<PathPoint> {
    Seq::new(
        path.len(),
        |i: int|
            if 0 < i < path.len() - 1 {
                relaxed_point(path[i], obstacles)
            } else {
                path[i]
            },
    )
}

/// One obstacle adds at most `CONTRIBUTION_MAX` along each axis.
pub proof fn lemma_contribution_bounds(p: Position, o: Obstacle)
    requires
        o.wf(),
        p.within(WORKSPACE_LIMIT as int),
    ensures
        -CONTRIBUTION_MAX <= contribution_x(p, o) <= CONTRIBUTION_MAX,
        -CONTRIBUTION_MAX <= contribution_y(p, o) <= CONTRIBUTION_MAX,
{
    o.lemma_gradient_bounds(p);
    p.lemma_dist_sq_bound(o.center());
    let d = p.distance(o.center());
    if too_close(p, o) && d > PUSH_EPSILON {
        lemma_unit_component(p.x - o.center().x, d);
        lemma_unit_component(p.y - o.center().y, d);
    }
}

/// Whether `p` is too close to one of the obstacles.
pub fn is_near_any(p: &Position, obstacles: &[Obstacle]) -> (b: bool)
    requires
        p.within(WORKSPACE_LIMIT as int),
    ensures
        b == near_any(*p, obstacles@),
{
    let mut i: usize = 0;
    while i < obstacles.len()
        invariant
            i <= obstacles@.len(),
            p.within(WORKSPACE_LIMIT as int),
            forall|j: int| 0 <= j < i ==> !too_close(*p, #[trigger] obstacles@[j]),
        decreases obstacles@.len() - i,
    {
        let center = obstacles[i].get_center();
        let min_safe_distance: i64 = obstacles[i].get_radius() + SAFETY_MARGIN;
        if p.distance_to(&center) < min_safe_distance {
            return true;
        }
        i = i + 1;
    }
    false
}

/// The displacement that the obstacles give a waypoint at `p`, before the
/// least step is applied.
pub fn displacement_at(p: &Position, obstacles: &[Obstacle]) -> (d: (i64, i64))
    requires
        p.within(WORKSPACE_LIMIT as int),
        obstacles@.len() <= MAX_OBSTACLES,
    ensures
        d.0 == displacement_x(*p, obstacles@),
        d.1 == displacement_y(*p, obstacles@),
        -obstacles@.len() * CONTRIBUTION_MAX <= d.0 <= obstacles@.len() * CONTRIBUTION_MAX,
        -obstacles@.len() * CONTRIBUTION_MAX <= d.1 <= obstacles@.len() * CONTRIBUTION_MAX,
{
    let mut total_x: i64 = 0;
    let mut total_y: i64 = 0;
    let mut i: usize = 0;
    while i < obstacles.len()
        invariant
            i <= obstacles@.len() <= MAX_OBSTACLES,
            p.within(WORKSPACE_LIMIT as int),
            total_x == displacement_x(*p, obstacles@.take(i as int)),
            total_y == displacement_y(*p, obstacles@.take(i as int)),
            -i * CONTRIBUTION_MAX <= total_x <= i * CONTRIBUTION_MAX,
            -i * CONTRIBUTION_MAX <= total_y <= i * CONTRIBUTION_MAX,
        decreases obstacles@.len() - i,
    {
        let obstacle = &obstacles[i];
        proof {
            use_type_invariant(obstacle);
            lemma_contribution_bounds(*p, *obstacle);
            obstacle.lemma_gradient_bounds(*p);
            p.lemma_dist_sq_bound(obstacle.center());
            assert(obstacles@.take(i + 1).drop_last() =~= obstacles@.take(i as int));
            assert(obstacles@.take(i + 1).last() == obstacles@[i as int]);
            assert((i + 1) * CONTRIBUTION_MAX == i * CONTRIBUTION_MAX + CONTRIBUTION_MAX)
                by (nonlinear_arith);
            assert(i * CONTRIBUTION_MAX <= 1_000_000 * CONTRIBUTION_MAX) by (nonlinear_arith)
                requires
                    i <= 1_000_000,
                    CONTRIBUTION_MAX == 500_000,
            ;
        }
        let gradient = obstacle.cosine_gradient_function(*p);
        let center = obstacle.get_center();
        let dist: i64 = p.distance_to(&center);
        let min_safe_distance: i64 = obstacle.get_radius() + SAFETY_MARGIN;
        if dist < min_safe_distance {
            if dist > PUSH_EPSILON {
                proof {
                    lemma_unit_component(p.x - center.x, dist as int);
                    lemma_unit_component(p.y - center.y, dist as int);
                }
                let ux: i128 = div_trunc(mul_wide(p.x - center.x, SCALE), dist as i128);
                let uy: i128 = div_trunc(mul_wide(p.y - center.y, SCALE), dist as i128);
                let px: i128 = div_trunc(mul_wide(ux as i64, PUSH_STEP), SCALE as i128);
                let py: i128 = div_trunc(mul_wide(uy as i64, PUSH_STEP), SCALE as i128);
                total_x = total_x + px as i64;
                total_y = total_y + py as i64;
            }
        } else {
            total_x = total_x - gradient[0];
            total_y = total_y - gradient[1];
        }
        i = i + 1;
    }
    proof {
        assert(obstacles@.take(i as int) =~= obstacles@);
    }
    (total_x, total_y)
}

/// Fewest waypoints that cleaning leaves in a path.
pub const MIN_PATH_POINTS: usize = 12;

/// The distance below which cleaning merges a waypoint into the one before
/// it: 1.3 times the step between the waypoints as they were seeded.
pub open spec fn merge_threshold(step: int) -> int {
    trunc_div(step * 13, 10)
}

/// What cleaning makes of `path` from index `i` on: while more than
/// `MIN_PATH_POINTS` waypoints are left, an interior waypoint closer than
/// `threshold` to the one before it is removed.
pub open spec fn clean_from(path: Seq<PathPoint>, i: int, threshold: int) -> Seq<PathPoint>
    decreases path.len() - i,
{
    if i < 1 || i + 1 >= path.len() || path.len() <= MIN_PATH_POINTS {
        path
    } else if path[i].position.distance(path[i - 1].position) < threshold {
        clean_from(path.remove(i), i, threshold)
    } else {
        clean_from(path, i + 1, threshold)
    }
}

/// The path after cleaning, for a seeding step of `step`.
pub open spec fn cleaned(path: Seq<PathPoint>, step: int) -> Seq<PathPoint> {
    clean_from(path, 1, merge_threshold(step))
}

/// Cleaning only removes interior waypoints, and never so many that fewer
/// than `MIN_PATH_POINTS` are left.
pub proof fn lemma_clean_from(path: Seq<PathPoint>, i: int, threshold: int)
    requires
        1 <= i,
    ensures
        clean_from(path, i, threshold).len() <= path.len(),
        path.len() <= MIN_PATH_POINTS ==> clean_from(path, i, threshold) == path,
        path.len() >= MIN_PATH_POINTS ==> clean_from(path, i, threshold).len() >= MIN_PATH_POINTS,
        path.len() > 0 ==> clean_from(path, i, threshold).len() > 0 && clean_from(
            path,
            i,
            threshold,
        ).first() == path.first() && clean_from(path, i, threshold).last() == path.last(),
        path.len() > i ==> clean_from(path, i, threshold).len() > i,
        forall|j: int|
            0 <= j < i && j < path.len() ==> clean_from(path, i, threshold)[j] == #[trigger] path[j],
        path_in_workspace(path) ==> path_in_workspace(clean_from(path, i, threshold)),
        forall|j: int|
            0 <= j < clean_from(path, i, threshold).len() ==> path.contains(
                #[trigger] clean_from(path, i, threshold)[j],
            ),
    decreases path.len() - i,
{
    if i + 1 >= path.len() || path.len() <= MIN_PATH_POINTS {
    } else if path[i].position.distance(path[i - 1].position) < threshold {
        let shorter = path.remove(i);
        lemma_clean_from(shorter, i, threshold);
        let res = clean_from(shorter, i, threshold);
        assert forall|j: int| 0 <= j < i && j < path.len() implies res[j] == #[trigger] path[j] by {
            assert(shorter[j] == path[j]);
        }
    } else {
        lemma_clean_from(path, i + 1, threshold);
    }
}

/// How one optimization ended.
#[derive(Clone, Copy, Debug, PartialEq, Eq, Structural)]
pub struct OptimizeReport {
    /// Relaxation passes that ran.
    pub iterations: usize,
    /// Whether the path was settled when the passes stopped.
    pub converged: bool,
}

/// The path after at most `fuel` relaxation passes, each followed by a
/// cleaning, stopping as soon as the path is settled.
pub open spec fn relax(
    path: Seq<PathPoint>,
    obstacles: Seq<Obstacle>,
    step: int,
    fuel: nat,
) -> Seq<PathPoint>
    decreases fuel,
{
    if fuel == 0 || path_settled(path, obstacles) {
        path
    } else {
        relax(cleaned(relaxed_path(path, obstacles), step), obstacles, step, (fuel - 1) as nat)
    }
}

/// The number of passes that `relax` runs.
pub open spec fn relax_count(
    path: Seq<PathPoint>,
    obstacles: Seq<Obstacle>,
    step: int,
    fuel: nat,
) -> nat
    decreases fuel,
{
    if fuel == 0 || path_settled(path, obstacles) {
        0
    } else {
        1 + relax_count(
            cleaned(relaxed_path(path, obstacles), step),
            obstacles,
            step,
            (fuel - 1) as nat,
        )
    }
}

/// Index of the obstacle whose centre is nearest to `p`; of several at the
/// same distance, the first. Zero when there is no obstacle.
pub open spec fn nearest_obstacle(p: Position, obstacles: Seq<Obstacle>) -> int
    decreases obstacles.len(),
{
    if obstacles.len() <= 1 {
        0
    } else {
        let k = nearest_obstacle(p, obstacles.drop_last());
        if p.distance(obstacles.last().center()) < p.distance(obstacles[k].center()) {
            obstacles.len() - 1
        } else {
            k
        }
    }
}

/// Where the corrective pass moves a point: half a unit straight away from
/// the nearest obstacle, stopping at the edge of the workspace. A point on
/// the centre of that obstacle, and any point when there is no obstacle,
/// stays.
pub open spec fn corrected_position(p: Position, obstacles: Seq<Obstacle>) -> Position {
    if obstacles.len() == 0 {
        p
    } else {
        let c = obstacles[nearest_obstacle(p, obstacles)].center();
        let d = p.distance(c);
        if d > PUSH_EPSILON {
            Position {
                x: clamp(
                    p.x + push_component(p.x - c.x, d),
                    -WORKSPACE_LIMIT,
                    WORKSPACE_LIMIT as int,
                ) as i64,
                y: clamp(
                    p.y + push_component(p.y - c.y, d),
                    -WORKSPACE_LIMIT,
                    WORKSPACE_LIMIT as int,
                ) as i64,
                z: p.z,
            }
        } else {
            p
        }
    }
}

/// What the corrective pass makes of a path: every interior waypoint whose
/// height is still above the threshold is moved.
pub open spec fn corrected_path(path: Seq<PathPoint>, obstacles: Seq<Obstacle>) -> Seq<PathPoint> {
    Seq::new(
        path.len(),
        |i: int|
            if 0 < i < path.len() - 1 && path[i].height > PATH_OPTIMIZATION_THRESHOLD {
                PathPoint {
                    position: corrected_position(path[i].position, obstacles),
                    height: path[i].height,
                }
            } else {
                path[i]
            },
    )
}

/// The path with its scratch values cleared: the third coordinate of every
/// waypoint and the height of every interior waypoint are zero.
pub open spec fn flattened(path: Seq<PathPoint>) -> Seq<PathPoint> {
    Seq::new(
        path.len(),
        |i: int|
            PathPoint {
                position: Position { x: path[i].position.x, y: path[i].position.y, z: 0 },
                height: if 0 < i < path.len() - 1 {
                    0
                } else {
                    path[i].height
                },
            },
    )
}

/// The step between the first two waypoints, which optimization takes as the
/// seeding step.
pub open spec fn leading_step(path: Seq<PathPoint>) -> int {
    path[0].position.distance(path[1].position)
}

/// The path as the relaxation passes leave it.
pub open spec fn relaxed_to_rest(path: Seq<PathPoint>, obstacles: Seq<Obstacle>) -> Seq<PathPoint> {
    relax(path, obstacles, leading_step(path), MAX_ITERATIONS as nat)
}

/// The result of optimization. A path of one or two waypoints is left alone.
/// A longer one is relaxed; if it is still not settled, the corrective pass
/// runs once; then the scratch values are cleared.
pub open spec fn optimized_path(path: Seq<PathPoint>, obstacles: Seq<Obstacle>) -> Seq<PathPoint> {
    if path.len() <= 2 {
        path
    } else {
        let rest = relaxed_to_rest(path, obstacles);
        if path_settled(rest, obstacles) {
            flattened(rest)
        } else {
            flattened(corrected_path(rest, obstacles))
        }
    }
}

/// Relaxation keeps the end points and the workspace, and never leaves fewer
/// than two waypoints of a path that had two.
pub proof fn lemma_relax(path: Seq<PathPoint>, obstacles: Seq<Obstacle>, step: int, fuel: nat)
    requires
        path_in_workspace(path),
        path.len() >= 2,
    ensures
        2 <= relax(path, obstacles, step, fuel).len() <= path.len(),
        relax(path, obstacles, step, fuel).first() == path.first(),
        relax(path, obstacles, step, fuel).last() == path.last(),
        path_in_workspace(relax(path, obstacles, step, fuel)),
        relax_count(path, obstacles, step, fuel) <= fuel,
        path_settled(path, obstacles) ==> relax(path, obstacles, step, fuel) == path
            && relax_count(path, obstacles, step, fuel) == 0,
        relax_count(path, obstacles, step, fuel) < fuel ==> path_settled(
            relax(path, obstacles, step, fuel),
            obstacles,
        ),
    decreases fuel,
{
    if !(fuel == 0 || path_settled(path, obstacles)) {
        let moved = relaxed_path(path, obstacles);
        lemma_clean_from(moved, 1, merge_threshold(step));
        let next = cleaned(moved, step);
        lemma_relax(next, obstacles, step, (fuel - 1) as nat);
    }
}

/// Optimization keeps the end points where they are and the path in the
/// workspace, never leaves fewer than two waypoints of a path that had two,
/// and leaves a settled path where it is.
pub proof fn lemma_optimized_path(path: Seq<PathPoint>, obstacles: Seq<Obstacle>)
    requires
        path_in_workspace(path),
    ensures
        optimized_path(path, obstacles).len() <= path.len(),
        path.len() >= 2 ==> optimized_path(path, obstacles).len() >= 2,
        path.len() > 2 ==> {
            &&& optimized_path(path, obstacles).first() == flattened(path).first()
            &&& optimized_path(path, obstacles).last() == flattened(path).last()
            &&& forall|i: int|
                0 <= i < optimized_path(path, obstacles).len() ==> (#[trigger] optimized_path(
                    path,
                    obstacles,
                )[i]).position.z == 0
            &&& forall|i: int|
                0 < i < optimized_path(path, obstacles).len() - 1 ==> (#[trigger] optimized_path(
                    path,
                    obstacles,
                )[i]).height == 0
        },
        path.len() > 2 && path_settled(path, obstacles) ==> optimized_path(path, obstacles)
            == flattened(path),
        path_in_workspace(optimized_path(path, obstacles)),
{
    if path.len() > 2 {
        lemma_relax(path, obstacles, leading_step(path), MAX_ITERATIONS as nat);
    }
}

impl Robot {
    /// Whether every interior waypoint is settled.
    pub fn is_path_optimized(&self, obstacles: &[Obstacle]) -> (b: bool)
        requires
            path_in_workspace(self.path_points@),
        ensures
            b == path_settled(self.path_points@, obstacles@),
    {
        let n: usize = self.path_points.len();
        if n <= 2 {
            return true;
        }
        let mut i: usize = 1;
        while i < n - 1
            invariant
                1 <= i <= n - 1,
                n == self.path_points@.len(),
                path_in_workspace(self.path_points@),
                forall|j: int| 0 < j < i ==> point_settled(#[trigger] self.path_points@[j], obstacles@),
            decreases n - i,
        {
            let point = self.path_points[i];
            if point.get_height() > PATH_OPTIMIZATION_THRESHOLD {
                return false;
            }
            if is_near_any(&point.position, obstacles) {
                return false;
            }
            i = i + 1;
        }
        true
    }

    /// One relaxation pass: every interior waypoint that is not settled is
    /// displaced and records the potential at its new place. Returns whether
    /// every interior waypoint was settled already, so that nothing moved.
    pub fn optimize_path_single_iteration(&mut self, obstacles: &[Obstacle]) -> (all_settled: bool)
        requires
            path_in_workspace(old(self).path_points@),
            obstacles@.len() <= MAX_OBSTACLES,
        ensures
            final(self).path_points@ == relaxed_path(old(self).path_points@, obstacles@),
            all_settled == path_settled(old(self).path_points@, obstacles@),
            path_in_workspace(final(self).path_points@),
            final(self).same_but_path(*old(self)),
    {
        let n: usize = self.path_points.len();
        if n <= 2 {
            return true;
        }
        let mut all_points_optimized = true;
        let mut i: usize = 1;
        while i < n - 1
            invariant
                1 <= i <= n - 1,
                n == self.path_points@.len(),
                n == old(self).path_points@.len(),
                obstacles@.len() <= MAX_OBSTACLES,
                path_in_workspace(old(self).path_points@),
                path_in_workspace(self.path_points@),
                self.same_but_path(*old(self)),
                forall|j: int|
                    0 <= j < n && (j < i) ==> #[trigger] self.path_points@[j] == relaxed_path(
                        old(self).path_points@,
                        obstacles@,
                    )[j],
                forall|j: int|
                    i <= j < n ==> #[trigger] self.path_points@[j] == old(self).path_points@[j],
                all_points_optimized == (forall|j: int|
                    0 < j < i ==> point_settled(#[trigger] old(self).path_points@[j], obstacles@)),
            decreases n - i,
        {
            let point = self.path_points[i];
            let too_close_to_obstacle = is_near_any(&point.position, obstacles);
            if point.get_height() > PATH_OPTIMIZATION_THRESHOLD || too_close_to_obstacle {
                all_points_optimized = false;
                let total = displacement_at(&point.position, obstacles);
                let mut step_x: i64 = total.0;
                let mut step_y: i64 = total.1;
                proof {
                    assert(obstacles@.len() * CONTRIBUTION_MAX <= 1_000_000 * 500_000)
                        by (nonlinear_arith)
                        requires
                            obstacles@.len() <= 1_000_000,
                            CONTRIBUTION_MAX == 500_000,
                    ;
                }
                if -MIN_ADJUST_RATE < step_x && step_x < MIN_ADJUST_RATE && -MIN_ADJUST_RATE
                    < step_y && step_y < MIN_ADJUST_RATE {
                    if step_x > 0 {
                        step_x = MIN_ADJUST_RATE;
                    } else if step_x < 0 {
                        step_x = -MIN_ADJUST_RATE;
                    }
                    if step_y > 0 {
                        step_y = MIN_ADJUST_RATE;
                    } else if step_y < 0 {
                        step_y = -MIN_ADJUST_RATE;
                    }
                }
                let moved = Position::new(
                    clamp_to_workspace(point.position.x + step_x),
                    clamp_to_workspace(point.position.y + step_y),
                    point.position.z,
                );
                let height: i64 = potential_at(obstacles, moved);
                self.path_points[i] = PathPoint { position: moved, height };
            }
            i = i + 1;
        }
        all_points_optimized
    }

    /// Removes interior waypoints that lie closer than 1.3 times
    /// `seeding_step` to the waypoint before them, as long as more
    /// than [`MIN_PATH_POINTS`] waypoints are left. Returns whether any was
    /// removed.
    pub fn clean_path(&mut self, seeding_step: i64) -> (removed_any: bool)
        requires
            path_in_workspace(old(self).path_points@),
        ensures
            final(self).path_points@ == cleaned(
                old(self).path_points@,
                seeding_step as int,
            ),
            removed_any == (final(self).path_points@.len() < old(self).path_points@.len()),
            final(self).path_points@.len() <= old(self).path_points@.len(),
            old(self).path_points@.len() <= MIN_PATH_POINTS
                ==> final(self).path_points@ == old(self).path_points@,
            old(self).path_points@.len() >= MIN_PATH_POINTS
                ==> final(self).path_points@.len() >= MIN_PATH_POINTS,
            old(self).path_points@.len() > 0 ==> {
                &&& final(self).path_points@.len() > 0
                &&& final(self).path_points@.first() == old(self).path_points@.first()
                &&& final(self).path_points@.last() == old(self).path_points@.last()
            },
            path_in_workspace(final(self).path_points@),
            final(self).same_but_path(*old(self)),
    {
        let threshold: i128 = div_trunc(mul_wide(seeding_step, 13), 10);
        let ghost t = merge_threshold(seeding_step as int);
        let mut i: usize = 1;
        let mut removed_any = false;
        proof {
            lemma_clean_from(old(self).path_points@, 1, t);
        }
        while self.path_points.len() > MIN_PATH_POINTS && i < self.path_points.len() - 1
            invariant
                1 <= i,
                threshold == t,
                self.path_points@.len() <= old(self).path_points@.len(),
                removed_any == (self.path_points@.len() < old(self).path_points@.len()),
                path_in_workspace(self.path_points@),
                self.same_but_path(*old(self)),
                clean_from(self.path_points@, i as int, t) == clean_from(
                    old(self).path_points@,
                    1,
                    t,
                ),
            decreases self.path_points@.len() - i,
        {
            let here = self.path_points[i].position;
            let before = self.path_points[i - 1].position;
            if (here.distance_to(&before) as i128) < threshold {
                self.path_points.remove(i);
                removed_any = true;
            } else {
                i = i + 1;
            }
        }
        removed_any
    }
}

/// `v` limited to the workspace.
pub fn clamp_to_workspace(v: i64) -> (c: i64)
    ensures
        c == clamp(v as int, -WORKSPACE_LIMIT, WORKSPACE_LIMIT as int),
        -WORKSPACE_LIMIT <= c <= WORKSPACE_LIMIT,
{
    if v < -WORKSPACE_LIMIT {
        -WORKSPACE_LIMIT
    } else if v > WORKSPACE_LIMIT {
        WORKSPACE_LIMIT
    } else {
        v
    }
}

/// Index of the obstacle whose centre is nearest to `p`.
pub fn nearest_obstacle_index(p: &Position, obstacles: &[Obstacle]) -> (k: usize)
    requires
        p.within(WORKSPACE_LIMIT as int),
    ensures
        k == nearest_obstacle(*p, obstacles@),
        obstacles@.len() > 0 ==> k < obstacles@.len(),
{
    let mut nearest: usize = 0;
    let mut min_dist: i64 = i64::MAX;
    let mut i: usize = 0;
    while i < obstacles.len()
        invariant
            i <= obstacles@.len(),
            p.within(WORKSPACE_LIMIT as int),
            nearest == nearest_obstacle(*p, obstacles@.take(i as int)),
            i == 0 ==> min_dist == i64::MAX,
            i > 0 ==> nearest < i && min_dist == p.distance(obstacles@[nearest as int].center()),
        decreases obstacles@.len() - i,
    {
        let center = obstacles[i].get_center();
        proof {
            p.lemma_dist_sq_bound(center);
            assert(obstacles@.take(i + 1).drop_last() =~= obstacles@.take(i as int));
        }
        let dist: i64 = p.distance_to(&center);
        if dist < min_dist {
            min_dist = dist;
            nearest = i;
        }
        i = i + 1;
    }
    proof {
        assert(obstacles@.take(i as int) =~= obstacles@);
    }
    nearest
}

/// Where the corrective pass moves a point at `p`.
pub fn corrected_position_of(p: &Position, obstacles: &[Obstacle]) -> (q: Position)
    requires
        p.within(WORKSPACE_LIMIT as int),
    ensures
        q == corrected_position(*p, obstacles@),
        q.within(WORKSPACE_LIMIT as int),
{
    if obstacles.len() == 0 {
        return *p;
    }
    let k: usize = nearest_obstacle_index(p, obstacles);
    let center = obstacles[k].get_center();
    proof {
        p.lemma_dist_sq_bound(center);
    }
    let dist: i64 = p.distance_to(&center);
    if dist > PUSH_EPSILON {
        proof {
            lemma_unit_component(p.x - center.x, dist as int);
            lemma_unit_component(p.y - center.y, dist as int);
        }
        let ux: i128 = div_trunc(mul_wide(p.x - center.x, SCALE), dist as i128);
        let uy: i128 = div_trunc(mul_wide(p.y - center.y, SCALE), dist as i128);
        let px: i128 = div_trunc(mul_wide(ux as i64, PUSH_STEP), SCALE as i128);
        let py: i128 = div_trunc(mul_wide(uy as i64, PUSH_STEP), SCALE as i128);
        Position::new(
            clamp_to_workspace(p.x + px as i64),
            clamp_to_workspace(p.y + py as i64),
            p.z,
        )
    } else {
        *p
    }
}

impl Robot {
    /// The corrective pass: every interior waypoint whose height is above the
    /// threshold is pushed half a unit away from its nearest obstacle.
    pub fn push_unsettled_points(&mut self, obstacles: &[Obstacle])
        requires
            path_in_workspace(old(self).path_points@),
        ensures
            final(self).path_points@ == corrected_path(old(self).path_points@, obstacles@),
            path_in_workspace(final(self).path_points@),
            final(self).same_but_path(*old(self)),
    {
        let n: usize = self.path_points.len();
        if n <= 2 {
            return ;
        }
        let mut i: usize = 1;
        while i < n - 1
            invariant
                1 <= i <= n - 1,
                n == self.path_points@.len(),
                n == old(self).path_points@.len(),
                path_in_workspace(old(self).path_points@),
                path_in_workspace(self.path_points@),
                self.same_but_path(*old(self)),
                forall|j: int|
                    0 <= j < n && (j < i) ==> #[trigger] self.path_points@[j] == corrected_path(
                        old(self).path_points@,
                        obstacles@,
                    )[j],
                forall|j: int|
                    i <= j < n ==> #[trigger] self.path_points@[j] == old(self).path_points@[j],
            decreases n - i,
        {
            let point = self.path_points[i];
            if point.get_height() > PATH_OPTIMIZATION_THRESHOLD {
                let moved = corrected_position_of(&point.position, obstacles);
                self.path_points[i] = PathPoint { position: moved, height: point.height };
            }
            i = i + 1;
        }
    }

    /// Clears the scratch values of the path: the third coordinate of every
    /// waypoint and the height of every interior waypoint become zero.
    pub fn clear_heights(&mut self)
        ensures
            final(self).path_points@ == flattened(old(self).path_points@),
            path_in_workspace(old(self).path_points@) ==> path_in_workspace(
                final(self).path_points@,
            ),
            final(self).same_but_path(*old(self)),
    {
        let n: usize = self.path_points.len();
        let mut i: usize = 0;
        while i < n
            invariant
                i <= n,
                n == self.path_points@.len(),
                n == old(self).path_points@.len(),
                self.same_but_path(*old(self)),
                forall|j: int|
                    0 <= j < i ==> #[trigger] self.path_points@[j] == flattened(
                        old(self).path_points@,
                    )[j],
                forall|j: int|
                    i <= j < n ==> #[trigger] self.path_points@[j] == old(self).path_points@[j],
            decreases n - i,
        {
            let point = self.path_points[i];
            let height: i64 = if 0 < i && i < n - 1 {
                0
            } else {
                point.height
            };
            self.path_points[i] = PathPoint {
                position: Position::new(point.position.x, point.position.y, 0),
                height,
            };
            i = i + 1;
        }
    }

    /// Relaxes the path until it is settled or [`MAX_ITERATIONS`] passes have
    /// run, corrects what is still not settled, and clears the scratch
    /// values. A path of one or two waypoints is left as it is.
    ///
    /// The end points never move and are never removed. A path that is
    /// settled when the call is made keeps every waypoint where it is.
    pub fn optimize_path(&mut self, obstacles: &[Obstacle]) -> (report: OptimizeReport)
        requires
            path_in_workspace(old(self).path_points@),
            obstacles@.len() <= MAX_OBSTACLES,
        ensures
            final(self).path_points@ == optimized_path(old(self).path_points@, obstacles@),
            report.iterations <= MAX_ITERATIONS,
            old(self).path_points@.len() <= 2 ==> report.iterations == 0 && report.converged,
            old(self).path_points@.len() > 2 ==> {
                &&& report.iterations == relax_count(
                    old(self).path_points@,
                    obstacles@,
                    leading_step(old(self).path_points@),
                    MAX_ITERATIONS as nat,
                )
                &&& report.converged == path_settled(
                    relaxed_to_rest(old(self).path_points@, obstacles@),
                    obstacles@,
                )
            },
            report.iterations < MAX_ITERATIONS ==> report.converged,
            path_settled(old(self).path_points@, obstacles@) ==> report.iterations == 0
                && report.converged,
            path_settled(old(self).path_points@, obstacles@) && old(self).path_points@.len() > 2
                ==> final(self).path_points@ == flattened(old(self).path_points@),
            final(self).path_points@.len() <= old(self).path_points@.len(),
            old(self).path_points@.len() >= 2 ==> final(self).path_points@.len() >= 2,
            old(self).path_points@.len() > 2 ==> {
                &&& final(self).path_points@.first() == flattened(old(self).path_points@).first()
                &&& final(self).path_points@.last() == flattened(old(self).path_points@).last()
                &&& forall|i: int|
                    0 <= i < final(self).path_points@.len() ==> (
                    #[trigger] final(self).path_points@[i]).position.z == 0
                &&& forall|i: int|
                    0 < i < final(self).path_points@.len() - 1 ==> (
                    #[trigger] final(self).path_points@[i]).height == 0
            },
            path_in_workspace(final(self).path_points@),
            final(self).same_but_path(*old(self)),
    {
        if self.path_points.len() <= 2 {
            return OptimizeReport { iterations: 0, converged: true };
        }
        let first_point = self.path_points[0].position;
        let second_point = self.path_points[1].position;
        let seeding_step: i64 = first_point.distance_to(&second_point);
        let ghost step = leading_step(old(self).path_points@);
        let ghost start = old(self).path_points@;
        proof {
            lemma_relax(start, obstacles@, step, MAX_ITERATIONS as nat);
        }
        let mut iterations: usize = 0;
        let mut settled: bool = self.is_path_optimized(obstacles);
        while !settled && iterations < MAX_ITERATIONS
            invariant
                iterations <= MAX_ITERATIONS,
                obstacles@.len() <= MAX_OBSTACLES,
                seeding_step == step,
                self.path_points@.len() >= 2,
                path_in_workspace(self.path_points@),
                self.same_but_path(*old(self)),
                settled == path_settled(self.path_points@, obstacles@),
                relax(self.path_points@, obstacles@, step, (MAX_ITERATIONS - iterations) as nat)
                    == relax(start, obstacles@, step, MAX_ITERATIONS as nat),
                iterations + relax_count(
                    self.path_points@,
                    obstacles@,
                    step,
                    (MAX_ITERATIONS - iterations) as nat,
                ) == relax_count(start, obstacles@, step, MAX_ITERATIONS as nat),
            decreases MAX_ITERATIONS - iterations,
        {
            iterations = iterations + 1;
            self.optimize_path_single_iteration(obstacles);
            self.clean_path(seeding_step);
            settled = self.is_path_optimized(obstacles);
        }
        if !settled {
            self.push_unsettled_points(obstacles);
        }
        self.clear_heights();
        OptimizeReport { iterations, converged: settled }
    }
}

} // verus!
