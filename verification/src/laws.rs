//! What holds of the planner and the follower as a whole.
use crate::fixed::{abs, SCALE, WORKSPACE_LIMIT};
use crate::follower::{arrives, control_due, heading, lemma_lookahead, progress_after, progress_after_steps};
use crate::follower::{advance, curve_gap, steered_x, steered_y};
use crate::follower::{progress_after_ticks, timer_advanced, timer_after_ticks};
use crate::follower::{velocity_x_after, velocity_y_after, CONTROL_INTERVAL, PROGRESS_STEP};
use crate::generator::{lemma_planned_path, planned_path, seed_distance, seed_position, seeded_path};
use crate::obstacle::{total_potential, Obstacle, POTENTIAL_MAX};
use crate::optimizer::{clean_from, cleaned, flattened, lemma_clean_from, lemma_optimized_path};
use crate::optimizer::{merge_threshold, near_any, optimized_path, path_settled, point_settled, relax_count};
use crate::optimizer::{relaxed_path, relaxed_to_rest};
use crate::optimizer::{leading_step, lemma_relax, MIN_PATH_POINTS};
use crate::position::{Position, COORD_MAX};
use crate::pruner::{lemma_pruned, pruned};
use crate::robot::{path_in_workspace, PathPoint, MAX_ITERATIONS};
use crate::spline::{curve_at, lemma_blend, lemma_nearest_index, lemma_segment};
use vstd::prelude::*;

verus! {

/// A planned path begins at the start and ends at the target, whatever the
/// obstacles are, and lies in the workspace.
pub proof fn lemma_plan_joins_start_and_target(
    start: Position,
    target: Position,
    segments: int,
    obstacles: Seq<Obstacle>,
    scale: int,
)
    requires
        segments >= 1,
        start.within(WORKSPACE_LIMIT as int),
        target.within(WORKSPACE_LIMIT as int),
    ensures
        planned_path(start, target, segments, obstacles, scale).len() >= 2,
        planned_path(start, target, segments, obstacles, scale).first().position == (Position {
            x: start.x,
            y: start.y,
            z: 0,
        }),
        planned_path(start, target, segments, obstacles, scale).last().position == (Position {
            x: target.x,
            y: target.y,
            z: 0,
        }),
        path_in_workspace(planned_path(start, target, segments, obstacles, scale)),
{
    lemma_planned_path(start, target, segments, obstacles, scale);
    let cleaned_path = cleaned(
        seeded_path(start, target, segments, obstacles),
        seed_distance(start, target, segments),
    );
    lemma_optimized_path(cleaned_path, obstacles);
    lemma_pruned(optimized_path(cleaned_path, obstacles), scale);
}

/// Where there is no obstacle, the potential is zero everywhere.
pub proof fn lemma_empty_field(p: Position)
    ensures
        total_potential(Seq::<Obstacle>::empty(), p) == 0,
        !near_any(p, Seq::<Obstacle>::empty()),
{
}

/// Where there is no obstacle, a path whose interior heights are at most the
/// threshold is optimized without a pass, and every waypoint stays where it
/// is: only the scratch values are cleared.
pub proof fn lemma_no_obstacles_no_movement(path: Seq<PathPoint>)
    requires
        path.len() > 2,
        path_in_workspace(path),
        forall|i: int|
            0 < i < path.len() - 1 ==> (#[trigger] path[i]).height
                <= crate::robot::PATH_OPTIMIZATION_THRESHOLD,
    ensures
        path_settled(path, Seq::<Obstacle>::empty()),
        optimized_path(path, Seq::<Obstacle>::empty()) == flattened(path),
        relax_count(path, Seq::<Obstacle>::empty(), leading_step(path), MAX_ITERATIONS as nat)
            == 0,
{
}

/// Where there is no obstacle, a pass moves no waypoint: it only records the
/// potential, zero, for the waypoints whose height was above the threshold.
pub proof fn lemma_pass_without_obstacles(path: Seq<PathPoint>)
    requires
        path_in_workspace(path),
    ensures
        relaxed_path(path, Seq::<Obstacle>::empty()).len() == path.len(),
        forall|i: int|
            0 <= i < path.len() ==> (#[trigger] relaxed_path(path, Seq::<Obstacle>::empty())[i]).position
                == path[i].position,
        forall|i: int|
            0 < i < path.len() - 1 ==> (#[trigger] relaxed_path(path, Seq::<Obstacle>::empty())[i]).height
                <= crate::robot::PATH_OPTIMIZATION_THRESHOLD,
{
    let none = Seq::<Obstacle>::empty();
    let moved = relaxed_path(path, none);
    assert forall|i: int| 0 <= i < path.len() implies (#[trigger] moved[i]).position
        == path[i].position && (0 < i < path.len() - 1 ==> moved[i].height
        <= crate::robot::PATH_OPTIMIZATION_THRESHOLD) by {
    }
}

/// Where there is no obstacle, optimization moves nothing, whatever heights
/// the waypoints carry: after at most one pass the path is settled, and every
/// waypoint that is left stands where a waypoint stood before.
pub proof fn lemma_nothing_moves_without_obstacles(path: Seq<PathPoint>)
    requires
        path_in_workspace(path),
    ensures
        relax_count(path, Seq::<Obstacle>::empty(), leading_step(path), MAX_ITERATIONS as nat) <= 1,
        path.len() > 2 ==> path_settled(
            relaxed_to_rest(path, Seq::<Obstacle>::empty()),
            Seq::<Obstacle>::empty(),
        ),
        forall|j: int|
            0 <= j < optimized_path(path, Seq::<Obstacle>::empty()).len() ==> stands_on(
                path,
                #[trigger] optimized_path(path, Seq::<Obstacle>::empty())[j],
            ),
{
    let none = Seq::<Obstacle>::empty();
    let step = leading_step(path);
    if path.len() > 2 && !path_settled(path, none) {
        let moved = relaxed_path(path, none);
        let next = cleaned(moved, step);
        lemma_clean_from(moved, 1, merge_threshold(step));
        assert forall|i: int| 0 < i < next.len() - 1 implies point_settled(#[trigger] next[i], none) by {
            lemma_interior_stays_interior(moved, 1, merge_threshold(step), i);
        }
        lemma_relax(next, none, step, (MAX_ITERATIONS - 1) as nat);
    }
}

/// A waypoint of the path stands at the planar place of `point`.
pub open spec fn stands_on(path: Seq<PathPoint>, point: PathPoint) -> bool {
    exists|k: int|
        0 <= k < path.len() && (#[trigger] path[k]).position.x == point.position.x
            && path[k].position.y == point.position.y
}

/// Where there is no obstacle, planning moves nothing: every waypoint of the
/// planned path is a waypoint of the seeded straight line, and the interior
/// ones have height zero.
pub proof fn lemma_plan_without_obstacles(
    start: Position,
    target: Position,
    segments: int,
    scale: int,
)
    requires
        segments >= 1,
        start.within(WORKSPACE_LIMIT as int),
        target.within(WORKSPACE_LIMIT as int),
    ensures
        planned_path(start, target, segments, Seq::<Obstacle>::empty(), scale) == pruned(
            cleaned(
                seeded_path(start, target, segments, Seq::<Obstacle>::empty()),
                seed_distance(start, target, segments),
            ),
            scale,
        ),
        forall|j: int|
            0 <= j < planned_path(start, target, segments, Seq::<Obstacle>::empty(), scale).len()
                ==> seeded_path(start, target, segments, Seq::<Obstacle>::empty()).contains(
                #[trigger] planned_path(start, target, segments, Seq::<Obstacle>::empty(), scale)[j],
            ),
        forall|i: int|
            0 < i < segments + 1 ==> (#[trigger] seeded_path(
                start,
                target,
                segments,
                Seq::<Obstacle>::empty(),
            )[i]) == (PathPoint {
                position: seed_position(start, target, segments, i),
                height: 0,
            }),
{
    let none = Seq::<Obstacle>::empty();
    let seeded = seeded_path(start, target, segments, none);
    let threshold = merge_threshold(seed_distance(start, target, segments));
    let cleaned_path = cleaned(seeded, seed_distance(start, target, segments));
    lemma_clean_from(seeded, 1, threshold);
    assert forall|j: int| 0 <= j < cleaned_path.len() implies (#[trigger] cleaned_path[j]).position.z
        == 0 && (0 < j < cleaned_path.len() - 1 ==> cleaned_path[j].height == 0) by {
        if 0 < j < cleaned_path.len() - 1 {
            lemma_interior_stays_interior(seeded, 1, threshold, j);
        }
    }
    assert(flattened(cleaned_path) =~= cleaned_path);
    lemma_pruned(cleaned_path, scale);
}

/// Every waypoint that cleaning keeps between the two ends was between the
/// two ends before: it is the waypoint that stood at some index from one to
/// the last but one.
pub proof fn lemma_interior_stays_interior(
    path: Seq<PathPoint>,
    i: int,
    threshold: int,
    j: int,
)
    requires
        1 <= i,
        0 < j < clean_from(path, i, threshold).len() - 1,
    ensures
        exists|k: int| 0 < k < path.len() - 1 && path[k] == clean_from(path, i, threshold)[j],
    decreases path.len() - i,
{
    if i + 1 >= path.len() || path.len() <= MIN_PATH_POINTS {
        assert(path[j] == clean_from(path, i, threshold)[j]);
    } else if path[i].position.distance(path[i - 1].position) < threshold {
        let shorter = path.remove(i);
        lemma_interior_stays_interior(shorter, i, threshold, j);
        let k = choose|k: int|
            0 < k < shorter.len() - 1 && shorter[k] == clean_from(shorter, i, threshold)[j];
    } else {
        lemma_interior_stays_interior(path, i + 1, threshold, j);
    }
}

/// Outside the disc of its calculation radius an obstacle raises no
/// potential and has no gradient, alone or as the only obstacle of a field.
pub proof fn lemma_compact_support(o: Obstacle, p: Position)
    requires
        o.wf(),
        p.dist_sq(o.center()) > o.calculation_radius() * o.calculation_radius(),
    ensures
        o.potential(p) == 0,
        o.gradient_x(p) == 0,
        o.gradient_y(p) == 0,
        total_potential(seq![o], p) == 0,
{
    let one = seq![o];
    assert(total_potential(one.drop_last(), p) == 0);
}

/// On the disc of its calculation radius the potential of an obstacle is at
/// least a quarter of its field scale, and so stays away from zero up to the
/// rim.
pub proof fn lemma_rim_value(o: Obstacle, p: Position)
    requires
        o.wf(),
        p.within(COORD_MAX as int),
        p.dist_sq(o.center()) <= o.calculation_radius() * o.calculation_radius(),
    ensures
        o.potential(p) >= o.field_scale() / 4,
        o.field_scale() / 4 >= 549_778,
{
    o.lemma_field_bounds(p);
    let r = o.calculation_radius();
    assert(r * crate::fixed::PI >= 700_000 * 3_141_593) by (nonlinear_arith)
        requires
            r >= 700_000,
            crate::fixed::PI == 3_141_593,
    ;
}

/// The curve of a path begins at its first waypoint and ends at its last.
pub proof fn lemma_curve_joins_the_ends(path: Seq<PathPoint>)
    requires
        path.len() >= 1,
        path_in_workspace(path),
    ensures
        curve_at(path, 0) == path.first().position,
        curve_at(path, SCALE as int) == path.last().position,
{
    let n = path.len() as int;
    if n < 4 {
        lemma_nearest_index(n, 0);
        lemma_nearest_index(n, SCALE as int);
    } else {
        lemma_segment(n - 1, 0);
        lemma_segment(n - 1, SCALE as int);
        let first = path[0].position;
        let second = path[1].position;
        let third = crate::spline::control_point(path, 2);
        lemma_blend(first.x as int, first.x as int, second.x as int, third.x as int, 0);
        lemma_blend(first.y as int, first.y as int, second.y as int, third.y as int, 0);
        lemma_blend(first.z as int, first.z as int, second.z as int, third.z as int, 0);
        let last = path[n - 1].position;
        let before = path[n - 2].position;
        let earlier = crate::spline::control_point(path, n - 3);
        lemma_blend(earlier.x as int, before.x as int, last.x as int, last.x as int, SCALE as int);
        lemma_blend(earlier.y as int, before.y as int, last.y as int, last.y as int, SCALE as int);
        lemma_blend(earlier.z as int, before.z as int, last.z as int, last.z as int, SCALE as int);
    }
}

/// The progress never decreases, and never leaves the curve.
pub proof fn lemma_progress_is_monotone(
    path: Seq<PathPoint>,
    progress: int,
    timer: int,
    speed: int,
    dt: int,
)
    requires
        0 <= progress <= SCALE,
    ensures
        progress <= progress_after(path, progress, timer, speed, dt) <= SCALE,
        control_due(progress, timer) ==> progress_after(path, progress, timer, speed, dt) == SCALE
            || progress_after(path, progress, timer, speed, dt) >= progress + PROGRESS_STEP,
        arrives(path, progress, timer, speed, dt) ==> {
            &&& progress_after(path, progress, timer, speed, dt) == SCALE
            &&& forall|vx: int| velocity_x_after(path, progress, timer, speed, dt, vx) == 0
            &&& forall|vy: int| velocity_y_after(path, progress, timer, speed, dt, vy) == 0
        },
{
    lemma_lookahead(path, progress, crate::follower::target_distance(speed, dt));
}

/// After `n` control steps the progress has advanced by `n` steps of
/// `PROGRESS_STEP` at least, or is at the end of the curve.
pub proof fn lemma_progress_advances(
    path: Seq<PathPoint>,
    progress: int,
    speed: int,
    dt: int,
    n: nat,
)
    requires
        0 <= progress <= SCALE,
    ensures
        progress <= progress_after_steps(path, progress, speed, dt, n) <= SCALE,
        progress_after_steps(path, progress, speed, dt, n) == SCALE || progress_after_steps(
            path,
            progress,
            speed,
            dt,
            n,
        ) >= progress + n * PROGRESS_STEP,
    decreases n,
{
    if n > 0 {
        lemma_progress_advances(path, progress, speed, dt, (n - 1) as nat);
        let before = progress_after_steps(path, progress, speed, dt, (n - 1) as nat);
        lemma_progress_is_monotone(path, before, CONTROL_INTERVAL as int, speed, dt);
        assert(n * PROGRESS_STEP == (n - 1) * PROGRESS_STEP + PROGRESS_STEP) by (nonlinear_arith);
    } else {
        assert(n * PROGRESS_STEP == 0) by (nonlinear_arith)
            requires
                n == 0,
        ;
    }
}

/// A thousand control steps bring the robot to the end of any curve.
pub proof fn lemma_following_ends(path: Seq<PathPoint>, progress: int, speed: int, dt: int, n: nat)
    requires
        0 <= progress <= SCALE,
        n * PROGRESS_STEP >= SCALE - progress,
    ensures
        progress_after_steps(path, progress, speed, dt, n) == SCALE,
{
    lemma_progress_advances(path, progress, speed, dt, n);
}

/// The velocity that a control step sets is as fast as the target speed, up
/// to the rounding of the gap and of the two components: its square is at
/// most the square of the target speed times the square of the true gap over
/// the square of the rounded one, and with one added to the magnitude of
/// each component it exceeds the target speed.
pub proof fn lemma_speed_is_kept(dx: int, dy: int, gap: int, speed: int)
    requires
        gap > 0,
        speed >= 0,
        gap * gap <= dx * dx + dy * dy,
    ensures
        (heading(dx, gap, speed) * heading(dx, gap, speed) + heading(dy, gap, speed) * heading(
            dy,
            gap,
            speed,
        )) * (gap * gap) <= (dx * dx + dy * dy) * (speed * speed),
        (abs(heading(dx, gap, speed)) + 1) * (abs(heading(dx, gap, speed)) + 1) + (abs(
            heading(dy, gap, speed),
        ) + 1) * (abs(heading(dy, gap, speed)) + 1) > speed * speed,
{
    lemma_component_is_kept(dx, gap, speed);
    lemma_component_is_kept(dy, gap, speed);
    let vx = abs(heading(dx, gap, speed));
    let vy = abs(heading(dy, gap, speed));
    let hx = heading(dx, gap, speed);
    let hy = heading(dy, gap, speed);
    let g2 = gap * gap;
    let s2 = speed * speed;
    let x2 = dx * dx;
    let y2 = dy * dy;
    assert(hx * hx == vx * vx && hy * hy == vy * vy) by (nonlinear_arith)
        requires
            vx == hx || vx == -hx,
            vy == hy || vy == -hy,
    ;
    assert((vx * vx + vy * vy) * g2 == vx * vx * g2 + vy * vy * g2) by (nonlinear_arith);
    assert((x2 + y2) * s2 == x2 * s2 + y2 * s2) by (nonlinear_arith);
    let wx = (vx + 1) * (vx + 1);
    let wy = (vy + 1) * (vy + 1);
    assert((wx + wy) * g2 == wx * g2 + wy * g2) by (nonlinear_arith);
    assert(wx * g2 > x2 * s2);
    assert(wy * g2 > y2 * s2);
    assert(g2 > 0) by (nonlinear_arith)
        requires
            g2 == gap * gap,
            gap > 0,
    ;
    assert(s2 >= 0) by (nonlinear_arith)
        requires
            s2 == speed * speed,
    ;
    assert((x2 + y2) * s2 >= g2 * s2) by (nonlinear_arith)
        requires
            x2 + y2 >= g2,
            s2 >= 0,
    ;
    assert((wx + wy) * g2 > g2 * s2);
    assert(wx + wy > s2) by (nonlinear_arith)
        requires
            (wx + wy) * g2 > g2 * s2,
            g2 > 0,
    ;
}

/// One component of the velocity, times the gap, is the matching component
/// of the way times the speed, rounded toward zero.
pub proof fn lemma_component_is_kept(delta: int, gap: int, speed: int)
    requires
        gap > 0,
        speed >= 0,
    ensures
        heading(delta, gap, speed) * heading(delta, gap, speed) * (gap * gap) <= delta * delta * (
        speed * speed),
        (abs(heading(delta, gap, speed)) + 1) * (abs(heading(delta, gap, speed)) + 1) * (gap
            * gap) > delta * delta * (speed * speed),
{
    let a = abs(delta);
    let v = abs(heading(delta, gap, speed));
    assert(abs(delta * speed) == a * speed) by (nonlinear_arith)
        requires
            a == abs(delta),
            speed >= 0,
    ;
    vstd::arithmetic::div_mod::lemma_fundamental_div_mod(a * speed, gap);
    assert(0 <= a * speed) by (nonlinear_arith)
        requires
            0 <= a,
            0 <= speed,
    ;
    vstd::arithmetic::div_mod::lemma_div_pos_is_pos(a * speed, gap);
    assert(v == (a * speed) / gap) by {
        if delta * speed >= 0 {
            assert(delta * speed == a * speed);
        } else {
            assert(-(delta * speed) == a * speed);
        }
    }
    let p = a * speed;
    assert(gap * v <= p < gap * (v + 1)) by (nonlinear_arith)
        requires
            p == gap * v + p % gap,
            0 <= p % gap < gap,
    ;
    let h = heading(delta, gap, speed);
    assert(h * h == v * v) by (nonlinear_arith)
        requires
            v == h || v == -h,
    ;
    assert(delta * delta * (speed * speed) == p * p) by (nonlinear_arith)
        requires
            p == a * speed,
            a == delta || a == -delta,
    ;
    assert(v * v * (gap * gap) == (gap * v) * (gap * v)) by (nonlinear_arith);
    assert((v + 1) * (v + 1) * (gap * gap) == (gap * (v + 1)) * (gap * (v + 1)))
        by (nonlinear_arith);
    let lo = gap * v;
    let hi = gap * (v + 1);
    assert(lo * lo <= p * p) by (nonlinear_arith)
        requires
            0 <= lo <= p,
    ;
    assert(p * p < hi * hi) by (nonlinear_arith)
        requires
            0 <= p < hi,
    ;
    assert(0 <= lo) by (nonlinear_arith)
        requires
            lo == gap * v,
            gap > 0,
            v >= 0,
    ;
}

/// The velocity that a control step steers with is as fast as the target
/// speed in the sense of `lemma_speed_is_kept`, wherever the point that the
/// robot heads for lies away from the robot.
pub proof fn lemma_steering_keeps_speed(path: Seq<PathPoint>, progress: int, speed: int, dt: int)
    requires
        speed >= 0,
        curve_gap(path, progress, progress + advance(path, progress, speed, dt)) > 0,
    ensures
        (abs(steered_x(path, progress, speed, dt)) + 1) * (abs(steered_x(path, progress, speed, dt))
            + 1) + (abs(steered_y(path, progress, speed, dt)) + 1) * (abs(
            steered_y(path, progress, speed, dt),
        ) + 1) > speed * speed,
        abs(steered_x(path, progress, speed, dt)) <= speed,
        abs(steered_y(path, progress, speed, dt)) <= speed,
{
    let to = curve_at(path, progress + advance(path, progress, speed, dt));
    let from = curve_at(path, progress);
    let gap = curve_gap(path, progress, progress + advance(path, progress, speed, dt));
    let dx = to.x - from.x;
    let dy = to.y - from.y;
    crate::fixed::lemma_sqrt_floor_bounds((dx * dx + dy * dy) as nat);
    assert(dx * dx + dy * dy >= 0) by (nonlinear_arith);
    lemma_speed_is_kept(dx, dy, gap, speed);
    let ax = abs(dx) as nat;
    let ay = abs(dy) as nat;
    assert(ax * ax == dx * dx && ay * ay == dy * dy) by (nonlinear_arith)
        requires
            ax == dx || ax == -dx,
            ay == dy || ay == -dy,
    ;
    crate::fixed::lemma_sqrt_floor_of_square(ax);
    crate::fixed::lemma_sqrt_floor_of_square(ay);
    crate::fixed::lemma_sqrt_floor_monotone(ax * ax, (dx * dx + dy * dy) as nat);
    crate::fixed::lemma_sqrt_floor_monotone(ay * ay, (dx * dx + dy * dy) as nat);
    crate::follower::lemma_heading(dx, gap, speed);
    crate::follower::lemma_heading(dy, gap, speed);
}

/// Every obstacle of the sequence is well formed.
pub open spec fn all_wf(obstacles: Seq<Obstacle>) -> bool {
    forall|i: int| 0 <= i < obstacles.len() ==> (#[trigger] obstacles[i]).wf()
}

/// The potential is nowhere negative, and nowhere more than `POTENTIAL_MAX`
/// for every obstacle.
pub proof fn lemma_potential_is_bounded(obstacles: Seq<Obstacle>, p: Position)
    requires
        all_wf(obstacles),
        p.within(COORD_MAX as int),
    ensures
        0 <= total_potential(obstacles, p) <= obstacles.len() * POTENTIAL_MAX,
    decreases obstacles.len(),
{
    if obstacles.len() > 0 {
        lemma_potential_is_bounded(obstacles.drop_last(), p);
        obstacles.last().lemma_field_bounds(p);
        assert(obstacles.len() * POTENTIAL_MAX == (obstacles.len() - 1) * POTENTIAL_MAX
            + POTENTIAL_MAX) by (nonlinear_arith);
    } else {
        assert(obstacles.len() * POTENTIAL_MAX == 0) by (nonlinear_arith)
            requires
                obstacles.len() == 0,
        ;
    }
}

/// Ticks never take the progress back, and never beyond the end of the
/// curve; the timer stays at zero or above.
pub proof fn lemma_ticks_are_monotone(
    path: Seq<PathPoint>,
    progress: int,
    timer: int,
    speed: int,
    dt: int,
    n: nat,
)
    requires
        0 <= progress <= SCALE,
        0 <= timer <= i64::MAX,
        0 <= dt,
    ensures
        progress <= progress_after_ticks(path, progress, timer, speed, dt, n) <= SCALE,
        0 <= timer_after_ticks(path, progress, timer, speed, dt, n) <= i64::MAX,
        n > 0 ==> progress_after_ticks(path, progress, timer, speed, dt, (n - 1) as nat)
            <= progress_after_ticks(path, progress, timer, speed, dt, n),
    decreases n,
{
    if n > 0 {
        lemma_ticks_are_monotone(path, progress, timer, speed, dt, (n - 1) as nat);
        let p = progress_after_ticks(path, progress, timer, speed, dt, (n - 1) as nat);
        let t = timer_after_ticks(path, progress, timer, speed, dt, (n - 1) as nat);
        lemma_progress_is_monotone(path, p, timer_advanced(t, dt), speed, dt);
    }
}

/// Within as many ticks as make up a control interval, a robot that has not
/// arrived makes a control step: `n` ticks whose lengths add up to the
/// control interval advance the progress by a `PROGRESS_STEP` at least, or
/// bring it to the end of the curve.
pub proof fn lemma_ticks_reach_a_control_step(
    path: Seq<PathPoint>,
    progress: int,
    timer: int,
    speed: int,
    dt: int,
    n: nat,
)
    requires
        0 <= progress <= SCALE,
        0 <= timer <= i64::MAX,
        0 < dt,
    ensures
        progress_after_ticks(path, progress, timer, speed, dt, n) == SCALE || progress_after_ticks(
            path,
            progress,
            timer,
            speed,
            dt,
            n,
        ) >= progress + PROGRESS_STEP || timer_after_ticks(path, progress, timer, speed, dt, n)
            >= timer + n * dt,
        n * dt >= CONTROL_INTERVAL ==> progress_after_ticks(path, progress, timer, speed, dt, n)
            == SCALE || progress_after_ticks(path, progress, timer, speed, dt, n) >= progress
            + PROGRESS_STEP,
    decreases n,
{
    if n > 0 {
        let m = (n - 1) as nat;
        lemma_ticks_reach_a_control_step(path, progress, timer, speed, dt, m);
        lemma_ticks_are_monotone(path, progress, timer, speed, dt, m);
        lemma_ticks_are_monotone(path, progress, timer, speed, dt, n);
        let p = progress_after_ticks(path, progress, timer, speed, dt, m);
        let t = timer_after_ticks(path, progress, timer, speed, dt, m);
        lemma_progress_is_monotone(path, p, timer_advanced(t, dt), speed, dt);
        assert(n * dt == m * dt + dt) by (nonlinear_arith)
            requires
                n == m + 1,
        ;
        assert(m * dt >= 0) by (nonlinear_arith)
            requires
                m >= 0,
                dt > 0,
        ;
    } else {
        assert(n * dt == 0) by (nonlinear_arith)
            requires
                n == 0,
        ;
    }
}

/// A robot that follows its path arrives: after `k` times `n` ticks, where
/// the lengths of `n` ticks add up to the control interval, the progress has
/// advanced by `k` steps of `PROGRESS_STEP` at least, or is at the end of the
/// curve. So a thousand times `n` ticks end every following.
pub proof fn lemma_ticks_arrive(
    path: Seq<PathPoint>,
    progress: int,
    timer: int,
    speed: int,
    dt: int,
    n: nat,
    k: nat,
)
    requires
        0 <= progress <= SCALE,
        0 <= timer <= i64::MAX,
        0 < dt,
        n * dt >= CONTROL_INTERVAL,
    ensures
        progress_after_ticks(path, progress, timer, speed, dt, k * n) == SCALE
            || progress_after_ticks(path, progress, timer, speed, dt, k * n) >= progress + k
            * PROGRESS_STEP,
        k * PROGRESS_STEP >= SCALE - progress ==> progress_after_ticks(
            path,
            progress,
            timer,
            speed,
            dt,
            k * n,
        ) == SCALE,
    decreases k,
{
    if k > 0 {
        let j = (k - 1) as nat;
        lemma_ticks_arrive(path, progress, timer, speed, dt, n, j);
        lemma_ticks_are_monotone(path, progress, timer, speed, dt, j * n);
        let p = progress_after_ticks(path, progress, timer, speed, dt, j * n);
        let t = timer_after_ticks(path, progress, timer, speed, dt, j * n);
        lemma_ticks_compose(path, progress, timer, speed, dt, j * n, n);
        lemma_ticks_reach_a_control_step(path, p, t, speed, dt, n);
        assert(k * n == j * n + n) by (nonlinear_arith)
            requires
                k == j + 1,
        ;
        assert(k * PROGRESS_STEP == j * PROGRESS_STEP + PROGRESS_STEP) by (nonlinear_arith)
            requires
                k == j + 1,
        ;
        lemma_ticks_are_monotone(path, progress, timer, speed, dt, k * n);
    } else {
        assert(k * n == 0) by (nonlinear_arith)
            requires
                k == 0,
        ;
        assert(k * PROGRESS_STEP == 0) by (nonlinear_arith)
            requires
                k == 0,
        ;
    }
}

/// Ticks after ticks are ticks: `a + b` ticks lead where `b` ticks lead from
/// where `a` ticks led.
pub proof fn lemma_ticks_compose(
    path: Seq<PathPoint>,
    progress: int,
    timer: int,
    speed: int,
    dt: int,
    a: nat,
    b: nat,
)
    ensures
        progress_after_ticks(path, progress, timer, speed, dt, a + b) == progress_after_ticks(
            path,
            progress_after_ticks(path, progress, timer, speed, dt, a),
            timer_after_ticks(path, progress, timer, speed, dt, a),
            speed,
            dt,
            b,
        ),
        timer_after_ticks(path, progress, timer, speed, dt, a + b) == timer_after_ticks(
            path,
            progress_after_ticks(path, progress, timer, speed, dt, a),
            timer_after_ticks(path, progress, timer, speed, dt, a),
            speed,
            dt,
            b,
        ),
    decreases b,
{
    if b > 0 {
        lemma_ticks_compose(path, progress, timer, speed, dt, a, (b - 1) as nat);
    }
}

} // verus!
