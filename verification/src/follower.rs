//! Following the curve of the planned path at the target speed.
//!
//! The follower recomputes the velocity once per [`CONTROL_INTERVAL`] of
//! elapsed time, however often it is called. A control step looks ahead on
//! the curve, in steps of [`PROGRESS_STEP`], for the first point at least as
//! far away as the robot travels in one tick, heads for it at the target
//! speed, and advances the progress to it. When the progress reaches one the
//! robot stops.
use crate::fixed::{abs, clamp, div_trunc, mul_wide, trunc_div, SCALE, WORKSPACE_LIMIT};
use crate::position::Position;
use crate::robot::{path_in_workspace, PathPoint, Robot};
use crate::spline::{curve_at, CURVE_LIMIT};
use vstd::prelude::*;

verus! {

/// Time between two control steps: a fiftieth of a unit of time.
pub const CONTROL_INTERVAL: i64 = 20_000;

/// Step of the search along the curve, and the least advance of a control
/// step: a thousandth of the curve.
pub const PROGRESS_STEP: i64 = 1_000;

/// Most steps one search takes.
pub const MAX_SEARCH_STEPS: usize = 1_000;

/// Travel per tick up to which no search is made: a thousandth of a unit.
pub const MIN_TARGET_DISTANCE: i64 = 1_000;

/// Distance the robot travels in a tick of length `dt` at `speed`.
pub open spec fn target_distance(speed: int, dt: int) -> int {
    trunc_div(speed * dt, SCALE as int)
}

/// Planar distance between the points of the curve at two parameters.
pub open spec fn curve_gap(path: Seq<PathPoint>, from: int, to: int) -> int {
    curve_at(path, to).distance(curve_at(path, from))
}

/// Whether a search that has come `ahead` of `progress` in `steps` steps ends
/// there: at the end of the curve, at a point far enough away, or when its
/// steps are used up.
pub open spec fn search_ends(
    path: Seq<PathPoint>,
    progress: int,
    target: int,
    ahead: int,
    steps: nat,
) -> bool {
    ||| steps >= MAX_SEARCH_STEPS
    ||| progress + ahead >= SCALE
    ||| curve_gap(path, progress, progress + ahead) >= target
}

/// Where the search ends that has come `ahead` of `progress` in `steps` steps
/// and goes on from there.
pub open spec fn search_ahead(
    path: Seq<PathPoint>,
    progress: int,
    target: int,
    ahead: int,
    steps: nat,
) -> int
    decreases MAX_SEARCH_STEPS - steps,
{
    if search_ends(path, progress, target, ahead + PROGRESS_STEP, (steps + 1) as nat) {
        ahead + PROGRESS_STEP
    } else {
        search_ahead(path, progress, target, ahead + PROGRESS_STEP, (steps + 1) as nat)
    }
}

/// How far a control step advances the progress: one `PROGRESS_STEP` when the
/// travel per tick is at most `MIN_TARGET_DISTANCE`, and else as far as the
/// search goes.
pub open spec fn lookahead(path: Seq<PathPoint>, progress: int, target: int) -> int {
    if target <= MIN_TARGET_DISTANCE {
        PROGRESS_STEP as int
    } else {
        search_ahead(path, progress, target, 0, 0)
    }
}

/// One component of the velocity toward a point `delta` away along this
/// axis and `gap` away in all: zero when the point is where the robot is.
pub open spec fn heading(delta: int, gap: int, speed: int) -> int {
    if gap <= 0 {
        0
    } else {
        trunc_div(delta * speed, gap)
    }
}

/// Whether a control step is due.
pub open spec fn control_due(progress: int, timer: int) -> bool {
    progress < SCALE && timer >= CONTROL_INTERVAL
}

/// The advance of the control step that is due, for a tick of length `dt`.
pub open spec fn advance(path: Seq<PathPoint>, progress: int, speed: int, dt: int) -> int {
    lookahead(path, progress, target_distance(speed, dt))
}

/// Whether the robot is at the end of the curve after the call.
pub open spec fn arrives(
    path: Seq<PathPoint>,
    progress: int,
    timer: int,
    speed: int,
    dt: int,
) -> bool {
    progress >= SCALE || (control_due(progress, timer) && progress + advance(
        path,
        progress,
        speed,
        dt,
    ) >= SCALE)
}

/// The progress after the call.
pub open spec fn progress_after(
    path: Seq<PathPoint>,
    progress: int,
    timer: int,
    speed: int,
    dt: int,
) -> int {
    if !control_due(progress, timer) {
        progress
    } else if progress + advance(path, progress, speed, dt) >= SCALE {
        SCALE as int
    } else {
        progress + advance(path, progress, speed, dt)
    }
}

/// The `x` velocity that the control step sets when the robot does not
/// arrive.
pub open spec fn steered_x(path: Seq<PathPoint>, progress: int, speed: int, dt: int) -> int {
    let to = progress + advance(path, progress, speed, dt);
    heading(
        curve_at(path, to).x - curve_at(path, progress).x,
        curve_gap(path, progress, to),
        speed,
    )
}

/// The `y` velocity that the control step sets when the robot does not
/// arrive.
pub open spec fn steered_y(path: Seq<PathPoint>, progress: int, speed: int, dt: int) -> int {
    let to = progress + advance(path, progress, speed, dt);
    heading(
        curve_at(path, to).y - curve_at(path, progress).y,
        curve_gap(path, progress, to),
        speed,
    )
}

/// Whether the call makes a search that uses up all its steps.
pub open spec fn search_exhausted(
    path: Seq<PathPoint>,
    progress: int,
    timer: int,
    speed: int,
    dt: int,
) -> bool {
    &&& control_due(progress, timer)
    &&& target_distance(speed, dt) > MIN_TARGET_DISTANCE
    &&& advance(path, progress, speed, dt) >= MAX_SEARCH_STEPS * PROGRESS_STEP
}

/// What one call of the follower commands.
#[derive(Clone, Copy, Debug, PartialEq, Eq, Structural)]
pub struct FollowReport {
    /// The velocity along `x` after the call.
    pub velocity_x: i64,
    /// The velocity along `y` after the call.
    pub velocity_y: i64,
    /// Whether the search for the point to head for used up all its steps, so
    /// that the robot heads for the furthest point that was looked at.
    pub search_exhausted: bool,
}

/// The `x` velocity after the call, where `current` is the one before it.
pub open spec fn velocity_x_after(
    path: Seq<PathPoint>,
    progress: int,
    timer: int,
    speed: int,
    dt: int,
    current: int,
) -> int {
    if arrives(path, progress, timer, speed, dt) {
        0
    } else if control_due(progress, timer) {
        steered_x(path, progress, speed, dt)
    } else {
        current
    }
}

/// The `y` velocity after the call, where `current` is the one before it.
pub open spec fn velocity_y_after(
    path: Seq<PathPoint>,
    progress: int,
    timer: int,
    speed: int,
    dt: int,
    current: int,
) -> int {
    if arrives(path, progress, timer, speed, dt) {
        0
    } else if control_due(progress, timer) {
        steered_y(path, progress, speed, dt)
    } else {
        current
    }
}

/// The timer after the call: a control step starts it again.
pub open spec fn timer_after(progress: int, timer: int) -> int {
    if control_due(progress, timer) {
        0
    } else {
        timer
    }
}

/// The timer after `dt` more has passed. It stops at the largest value it
/// can hold.
pub open spec fn timer_advanced(timer: int, dt: int) -> int {
    if timer + dt > i64::MAX {
        i64::MAX as int
    } else {
        timer + dt
    }
}

/// One coordinate of the robot after it has moved at `velocity` for `dt`,
/// stopping at the edge of the workspace.
pub open spec fn coordinate_moved(coordinate: int, velocity: int, dt: int) -> int {
    clamp(
        coordinate + trunc_div(velocity * dt, SCALE as int),
        -WORKSPACE_LIMIT,
        WORKSPACE_LIMIT as int,
    )
}

/// The progress after `n` control steps in a row.
pub open spec fn progress_after_steps(
    path: Seq<PathPoint>,
    progress: int,
    speed: int,
    dt: int,
    n: nat,
) -> int
    decreases n,
{
    if n == 0 {
        progress
    } else {
        progress_after(
            path,
            progress_after_steps(path, progress, speed, dt, (n - 1) as nat),
            CONTROL_INTERVAL as int,
            speed,
            dt,
        )
    }
}

/// The progress after `n` ticks of length `dt` of a robot that follows its
/// path, begun with the given progress and timer: every tick advances the
/// timer, and makes a control step when one is due.
pub open spec fn progress_after_ticks(
    path: Seq<PathPoint>,
    progress: int,
    timer: int,
    speed: int,
    dt: int,
    n: nat,
) -> int
    decreases n,
{
    if n == 0 {
        progress
    } else {
        progress_after(
            path,
            progress_after_ticks(path, progress, timer, speed, dt, (n - 1) as nat),
            timer_advanced(timer_after_ticks(path, progress, timer, speed, dt, (n - 1) as nat), dt),
            speed,
            dt,
        )
    }
}

/// The timer after `n` ticks of length `dt` of a robot that follows its path.
pub open spec fn timer_after_ticks(
    path: Seq<PathPoint>,
    progress: int,
    timer: int,
    speed: int,
    dt: int,
    n: nat,
) -> int
    decreases n,
{
    if n == 0 {
        timer
    } else {
        timer_after(
            progress_after_ticks(path, progress, timer, speed, dt, (n - 1) as nat),
            timer_advanced(timer_after_ticks(path, progress, timer, speed, dt, (n - 1) as nat), dt),
        )
    }
}

/// A search ends at least one step and at most `MAX_SEARCH_STEPS` steps
/// ahead.
pub proof fn lemma_search_ahead(
    path: Seq<PathPoint>,
    progress: int,
    target: int,
    ahead: int,
    steps: nat,
)
    requires
        steps < MAX_SEARCH_STEPS,
    ensures
        ahead + PROGRESS_STEP <= search_ahead(path, progress, target, ahead, steps) <= ahead + (
        MAX_SEARCH_STEPS - steps) * PROGRESS_STEP,
    decreases MAX_SEARCH_STEPS - steps,
{
    if !(search_ends(path, progress, target, ahead + PROGRESS_STEP, (steps + 1) as nat)) {
        lemma_search_ahead(path, progress, target, ahead + PROGRESS_STEP, (steps + 1) as nat);
    }
}

/// A control step advances by at least one `PROGRESS_STEP` and by no more
/// than the whole curve.
pub proof fn lemma_lookahead(path: Seq<PathPoint>, progress: int, target: int)
    ensures
        PROGRESS_STEP <= lookahead(path, progress, target) <= MAX_SEARCH_STEPS * PROGRESS_STEP,
{
    if target > MIN_TARGET_DISTANCE {
        lemma_search_ahead(path, progress, target, 0, 0);
    }
}

/// A component no longer than the gap gives a velocity no faster than the
/// speed.
pub proof fn lemma_heading(delta: int, gap: int, speed: int)
    requires
        abs(delta) <= gap,
    ensures
        abs(heading(delta, gap, speed)) <= abs(speed),
{
    if gap > 0 {
        let a = abs(delta);
        let s = abs(speed);
        assert(abs(delta * speed) == a * s) by (nonlinear_arith)
            requires
                a == abs(delta),
                s == abs(speed),
        ;
        assert(0 <= a * s <= gap * s) by (nonlinear_arith)
            requires
                0 <= a <= gap,
                0 <= s,
        ;
        vstd::arithmetic::div_mod::lemma_div_is_ordered(a * s, gap * s, gap);
        vstd::arithmetic::div_mod::lemma_div_multiples_vanish(s, gap);
        vstd::arithmetic::div_mod::lemma_div_pos_is_pos(a * s, gap);
        if delta * speed >= 0 {
            assert(heading(delta, gap, speed) == (a * s) / gap);
        } else {
            assert(-(delta * speed) == a * s);
            assert(heading(delta, gap, speed) == -((a * s) / gap));
        }
    }
}

impl Robot {
    /// How far a control step advances the progress when the robot travels
    /// `target` per tick.
    pub fn look_ahead(&self, target: i128) -> (ahead: i64)
        requires
            path_in_workspace(self.path_points@),
            0 <= self.current_path_progress <= SCALE,
        ensures
            ahead == lookahead(self.path_points@, self.current_path_progress as int, target as int),
            PROGRESS_STEP <= ahead <= MAX_SEARCH_STEPS * PROGRESS_STEP,
    {
        proof {
            lemma_lookahead(self.path_points@, self.current_path_progress as int, target as int);
        }
        if target <= MIN_TARGET_DISTANCE as i128 {
            return PROGRESS_STEP;
        }
        let current = self.catmull_rom_spline(self.current_path_progress);
        let here = Position::new(current.0, current.1, 0);
        let mut ci: i64 = 0;
        let mut iteration_count: usize = 0;
        loop
            invariant_except_break
                iteration_count < MAX_SEARCH_STEPS,
                ci == iteration_count * PROGRESS_STEP,
                search_ahead(
                    self.path_points@,
                    self.current_path_progress as int,
                    target as int,
                    ci as int,
                    iteration_count as nat,
                ) == search_ahead(
                    self.path_points@,
                    self.current_path_progress as int,
                    target as int,
                    0,
                    0,
                ),
            invariant
                path_in_workspace(self.path_points@),
                0 <= self.current_path_progress <= SCALE,
                target > MIN_TARGET_DISTANCE,
                here.x == curve_at(self.path_points@, self.current_path_progress as int).x,
                here.y == curve_at(self.path_points@, self.current_path_progress as int).y,
                here.within(CURVE_LIMIT as int),
            ensures
                ci == search_ahead(
                    self.path_points@,
                    self.current_path_progress as int,
                    target as int,
                    0,
                    0,
                ),
            decreases MAX_SEARCH_STEPS - iteration_count,
        {
            ci = ci + PROGRESS_STEP;
            iteration_count = iteration_count + 1;
            let focus = self.catmull_rom_spline(self.current_path_progress + ci);
            let there = Position::new(focus.0, focus.1, 0);
            let d: i64 = there.distance_to(&here);
            proof {
                let to = curve_at(self.path_points@, self.current_path_progress + ci);
                let from = curve_at(self.path_points@, self.current_path_progress as int);
            }
            if iteration_count >= MAX_SEARCH_STEPS || self.current_path_progress + ci >= SCALE
                || d as i128 >= target {
                break ;
            }
        }
        ci
    }

    /// One call of the follower for a tick of length `dt`.
    ///
    /// At the end of the curve the robot stops. Otherwise, once
    /// [`CONTROL_INTERVAL`] has passed since the last control step, the
    /// velocity is set toward the point of the curve that the search finds,
    /// the progress advances to that point, and the timer starts again. The
    /// progress never decreases, and every control step advances it by at
    /// least [`PROGRESS_STEP`] or brings it to the end.
    pub fn follow_path_with_dt(&mut self, dt: i64) -> (report: FollowReport)
        requires
            old(self).valid(),
        ensures
            final(self).valid(),
            report.velocity_x == final(self).velocity_x,
            report.velocity_y == final(self).velocity_y,
            report.search_exhausted == search_exhausted(
                old(self).path_points@,
                old(self).current_path_progress as int,
                old(self).velocity_update_timer as int,
                old(self).target_speed as int,
                dt as int,
            ),
            final(self).position == old(self).position,
            final(self).scale == old(self).scale,
            final(self).path_points == old(self).path_points,
            final(self).target_speed == old(self).target_speed,
            final(self).current_path_progress == progress_after(
                old(self).path_points@,
                old(self).current_path_progress as int,
                old(self).velocity_update_timer as int,
                old(self).target_speed as int,
                dt as int,
            ),
            final(self).velocity_update_timer == timer_after(
                old(self).current_path_progress as int,
                old(self).velocity_update_timer as int,
            ),
            final(self).follow_path == (old(self).follow_path && !arrives(
                old(self).path_points@,
                old(self).current_path_progress as int,
                old(self).velocity_update_timer as int,
                old(self).target_speed as int,
                dt as int,
            )),
            final(self).velocity_x == velocity_x_after(
                old(self).path_points@,
                old(self).current_path_progress as int,
                old(self).velocity_update_timer as int,
                old(self).target_speed as int,
                dt as int,
                old(self).velocity_x as int,
            ),
            final(self).velocity_y == velocity_y_after(
                old(self).path_points@,
                old(self).current_path_progress as int,
                old(self).velocity_update_timer as int,
                old(self).target_speed as int,
                dt as int,
                old(self).velocity_y as int,
            ),
            final(self).current_path_progress >= old(self).current_path_progress,
            control_due(
                old(self).current_path_progress as int,
                old(self).velocity_update_timer as int,
            ) ==> final(self).current_path_progress == SCALE
                || final(self).current_path_progress >= old(self).current_path_progress
                + PROGRESS_STEP,
            control_due(
                old(self).current_path_progress as int,
                old(self).velocity_update_timer as int,
            ) ==> abs(final(self).velocity_x as int) <= abs(old(self).target_speed as int) && abs(
                final(self).velocity_y as int,
            ) <= abs(old(self).target_speed as int),
    {
        if self.current_path_progress >= SCALE {
            self.follow_path = false;
            self.set_velocity(0, 0);
            return FollowReport { velocity_x: 0, velocity_y: 0, search_exhausted: false };
        }
        let mut search_exhausted = false;
        if self.velocity_update_timer >= CONTROL_INTERVAL {
            let current = self.catmull_rom_spline(self.current_path_progress);
            let target: i128 = div_trunc(mul_wide(self.target_speed, dt), SCALE as i128);
            let ci: i64 = self.look_ahead(target);
            search_exhausted = target > MIN_TARGET_DISTANCE as i128 && ci >= (
            MAX_SEARCH_STEPS as i64) * PROGRESS_STEP;
            let focus = self.catmull_rom_spline(self.current_path_progress + ci);
            let here = Position::new(current.0, current.1, 0);
            let there = Position::new(focus.0, focus.1, 0);
            let xv: i64 = focus.0 - current.0;
            let yv: i64 = focus.1 - current.1;
            let d: i64 = there.distance_to(&here);
            proof {
                there.lemma_dist_sq_bound(here);
                lemma_heading(xv as int, d as int, self.target_speed as int);
                lemma_heading(yv as int, d as int, self.target_speed as int);
            }
            if d > 0 {
                let vx: i128 = div_trunc(mul_wide(xv, self.target_speed), d as i128);
                let vy: i128 = div_trunc(mul_wide(yv, self.target_speed), d as i128);
                self.set_velocity(vx as i64, vy as i64);
            } else {
                self.set_velocity(0, 0);
            }
            self.current_path_progress = self.current_path_progress + ci;
            if self.current_path_progress >= SCALE {
                self.current_path_progress = SCALE;
                self.follow_path = false;
                self.set_velocity(0, 0);
            }
            self.velocity_update_timer = 0;
        }
        FollowReport { velocity_x: self.velocity_x, velocity_y: self.velocity_y, search_exhausted }
    }

    /// Advances the robot by a tick of length `dt`: the timer runs on, the
    /// follower is called if the robot is following its path, and the robot
    /// moves at its velocity for the length of the tick. The robot stops at
    /// the edge of the workspace.
    pub fn update_position(&mut self, dt: i64) -> (report: FollowReport)
        requires
            old(self).valid(),
            dt >= 0,
        ensures
            final(self).valid(),
            report.velocity_x == final(self).velocity_x,
            report.velocity_y == final(self).velocity_y,
            report.search_exhausted == (old(self).follow_path && search_exhausted(
                old(self).path_points@,
                old(self).current_path_progress as int,
                timer_advanced(old(self).velocity_update_timer as int, dt as int),
                old(self).target_speed as int,
                dt as int,
            )),
            final(self).scale == old(self).scale,
            final(self).path_points == old(self).path_points,
            final(self).target_speed == old(self).target_speed,
            !old(self).follow_path ==> {
                &&& !final(self).follow_path
                &&& final(self).current_path_progress == old(self).current_path_progress
                &&& final(self).velocity_x == old(self).velocity_x
                &&& final(self).velocity_y == old(self).velocity_y
                &&& final(self).velocity_update_timer == timer_advanced(
                    old(self).velocity_update_timer as int,
                    dt as int,
                )
            },
            old(self).follow_path ==> {
                &&& final(self).follow_path == !arrives(
                    old(self).path_points@,
                    old(self).current_path_progress as int,
                    timer_advanced(old(self).velocity_update_timer as int, dt as int),
                    old(self).target_speed as int,
                    dt as int,
                )
                &&& final(self).current_path_progress == progress_after(
                    old(self).path_points@,
                    old(self).current_path_progress as int,
                    timer_advanced(old(self).velocity_update_timer as int, dt as int),
                    old(self).target_speed as int,
                    dt as int,
                )
                &&& final(self).velocity_x == velocity_x_after(
                    old(self).path_points@,
                    old(self).current_path_progress as int,
                    timer_advanced(old(self).velocity_update_timer as int, dt as int),
                    old(self).target_speed as int,
                    dt as int,
                    old(self).velocity_x as int,
                )
                &&& final(self).velocity_y == velocity_y_after(
                    old(self).path_points@,
                    old(self).current_path_progress as int,
                    timer_advanced(old(self).velocity_update_timer as int, dt as int),
                    old(self).target_speed as int,
                    dt as int,
                    old(self).velocity_y as int,
                )
                &&& final(self).velocity_update_timer == timer_after(
                    old(self).current_path_progress as int,
                    timer_advanced(old(self).velocity_update_timer as int, dt as int),
                )
            },
            final(self).current_path_progress >= old(self).current_path_progress,
            final(self).position.x == coordinate_moved(
                old(self).position.x as int,
                final(self).velocity_x as int,
                dt as int,
            ),
            final(self).position.y == coordinate_moved(
                old(self).position.y as int,
                final(self).velocity_y as int,
                dt as int,
            ),
            final(self).position.z == old(self).position.z,
    {
        let advanced: i128 = self.velocity_update_timer as i128 + dt as i128;
        self.velocity_update_timer = if advanced > i64::MAX as i128 {
            i64::MAX
        } else {
            advanced as i64
        };
        let mut search_exhausted = false;
        if self.follow_path {
            let report = self.follow_path_with_dt(dt);
            search_exhausted = report.search_exhausted;
        }
        let step_x: i128 = div_trunc(mul_wide(self.velocity_x, dt), SCALE as i128);
        let step_y: i128 = div_trunc(mul_wide(self.velocity_y, dt), SCALE as i128);
        let new_x: i128 = self.position.x as i128 + step_x;
        let new_y: i128 = self.position.y as i128 + step_y;
        self.position.x = clamp_wide(new_x);
        self.position.y = clamp_wide(new_y);
        FollowReport { velocity_x: self.velocity_x, velocity_y: self.velocity_y, search_exhausted }
    }

    /// One call of the follower for a tick of the length of the control
    /// interval.
    pub fn follow_path(&mut self) -> (report: FollowReport)
        requires
            old(self).valid(),
        ensures
            final(self).valid(),
            report.velocity_x == final(self).velocity_x,
            report.velocity_y == final(self).velocity_y,
            report.search_exhausted == search_exhausted(
                old(self).path_points@,
                old(self).current_path_progress as int,
                old(self).velocity_update_timer as int,
                old(self).target_speed as int,
                CONTROL_INTERVAL as int,
            ),
            final(self).position == old(self).position,
            final(self).scale == old(self).scale,
            final(self).path_points == old(self).path_points,
            final(self).target_speed == old(self).target_speed,
            final(self).current_path_progress == progress_after(
                old(self).path_points@,
                old(self).current_path_progress as int,
                old(self).velocity_update_timer as int,
                old(self).target_speed as int,
                CONTROL_INTERVAL as int,
            ),
            final(self).velocity_update_timer == timer_after(
                old(self).current_path_progress as int,
                old(self).velocity_update_timer as int,
            ),
            final(self).follow_path == (old(self).follow_path && !arrives(
                old(self).path_points@,
                old(self).current_path_progress as int,
                old(self).velocity_update_timer as int,
                old(self).target_speed as int,
                CONTROL_INTERVAL as int,
            )),
            final(self).velocity_x == velocity_x_after(
                old(self).path_points@,
                old(self).current_path_progress as int,
                old(self).velocity_update_timer as int,
                old(self).target_speed as int,
                CONTROL_INTERVAL as int,
                old(self).velocity_x as int,
            ),
            final(self).velocity_y == velocity_y_after(
                old(self).path_points@,
                old(self).current_path_progress as int,
                old(self).velocity_update_timer as int,
                old(self).target_speed as int,
                CONTROL_INTERVAL as int,
                old(self).velocity_y as int,
            ),
            final(self).current_path_progress >= old(self).current_path_progress,
    {
        self.follow_path_with_dt(CONTROL_INTERVAL)
    }
}

/// `v` limited to the workspace.
pub fn clamp_wide(v: i128) -> (c: i64)
    ensures
        c == clamp(v as int, -WORKSPACE_LIMIT, WORKSPACE_LIMIT as int),
        -WORKSPACE_LIMIT <= c <= WORKSPACE_LIMIT,
{
    if v < -WORKSPACE_LIMIT as i128 {
        -WORKSPACE_LIMIT
    } else if v > WORKSPACE_LIMIT as i128 {
        WORKSPACE_LIMIT
    } else {
        v as i64
    }
}

} // verus!
