//! The Catmull-Rom curve through the waypoints of a path.
//!
//! The control points of the curve are the waypoints, with the first and the
//! last waypoint standing in for the neighbours that an end segment lacks. A
//! path of `n` waypoints, `n` at least four, so has `n + 2` control points
//! and three segments fewer than control points, `n - 1`, and its curve runs
//! from the first waypoint to the last through every waypoint between them.
//! A shorter path has no curve: a parameter is answered with the nearest
//! waypoint, and with the origin when there is no waypoint.
use crate::fixed::{clamp, div_trunc, mul_wide, trunc_div, SCALE, WORKSPACE_LIMIT};
use crate::position::Position;
use crate::robot::{path_in_workspace, PathPoint, Robot};
use crate::wire::{Color, Wire};
use vstd::prelude::*;

verus! {

/// Largest magnitude of a coordinate of a point of the curve.
pub const CURVE_LIMIT: i64 = 7_000_000_000_000;

/// The square of the fraction `t`.
pub open spec fn squared(t: int) -> int {
    t * t / (SCALE as int)
}

/// The cube of the fraction `t`.
pub open spec fn cubed(t: int) -> int {
    squared(t) * t / (SCALE as int)
}

/// Twice the blending weight of the control point before the segment.
pub open spec fn weight_before(t: int) -> int {
    -cubed(t) + 2 * squared(t) - t
}

/// Twice the blending weight of the control point the segment starts at.
pub open spec fn weight_start(t: int) -> int {
    3 * cubed(t) - 5 * squared(t) + 2 * SCALE
}

/// Twice the blending weight of the control point the segment ends at.
pub open spec fn weight_end(t: int) -> int {
    -3 * cubed(t) + 4 * squared(t) + t
}

/// Twice the blending weight of the control point after the segment.
pub open spec fn weight_after(t: int) -> int {
    cubed(t) - squared(t)
}

/// The weighted sum of one coordinate of four control points, before the
/// division by the sum of the weights.
pub open spec fn blend_sum(a0: int, a1: int, a2: int, a3: int, t: int) -> int {
    weight_before(t) * a0 + weight_start(t) * a1 + weight_end(t) * a2 + weight_after(t) * a3
}

/// One coordinate of the curve at the fraction `t` of a segment.
pub open spec fn blend(a0: int, a1: int, a2: int, a3: int, t: int) -> int {
    trunc_div(blend_sum(a0, a1, a2, a3, t), 2 * SCALE)
}

/// The point of the curve at the fraction `t` of the segment from `start` to
/// `end`; `before` and `after` are the control points on either side of it.
pub open spec fn spline_point(before: Position, start: Position, end: Position, after: Position, t: int) -> Position {
    Position {
        x: blend(before.x as int, start.x as int, end.x as int, after.x as int, t) as i64,
        y: blend(before.y as int, start.y as int, end.y as int, after.y as int, t) as i64,
        z: blend(before.z as int, start.z as int, end.z as int, after.z as int, t) as i64,
    }
}

/// Index of the waypoint nearest to the parameter `t` on a path of `len`
/// waypoints that are spread evenly over the parameters from zero to one.
pub open spec fn nearest_index(len: int, t: int) -> int {
    (2 * t * (len - 1) + SCALE) / (2 * SCALE)
}

/// Index of the segment that holds the parameter `t`, of `segments`.
pub open spec fn segment_index(segments: int, t: int) -> int {
    if t * segments / (SCALE as int) >= segments {
        segments - 1
    } else {
        t * segments / (SCALE as int)
    }
}

/// The waypoint at `i`, or the nearest end of the path where `i` is outside.
pub open spec fn control_point(path: Seq<PathPoint>, i: int) -> Position {
    if i < 0 {
        path[0].position
    } else if i >= path.len() {
        path[path.len() - 1].position
    } else {
        path[i].position
    }
}

/// The point of segment `i` of the curve at the fraction `t`.
pub open spec fn segment_point(path: Seq<PathPoint>, i: int, t: int) -> Position {
    spline_point(
        control_point(path, i - 1),
        control_point(path, i),
        control_point(path, i + 1),
        control_point(path, i + 2),
        t,
    )
}

/// The point of the curve at the parameter `t`, which is taken as zero when
/// below zero and as one when above one.
pub open spec fn curve_at(path: Seq<PathPoint>, t: int) -> Position {
    let tc = clamp(t, 0, SCALE as int);
    if path.len() == 0 {
        Position { x: 0, y: 0, z: 0 }
    } else if path.len() < 4 {
        path[nearest_index(path.len() as int, tc)].position
    } else {
        let i = segment_index(path.len() - 1, tc);
        segment_point(path, i, tc * (path.len() - 1) - i * SCALE)
    }
}

/// Most waypoints of a path whose curve is sampled for display.
pub const MAX_SAMPLED_WAYPOINTS: usize = 10_000;

/// The fraction of a segment at which its `j`-th sample of `n` is taken.
pub open spec fn sample_fraction(j: int, n: int) -> int {
    j * SCALE / n
}

/// The curve sampled for display: the first waypoint, and then of every
/// segment between two waypoints as many samples as the path has waypoints,
/// at equal fractions up to the end of the segment. A path of fewer than two
/// waypoints has no samples.
pub open spec fn sampled_curve(path: Seq<PathPoint>) -> Seq<Position> {
    if path.len() < 2 {
        Seq::empty()
    } else {
        Seq::new(
            (1 + (path.len() - 1) * path.len()) as nat,
            |k: int|
                if k == 0 {
                    path[0].position
                } else {
                    segment_point(
                        path,
                        (k - 1) / (path.len() as int),
                        sample_fraction((k - 1) % (path.len() as int) + 1, path.len() as int),
                    )
                },
        )
    }
}

/// The colour of the wires of a path: green.
pub open spec fn path_color() -> Color {
    Color { r: 0, g: 255, b: 0 }
}

/// The wires that join the samples of the curve, one to the next.
pub open spec fn path_wires(path: Seq<PathPoint>) -> Seq<Wire> {
    if path.len() < 2 {
        Seq::empty()
    } else {
        Seq::new(
            (sampled_curve(path).len() - 1) as nat,
            |k: int|
                Wire {
                    start: sampled_curve(path)[k],
                    end: sampled_curve(path)[k + 1],
                    color: path_color(),
                },
        )
    }
}

/// The `j`-th sample of `n` lies on its segment, and the last one at its end.
pub proof fn lemma_sample_fraction(j: int, n: int)
    requires
        1 <= j <= n,
    ensures
        0 <= j * SCALE <= n * SCALE,
        0 <= sample_fraction(j, n) <= SCALE,
        j == n ==> sample_fraction(j, n) == SCALE,
{
    assert(0 <= j * SCALE <= n * SCALE) by (nonlinear_arith)
        requires
            1 <= j <= n,
            SCALE == 1_000_000,
    ;
    vstd::arithmetic::div_mod::lemma_div_is_ordered(j * SCALE, n * SCALE, n);
    vstd::arithmetic::div_mod::lemma_div_multiples_vanish(SCALE as int, n);
    vstd::arithmetic::div_mod::lemma_div_pos_is_pos(j * SCALE, n);
    assert(n * SCALE == SCALE * n) by (nonlinear_arith);
}

/// Sample `j` of segment `i` stands at index `1 + i * n + (j - 1)`.
pub proof fn lemma_sample_index(i: int, j: int, n: int)
    requires
        0 <= i,
        1 <= j <= n,
    ensures
        (i * n + (j - 1)) / n == i,
        (i * n + (j - 1)) % n == j - 1,
        0 <= i * n,
        (i + 1) * n == i * n + n,
{
    vstd::arithmetic::div_mod::lemma_fundamental_div_mod_converse(i * n + (j - 1), n, i, j - 1);
    assert(0 <= i * n) by (nonlinear_arith)
        requires
            0 <= i,
            1 <= n,
    ;
    assert((i + 1) * n == i * n + n) by (nonlinear_arith);
}

/// The weights are bounded on a segment, are all zero but one at its ends,
/// and add up to two.
pub proof fn lemma_weights(t: int)
    requires
        0 <= t <= SCALE,
    ensures
        0 <= squared(t) <= SCALE,
        0 <= cubed(t) <= SCALE,
        -2 * SCALE <= weight_before(t) <= 2 * SCALE,
        -3 * SCALE <= weight_start(t) <= 5 * SCALE,
        -3 * SCALE <= weight_end(t) <= 5 * SCALE,
        -SCALE <= weight_after(t) <= SCALE,
        weight_before(t) + weight_start(t) + weight_end(t) + weight_after(t) == 2 * SCALE,
        t == 0 ==> weight_before(t) == 0 && weight_start(t) == 2 * SCALE && weight_end(t) == 0
            && weight_after(t) == 0,
        t == SCALE ==> weight_before(t) == 0 && weight_start(t) == 0 && weight_end(t) == 2
            * SCALE && weight_after(t) == 0,
{
    assert(0 <= t * t <= 1_000_000 * 1_000_000) by (nonlinear_arith)
        requires
            0 <= t <= 1_000_000,
    ;
    let s = squared(t);
    assert(0 <= s * t <= 1_000_000 * 1_000_000) by (nonlinear_arith)
        requires
            0 <= t <= 1_000_000,
            0 <= s <= 1_000_000,
    ;
    if t == 0 {
        assert(t * t == 0) by (nonlinear_arith)
            requires
                t == 0,
        ;
        assert(s * t == 0) by (nonlinear_arith)
            requires
                t == 0,
        ;
    }
    if t == SCALE {
        assert(t * t == 1_000_000_000_000) by (nonlinear_arith)
            requires
                t == 1_000_000,
        ;
        assert(s == 1_000_000);
        assert(s * t == 1_000_000_000_000) by (nonlinear_arith)
            requires
                t == 1_000_000,
                s == 1_000_000,
        ;
    }
}

/// A weight times a coordinate is bounded by the product of their bounds.
pub proof fn lemma_weighted(w: int, a: int, wmax: int, amax: int)
    requires
        -wmax <= w <= wmax,
        -amax <= a <= amax,
    ensures
        -(wmax * amax) <= w * a <= wmax * amax,
{
    assert(-(wmax * amax) <= w * a <= wmax * amax) by (nonlinear_arith)
        requires
            -wmax <= w <= wmax,
            -amax <= a <= amax,
    ;
}

/// A blend of coordinates of the workspace stays within `CURVE_LIMIT`; at the
/// start of a segment it is the coordinate of the start, and at the end that
/// of the end.
pub proof fn lemma_blend(a0: int, a1: int, a2: int, a3: int, t: int)
    requires
        0 <= t <= SCALE,
        -WORKSPACE_LIMIT <= a0 <= WORKSPACE_LIMIT,
        -WORKSPACE_LIMIT <= a1 <= WORKSPACE_LIMIT,
        -WORKSPACE_LIMIT <= a2 <= WORKSPACE_LIMIT,
        -WORKSPACE_LIMIT <= a3 <= WORKSPACE_LIMIT,
    ensures
        -2_000_000_000_000_000_000 <= weight_before(t) * a0 <= 2_000_000_000_000_000_000,
        -5_000_000_000_000_000_000 <= weight_start(t) * a1 <= 5_000_000_000_000_000_000,
        -5_000_000_000_000_000_000 <= weight_end(t) * a2 <= 5_000_000_000_000_000_000,
        -1_000_000_000_000_000_000 <= weight_after(t) * a3 <= 1_000_000_000_000_000_000,
        -13_000_000_000_000_000_000 <= blend_sum(a0, a1, a2, a3, t)
            <= 13_000_000_000_000_000_000,
        -CURVE_LIMIT <= blend(a0, a1, a2, a3, t) <= CURVE_LIMIT,
        t == 0 ==> blend(a0, a1, a2, a3, t) == a1,
        t == SCALE ==> blend(a0, a1, a2, a3, t) == a2,
{
    lemma_weights(t);
    lemma_weighted(weight_before(t), a0, 2_000_000, 1_000_000_000_000);
    lemma_weighted(weight_start(t), a1, 5_000_000, 1_000_000_000_000);
    lemma_weighted(weight_end(t), a2, 5_000_000, 1_000_000_000_000);
    lemma_weighted(weight_after(t), a3, 1_000_000, 1_000_000_000_000);
    if t == 0 {
        assert(weight_before(t) * a0 == 0) by (nonlinear_arith)
            requires
                weight_before(t) == 0,
        ;
        assert(weight_end(t) * a2 == 0) by (nonlinear_arith)
            requires
                weight_end(t) == 0,
        ;
        assert(weight_after(t) * a3 == 0) by (nonlinear_arith)
            requires
                weight_after(t) == 0,
        ;
        assert(weight_start(t) * a1 == 2_000_000 * a1);
    }
    if t == SCALE {
        assert(weight_before(t) * a0 == 0) by (nonlinear_arith)
            requires
                weight_before(t) == 0,
        ;
        assert(weight_start(t) * a1 == 0) by (nonlinear_arith)
            requires
                weight_start(t) == 0,
        ;
        assert(weight_after(t) * a3 == 0) by (nonlinear_arith)
            requires
                weight_after(t) == 0,
        ;
        assert(weight_end(t) * a2 == 2_000_000 * a2);
    }
}

/// One coordinate of the curve at the fraction `t` of a segment.
pub fn blend_coordinate(a0: i64, a1: i64, a2: i64, a3: i64, t: i64) -> (v: i64)
    requires
        0 <= t <= SCALE,
        -WORKSPACE_LIMIT <= a0 <= WORKSPACE_LIMIT,
        -WORKSPACE_LIMIT <= a1 <= WORKSPACE_LIMIT,
        -WORKSPACE_LIMIT <= a2 <= WORKSPACE_LIMIT,
        -WORKSPACE_LIMIT <= a3 <= WORKSPACE_LIMIT,
    ensures
        v == blend(a0 as int, a1 as int, a2 as int, a3 as int, t as int),
        -CURVE_LIMIT <= v <= CURVE_LIMIT,
        t == 0 ==> v == a1,
        t == SCALE ==> v == a2,
{
    proof {
        lemma_weights(t as int);
        lemma_blend(a0 as int, a1 as int, a2 as int, a3 as int, t as int);
        assert(0 <= t * t <= 1_000_000 * 1_000_000) by (nonlinear_arith)
            requires
                0 <= t <= 1_000_000,
        ;
    }
    let t2: i64 = t * t / SCALE;
    proof {
        assert(0 <= t2 * t <= 1_000_000 * 1_000_000) by (nonlinear_arith)
            requires
                0 <= t <= 1_000_000,
                0 <= t2 <= 1_000_000,
        ;
    }
    let t3: i64 = t2 * t / SCALE;
    let w0: i64 = -t3 + 2 * t2 - t;
    let w1: i64 = 3 * t3 - 5 * t2 + 2 * SCALE;
    let w2: i64 = -3 * t3 + 4 * t2 + t;
    let w3: i64 = t3 - t2;
    let sum: i128 = mul_wide(w0, a0) + mul_wide(w1, a1) + mul_wide(w2, a2) + mul_wide(w3, a3);
    let v: i128 = div_trunc(sum, (2 * SCALE) as i128);
    v as i64
}

impl Robot {
    /// The point of the curve at the fraction `t` of the segment from `start`
    /// to `end`; `before` and `after` are the control points on either side
    /// of it.
    pub fn catmull_rom_point(
        &self,
        before: Position,
        start: Position,
        end: Position,
        after: Position,
        t: i64,
    ) -> (p: Position)
        requires
            0 <= t <= SCALE,
            before.in_workspace(),
            start.in_workspace(),
            end.in_workspace(),
            after.in_workspace(),
        ensures
            p == spline_point(before, start, end, after, t as int),
            p.within(CURVE_LIMIT as int),
            t == 0 ==> p == start,
            t == SCALE ==> p == end,
    {
        let x: i64 = blend_coordinate(before.x, start.x, end.x, after.x, t);
        let y: i64 = blend_coordinate(before.y, start.y, end.y, after.y, t);
        let z: i64 = blend_coordinate(before.z, start.z, end.z, after.z, t);
        Position::new(x, y, z)
    }

    /// The control point at `i`: the waypoint there, or the last waypoint
    /// where the path ends before `i`.
    pub fn control_point_at(&self, i: usize) -> (p: Position)
        requires
            self.path_points@.len() > 0,
            path_in_workspace(self.path_points@),
        ensures
            p == control_point(self.path_points@, i as int),
            p.in_workspace(),
    {
        let n: usize = self.path_points.len();
        if i >= n {
            self.path_points[n - 1].position
        } else {
            self.path_points[i].position
        }
    }

    /// The control point before `i`: the waypoint there, or the first
    /// waypoint where `i` is the first itself.
    pub fn control_point_before(&self, i: usize) -> (p: Position)
        requires
            self.path_points@.len() > 0,
            path_in_workspace(self.path_points@),
        ensures
            p == control_point(self.path_points@, i - 1),
            p.in_workspace(),
    {
        if i == 0 {
            self.path_points[0].position
        } else {
            self.control_point_at(i - 1)
        }
    }

    /// The curve sampled for display, from the first waypoint to the last.
    pub fn generate_catmull_rom_spline(&self) -> (samples: Vec<Position>)
        requires
            path_in_workspace(self.path_points@),
            self.path_points@.len() <= MAX_SAMPLED_WAYPOINTS,
        ensures
            samples@ == sampled_curve(self.path_points@),
            self.path_points@.len() >= 2 ==> {
                &&& samples@.len() == 1 + (self.path_points@.len() - 1) * self.path_points@.len()
                &&& samples@.first() == self.path_points@.first().position
                &&& samples@.last() == self.path_points@.last().position
            },
            forall|k: int| 0 <= k < samples@.len() ==> (#[trigger] samples@[k]).within(CURVE_LIMIT as int),
    {
        let n: usize = self.path_points.len();
        let mut result: Vec<Position> = Vec::new();
        if n < 2 {
            return result;
        }
        let ghost path = self.path_points@;
        let ghost curve = sampled_curve(path);
        proof {
            assert(0 <= (n - 1) * n <= 10_000 * 10_000) by (nonlinear_arith)
                requires
                    2 <= n <= 10_000,
            ;
        }
        result.push(self.path_points[0].position);
        let mut i: usize = 0;
        while i < n - 1
            invariant
                0 <= i <= n - 1,
                2 <= n <= MAX_SAMPLED_WAYPOINTS,
                n == path.len(),
                path == self.path_points@,
                path_in_workspace(path),
                curve == sampled_curve(path),
                0 <= i * n <= (n - 1) * n <= 100_000_000,
                result@.len() == 1 + i * n,
                curve.len() == 1 + (n - 1) * n,
                forall|k: int| 0 <= k < result@.len() ==> #[trigger] result@[k] == curve[k],
                forall|k: int|
                    0 <= k < result@.len() ==> (#[trigger] result@[k]).within(CURVE_LIMIT as int),
                i > 0 ==> result@.last() == path[i as int].position,
            decreases n - 1 - i,
        {
            proof {
                assert((i + 1) * n <= (n - 1) * n) by (nonlinear_arith)
                    requires
                        i + 1 <= n - 1,
                        n >= 0,
                ;
                assert((i + 1) * n == i * n + n) by (nonlinear_arith);
            }
            let before = self.control_point_before(i);
            let start = self.control_point_at(i);
            let end = self.control_point_at(i + 1);
            let after = self.control_point_at(i + 2);
            let mut j: usize = 1;
            while j <= n
                invariant
                    1 <= j <= n + 1,
                    0 <= i < n - 1,
                    2 <= n <= MAX_SAMPLED_WAYPOINTS,
                    n == path.len(),
                    path == self.path_points@,
                    path_in_workspace(path),
                    curve == sampled_curve(path),
                    0 <= i * n <= (n - 1) * n <= 100_000_000,
                    (i + 1) * n <= (n - 1) * n,
                    before == control_point(path, i - 1),
                    start == control_point(path, i as int),
                    end == control_point(path, i + 1),
                    after == control_point(path, i + 2),
                    before.in_workspace(),
                    start.in_workspace(),
                    end.in_workspace(),
                    after.in_workspace(),
                    result@.len() == 1 + i * n + (j - 1),
                    curve.len() == 1 + (n - 1) * n,
                    forall|k: int| 0 <= k < result@.len() ==> #[trigger] result@[k] == curve[k],
                    forall|k: int|
                        0 <= k < result@.len() ==> (#[trigger] result@[k]).within(
                            CURVE_LIMIT as int,
                        ),
                    j > n ==> result@.last() == end,
                decreases n + 1 - j,
            {
                proof {
                    lemma_sample_fraction(j as int, n as int);
                    lemma_sample_index(i as int, j as int, n as int);
                }
                let t: i128 = mul_wide(j as i64, SCALE) / (n as i128);
                let point = self.catmull_rom_point(before, start, end, after, t as i64);
                result.push(point);
                j = j + 1;
            }
            proof {
                lemma_sample_index(i as int, 1, n as int);
                assert((i + 2) * n == (i + 1) * n + n) by (nonlinear_arith);
                if i + 1 < n - 1 {
                    assert((i + 2) * n <= (n - 1) * n) by (nonlinear_arith)
                        requires
                            i + 2 <= n - 1,
                            n >= 0,
                    ;
                }
            }
            i = i + 1;
        }
        result
    }

    /// The wires that draw the curve: one from each sample to the next, all
    /// green.
    pub fn get_path_wires(&self) -> (wires: Vec<Wire>)
        requires
            path_in_workspace(self.path_points@),
            self.path_points@.len() <= MAX_SAMPLED_WAYPOINTS,
        ensures
            wires@ == path_wires(self.path_points@),
            self.path_points@.len() >= 2 ==> {
                &&& wires@.len() == (self.path_points@.len() - 1) * self.path_points@.len()
                &&& wires@.first().start == self.path_points@.first().position
                &&& wires@.last().end == self.path_points@.last().position
            },
    {
        let mut wires: Vec<Wire> = Vec::new();
        if self.path_points.len() < 2 {
            return wires;
        }
        let spline_points = self.generate_catmull_rom_spline();
        proof {
            let n = self.path_points@.len() as int;
            assert((n - 1) * n >= 1) by (nonlinear_arith)
                requires
                    n >= 2,
            ;
        }
        let mut i: usize = 0;
        while i < spline_points.len() - 1
            invariant
                spline_points@.len() >= 2,
                0 <= i <= spline_points@.len() - 1,
                wires@.len() == i,
                forall|k: int|
                    0 <= k < i ==> #[trigger] wires@[k] == (Wire {
                        start: spline_points@[k],
                        end: spline_points@[k + 1],
                        color: path_color(),
                    }),
            decreases spline_points@.len() - i,
        {
            wires.push(
                Wire { start: spline_points[i], end: spline_points[i + 1], color: Color::new(0, 255, 0) },
            );
            i = i + 1;
        }
        wires
    }

    /// The planar coordinates of the curve at the parameter `t`, which runs
    /// from zero at the first waypoint to `SCALE` at the last.
    pub fn catmull_rom_spline(&self, t: i64) -> (p: (i64, i64))
        requires
            path_in_workspace(self.path_points@),
        ensures
            p.0 == curve_at(self.path_points@, t as int).x,
            p.1 == curve_at(self.path_points@, t as int).y,
            -CURVE_LIMIT <= p.0 <= CURVE_LIMIT,
            -CURVE_LIMIT <= p.1 <= CURVE_LIMIT,
            self.path_points@.len() == 0 ==> p.0 == 0 && p.1 == 0,
            self.path_points@.len() > 0 && t <= 0 ==> p.0 == self.path_points@.first().position.x
                && p.1 == self.path_points@.first().position.y,
            self.path_points@.len() > 0 && t >= SCALE ==> p.0
                == self.path_points@.last().position.x && p.1
                == self.path_points@.last().position.y,
    {
        let n: usize = self.path_points.len();
        if n == 0 {
            return (0, 0);
        }
        let tc: i64 = if t < 0 {
            0
        } else if t > SCALE {
            SCALE
        } else {
            t
        };
        if n < 4 {
            proof {
                lemma_nearest_index(n as int, tc as int);
            }
            let last: i64 = (n - 1) as i64;
            let idx: i64 = (2 * tc * last + SCALE) / (2 * SCALE);
            let pos = self.path_points[idx as usize].position;
            return (pos.x, pos.y);
        }
        let num_segments: usize = n - 1;
        proof {
            lemma_segment(num_segments as int, tc as int);
        }
        let segment_t: i128 = (tc as i128) * (num_segments as i128);
        let whole: i128 = segment_t / (SCALE as i128);
        let segment_idx: usize = if whole >= num_segments as i128 {
            num_segments - 1
        } else {
            whole as usize
        };
        let local_t: i128 = segment_t - (segment_idx as i128) * (SCALE as i128);
        let before = self.control_point_before(segment_idx);
        let start = self.control_point_at(segment_idx);
        let end = self.control_point_at(segment_idx + 1);
        let after = self.control_point_at(segment_idx + 2);
        let point = self.catmull_rom_point(before, start, end, after, local_t as i64);
        (point.x, point.y)
    }
}

/// On a path of one to three waypoints every parameter has a nearest
/// waypoint: the first for zero and the last for one.
pub proof fn lemma_nearest_index(len: int, t: int)
    requires
        1 <= len <= 3,
        0 <= t <= SCALE,
    ensures
        0 <= 2 * t <= 2 * SCALE,
        0 <= 2 * t * (len - 1) <= 4 * SCALE,
        0 <= nearest_index(len, t) <= len - 1,
        t == 0 ==> nearest_index(len, t) == 0,
        t == SCALE ==> nearest_index(len, t) == len - 1,
{
    let k = len - 1;
    if k == 0 {
        assert(2 * t * k == 0) by (nonlinear_arith)
            requires
                k == 0,
        ;
    } else if k == 1 {
        assert(2 * t * k == 2 * t) by (nonlinear_arith)
            requires
                k == 1,
        ;
    } else {
        assert(2 * t * k == 4 * t) by (nonlinear_arith)
            requires
                k == 2,
        ;
    }
    let v = 2 * t * k;
    assert(2 * t * (len - 1) == v);
    assert(nearest_index(len, t) == (v + 1_000_000) / 2_000_000);
    assert(0 <= v <= 2_000_000 * k);
    assert(0 <= (v + 1_000_000) / 2_000_000 <= k);
}

/// The parameter `t` falls in a segment that exists, at a fraction between
/// zero and one: zero of the first segment for `t` zero, and one of the last
/// for `t` one.
pub proof fn lemma_segment(segments: int, t: int)
    requires
        segments >= 1,
        0 <= t <= SCALE,
    ensures
        0 <= t * segments <= SCALE * segments,
        0 <= segment_index(segments, t) < segments,
        0 <= t * segments - segment_index(segments, t) * SCALE <= SCALE,
        t == 0 ==> segment_index(segments, t) == 0 && t * segments == 0,
        t == SCALE ==> segment_index(segments, t) == segments - 1 && t * segments
            - segment_index(segments, t) * SCALE == SCALE,
{
    assert(0 <= t * segments <= SCALE * segments) by (nonlinear_arith)
        requires
            0 <= t <= SCALE,
            segments >= 1,
    ;
    let whole = t * segments / (SCALE as int);
    vstd::arithmetic::div_mod::lemma_fundamental_div_mod(t * segments, SCALE as int);
    vstd::arithmetic::div_mod::lemma_div_is_ordered(t * segments, SCALE * segments, SCALE as int);
    vstd::arithmetic::div_mod::lemma_div_multiples_vanish(segments, SCALE as int);
    assert(whole <= segments);
    assert(SCALE * whole == whole * SCALE) by (nonlinear_arith);
    if t == 0 {
        assert(t * segments == 0) by (nonlinear_arith)
            requires
                t == 0,
        ;
    }
    if t == SCALE {
        assert(t * segments == SCALE * segments);
        assert(whole == segments);
        assert((segments - 1) * SCALE == segments * SCALE - SCALE) by (nonlinear_arith);
        assert(SCALE * segments == segments * SCALE) by (nonlinear_arith);
    }
    if whole >= segments {
        assert(whole == segments);
        assert(t * segments >= SCALE * segments) by (nonlinear_arith)
            requires
                t * segments == SCALE * whole + (t * segments) % (SCALE as int),
                (t * segments) % (SCALE as int) >= 0,
                whole == segments,
        ;
        assert((segments - 1) * SCALE == segments * SCALE - SCALE) by (nonlinear_arith);
        assert(SCALE * segments == segments * SCALE) by (nonlinear_arith);
    }
}

} // verus!
