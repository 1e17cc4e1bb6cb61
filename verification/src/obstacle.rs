//! Circular obstacles and the potential field they raise.
//!
//! Each obstacle raises a cosine bump over the disc of its calculation radius
//! and nothing outside it. The bump is not shifted to reach zero at the rim:
//! at the rim the potential is still about 0.54 of its peak, and it drops to
//! zero just outside. Fields of several obstacles add up.
use crate::error::PlanError;
use crate::fixed::{abs, clamp, cos_fixed, cos_poly, div_trunc, isqrt, mul_wide, sin_fixed, sin_poly, trunc_div};
use crate::fixed::{exp_neg, exp_neg_fixed, exp_pos, exp_pos_capped, EXP_CAP};
use crate::fixed::{lemma_cos_poly_range, lemma_sin_poly_range, lemma_sqrt_floor_monotone, lemma_sqrt_floor_of_square};
use crate::fixed::{HALF_PI, PI, SCALE, WORKSPACE_LIMIT};
use crate::position::{lemma_unit_component, Position, COORD_MAX};
use vstd::prelude::*;

verus! {

/// Safety margin added around every obstacle: a fifth of a unit.
pub const DEFAULT_BUFFER_RADIUS: i64 = 200_000;

/// Radius of the robot that plans around the obstacles: half a unit.
pub const DEFAULT_ROBOT_RADIUS: i64 = 500_000;

/// Distance from the centre below which the gradient has no direction: a
/// twenty-thousandth of a unit.
pub const GRADIENT_EPSILON: i64 = 50;

/// Damping applied to the gradient: a thousandth.
pub const ADJUST_RATE: i64 = 1_000;

/// Largest number of obstacles whose potentials are summed.
pub const MAX_OBSTACLES: usize = 1_000_000;

/// Upper bound of the potential of a single obstacle.
pub const POTENTIAL_MAX: i64 = 1_600_000_000_000;

/// Divisor that brings the product of amplitude and direction back to
/// millionths: `SCALE` cubed.
pub const GRADIENT_DIVISOR: i128 = 1_000_000_000_000_000_000;

/// A circular obstacle with its safety margins.
#[derive(Clone, Copy, Debug)]
pub struct Obstacle {
    center: Position,
    radius: i64,
    calculation_radius: i64,
    field_scale: i64,
    robot_radius: i64,
    buffer_radius: i64,
}

impl Obstacle {
    /// Centre of the obstacle.
    pub closed spec fn center(self) -> Position {
        self.center
    }

    /// Physical radius.
    pub closed spec fn radius(self) -> int {
        self.radius as int
    }

    /// Radius of the disc on which the field is non-zero: the physical radius
    /// widened by the robot's radius and the safety buffer.
    pub closed spec fn calculation_radius(self) -> int {
        self.calculation_radius as int
    }

    /// The calculation radius times the circle constant.
    pub closed spec fn field_scale(self) -> int {
        self.field_scale as int
    }

    /// Radius of the robot the margins were computed for.
    pub closed spec fn robot_radius(self) -> int {
        self.robot_radius as int
    }

    /// Safety buffer the margins were computed for.
    pub closed spec fn buffer_radius(self) -> int {
        self.buffer_radius as int
    }

    /// What every obstacle satisfies: a centre inside the workspace, a radius
    /// between zero and the workspace limit, and derived radii that agree.
    #[verifier::type_invariant]
    pub open spec fn wf(self) -> bool {
        &&& self.center().within(WORKSPACE_LIMIT as int)
        &&& 0 <= self.radius() <= WORKSPACE_LIMIT
        &&& self.robot_radius() == DEFAULT_ROBOT_RADIUS
        &&& self.buffer_radius() == DEFAULT_BUFFER_RADIUS
        &&& self.calculation_radius() == self.radius() + self.robot_radius() + self.buffer_radius()
        &&& self.field_scale() == self.calculation_radius() * PI / (SCALE as int)
    }

    /// The phase of the bump at distance `d` from the centre, in radians:
    /// zero at the centre and one at the rim. It is the distance over the
    /// calculation radius, which is the circle constant times the distance
    /// over the field scale.
    pub open spec fn phase(self, d: int) -> int {
        d * SCALE / self.calculation_radius()
    }

    /// Potential raised at `p`: zero outside the disc of the calculation
    /// radius, and `field_scale / 2 * cos(phase)` on it.
    pub open spec fn potential(self, p: Position) -> int {
        let d2 = p.dist_sq(self.center());
        if d2 > self.calculation_radius() * self.calculation_radius() {
            0
        } else {
            self.field_scale() * cos_poly(self.phase(p.distance(self.center()))) / (2 * SCALE)
        }
    }

    /// Whether the gradient at `p` is zero by definition: outside the disc, or
    /// too close to the centre to have a direction.
    pub open spec fn gradient_vanishes(self, p: Position) -> bool {
        ||| p.dist_sq(self.center()) > self.calculation_radius() * self.calculation_radius()
        ||| p.distance(self.center()) < GRADIENT_EPSILON
    }

    /// Damped magnitude of the gradient at distance `d`, before the final
    /// division: `HALF_PI * sin(phase) * ADJUST_RATE`.
    pub open spec fn gradient_amplitude(self, d: int) -> int {
        HALF_PI * sin_poly(self.phase(d)) * ADJUST_RATE
    }

    /// One component of the gradient at `p`, where `delta` is that component
    /// of `p - center`. The gradient points toward the centre, where the
    /// potential grows.
    pub open spec fn gradient_component(self, p: Position, delta: int) -> int {
        if self.gradient_vanishes(p) {
            0
        } else {
            let d = p.distance(self.center());
            trunc_div(
                -(self.gradient_amplitude(d) * trunc_div(delta * SCALE, d)),
                GRADIENT_DIVISOR as int,
            )
        }
    }

    /// The `x` component of the gradient at `p`.
    pub open spec fn gradient_x(self, p: Position) -> int {
        self.gradient_component(p, p.x - self.center().x)
    }

    /// The `y` component of the gradient at `p`.
    pub open spec fn gradient_y(self, p: Position) -> int {
        self.gradient_component(p, p.y - self.center().y)
    }

    /// The distance `d`, or a signed offset, as a multiple of the
    /// calculation radius.
    pub open spec fn in_radii(self, d: int) -> int {
        trunc_div(d * SCALE, self.calculation_radius())
    }

    /// Potential of the bell-shaped field at `p`: the field scale at the
    /// centre, falling by the factor `e` with every calculation radius of
    /// distance.
    pub open spec fn gaussian_potential(self, p: Position) -> int {
        self.field_scale() * exp_neg(self.in_radii(p.distance(self.center()))) / (SCALE as int)
    }

    /// The exponential that the bell-shaped gradient weighs an offset of
    /// `ratio` radii with: `exp(-ratio)`.
    pub open spec fn gaussian_weight(ratio: int) -> int {
        if ratio >= 0 {
            exp_neg(ratio)
        } else {
            exp_pos(-ratio)
        }
    }

    /// One component of the gradient of the bell-shaped field, for an offset
    /// of `delta` from the centre along that axis:
    /// `2 * PI * ratio * exp(-ratio)` with `ratio` the offset in radii,
    /// limited to what 64 bits hold.
    pub open spec fn gaussian_gradient_component(self, delta: int) -> int {
        let ratio = self.in_radii(delta);
        clamp(
            trunc_div(2 * PI * ratio * Self::gaussian_weight(ratio), SCALE * SCALE),
            i64::MIN as int,
            i64::MAX as int,
        )
    }

    /// Facts about a well-formed obstacle and a bounded point that the
    /// arithmetic of the field rests on.
    pub proof fn lemma_field_bounds(self, p: Position)
        requires
            self.wf(),
            p.within(COORD_MAX as int),
        ensures
            700_000 <= self.calculation_radius() <= 1_000_000_700_000,
            0 <= self.field_scale() <= 3_200_000_000_000,
            0 <= self.calculation_radius() * self.calculation_radius()
                <= 1_100_000_000_000_000_000_000_000,
            p.dist_sq(self.center()) <= self.calculation_radius() * self.calculation_radius() ==> {
                &&& 0 <= p.distance(self.center()) <= self.calculation_radius()
                &&& 0 <= p.distance(self.center()) * SCALE <= self.calculation_radius() * SCALE
                &&& 0 <= self.phase(p.distance(self.center())) <= SCALE
            },
            0 <= self.potential(p) <= POTENTIAL_MAX,
            p.dist_sq(self.center()) <= self.calculation_radius() * self.calculation_radius()
                ==> self.potential(p) >= self.field_scale() / 4,
    {
        let r = self.calculation_radius();
        let b = self.field_scale();
        assert(0 <= r * PI <= 1_000_000_700_000 * 3_141_593) by (nonlinear_arith)
            requires
                0 <= r <= 1_000_000_700_000,
                PI == 3_141_593,
        ;
        assert(0 <= r * r <= 1_100_000_000_000_000_000_000_000) by (nonlinear_arith)
            requires
                0 <= r <= 1_000_000_700_000,
        ;
        p.lemma_dist_sq_bound(self.center());
        let d2 = p.dist_sq(self.center());
        if d2 <= r * r {
            let d = p.distance(self.center());
            lemma_sqrt_floor_monotone(d2 as nat, (r * r) as nat);
            lemma_sqrt_floor_of_square(r as nat);
            assert(0 <= d * SCALE <= r * SCALE) by (nonlinear_arith)
                requires
                    0 <= d <= r,
                    SCALE == 1_000_000,
            ;
            vstd::arithmetic::div_mod::lemma_div_is_ordered(d * SCALE, r * SCALE, r);
            vstd::arithmetic::div_mod::lemma_div_multiples_vanish(SCALE as int, r);
            vstd::arithmetic::div_mod::lemma_div_pos_is_pos(d * SCALE, r);
            assert(r * SCALE == SCALE * r) by (nonlinear_arith);
            let theta = self.phase(d);
            assert(0 <= theta <= SCALE);
            lemma_cos_poly_range(theta);
            let c = cos_poly(theta);
            assert(b * 500_000 <= b * c <= b * 1_000_000) by (nonlinear_arith)
                requires
                    0 <= b,
                    500_000 <= c <= 1_000_000,
            ;
            vstd::arithmetic::div_mod::lemma_div_is_ordered(b * 500_000, b * c, 2 * SCALE);
            vstd::arithmetic::div_mod::lemma_div_is_ordered(b * c, b * 1_000_000, 2 * SCALE);
            assert((b * 500_000) / 2_000_000 == b / 4);
        }
    }

    /// An obstacle at `center` with physical radius `radius`, for a robot of
    /// the default radius and the default safety buffer.
    pub fn new(center: Position, radius: i64) -> (res: Result<Obstacle, PlanError>)
        ensures
            res is Err <==> radius < 0 || radius > WORKSPACE_LIMIT || !center.within(
                WORKSPACE_LIMIT as int,
            ),
            radius < 0 ==> res == Err::<Obstacle, PlanError>(PlanError::NegativeRadius),
            radius > WORKSPACE_LIMIT ==> res == Err::<Obstacle, PlanError>(
                PlanError::RadiusTooLarge,
            ),
            0 <= radius <= WORKSPACE_LIMIT && !center.within(WORKSPACE_LIMIT as int) ==> res
                == Err::<Obstacle, PlanError>(PlanError::OutOfWorkspace),
            res matches Ok(o) ==> {
                &&& o.wf()
                &&& o.center() == center
                &&& o.radius() == radius
            },
    {
        if radius < 0 {
            return Err(PlanError::NegativeRadius);
        }
        if radius > WORKSPACE_LIMIT {
            return Err(PlanError::RadiusTooLarge);
        }
        if !center.is_within(WORKSPACE_LIMIT) {
            return Err(PlanError::OutOfWorkspace);
        }
        let calculation_radius: i64 = radius + DEFAULT_ROBOT_RADIUS + DEFAULT_BUFFER_RADIUS;
        assert(0 <= calculation_radius * PI <= 1_000_000_700_000 * 3_141_593) by (nonlinear_arith)
            requires
                0 <= calculation_radius <= 1_000_000_700_000,
                PI == 3_141_593,
        ;
        let field_scale: i128 = mul_wide(calculation_radius, PI) / (SCALE as i128);
        Ok(
            Obstacle {
                center,
                radius,
                calculation_radius,
                field_scale: field_scale as i64,
                robot_radius: DEFAULT_ROBOT_RADIUS,
                buffer_radius: DEFAULT_BUFFER_RADIUS,
            },
        )
    }

    /// Centre of the obstacle.
    pub fn get_center(&self) -> (c: Position)
        ensures
            c == self.center(),
            c.within(WORKSPACE_LIMIT as int),
    {
        proof {
            use_type_invariant(self);
        }
        self.center
    }

    /// Physical radius.
    pub fn get_radius(&self) -> (r: i64)
        ensures
            r == self.radius(),
            0 <= r <= WORKSPACE_LIMIT,
    {
        proof {
            use_type_invariant(self);
        }
        self.radius
    }

    /// Radius of the disc on which the field is non-zero.
    pub fn get_calculation_radius(&self) -> (r: i64)
        ensures
            r == self.calculation_radius(),
            r == self.radius() + DEFAULT_ROBOT_RADIUS + DEFAULT_BUFFER_RADIUS,
    {
        proof {
            use_type_invariant(self);
        }
        self.calculation_radius
    }

    /// The calculation radius times the circle constant.
    pub fn get_field_scale(&self) -> (b: i64)
        ensures
            b == self.field_scale(),
            b == self.calculation_radius() * PI / (SCALE as int),
    {
        proof {
            use_type_invariant(self);
        }
        self.field_scale
    }

    /// Gives the obstacle a new physical radius and recomputes what derives
    /// from it. A radius that is refused leaves the obstacle as it was.
    pub fn set_radius(&mut self, radius: i64) -> (res: Result<(), PlanError>)
        ensures
            radius < 0 ==> res == Err::<(), PlanError>(PlanError::NegativeRadius),
            radius > WORKSPACE_LIMIT ==> res == Err::<(), PlanError>(PlanError::RadiusTooLarge),
            0 <= radius <= WORKSPACE_LIMIT ==> res is Ok,
            res is Err ==> *final(self) == *old(self),
            res is Ok ==> {
                &&& final(self).wf()
                &&& final(self).center() == old(self).center()
                &&& final(self).radius() == radius
            },
    {
        proof {
            use_type_invariant(&*self);
        }
        if radius < 0 {
            return Err(PlanError::NegativeRadius);
        }
        if radius > WORKSPACE_LIMIT {
            return Err(PlanError::RadiusTooLarge);
        }
        let calculation_radius: i64 = radius + DEFAULT_ROBOT_RADIUS + DEFAULT_BUFFER_RADIUS;
        assert(0 <= calculation_radius * PI <= 1_000_000_700_000 * 3_141_593) by (nonlinear_arith)
            requires
                0 <= calculation_radius <= 1_000_000_700_000,
                PI == 3_141_593,
        ;
        let field_scale: i128 = mul_wide(calculation_radius, PI) / (SCALE as i128);
        *self = Obstacle {
            center: self.center,
            radius,
            calculation_radius,
            field_scale: field_scale as i64,
            robot_radius: DEFAULT_ROBOT_RADIUS,
            buffer_radius: DEFAULT_BUFFER_RADIUS,
        };
        Ok(())
    }

    /// Potential of this obstacle at `pos`.
    pub fn cosine_field_function(&self, pos: Position) -> (v: i64)
        requires
            pos.within(COORD_MAX as int),
        ensures
            v == self.potential(pos),
            0 <= v <= POTENTIAL_MAX,
            pos.dist_sq(self.center()) > self.calculation_radius() * self.calculation_radius()
                ==> v == 0,
    {
        proof {
            use_type_invariant(self);
            self.lemma_field_bounds(pos);
            pos.lemma_dist_sq_bound(self.center);
        }
        let d2: u128 = pos.distance_squared_to(&self.center);
        let r2: i128 = mul_wide(self.calculation_radius, self.calculation_radius);
        if d2 > r2 as u128 {
            return 0;
        }
        let d: u64 = isqrt(d2);
        let theta: i128 = mul_wide(d as i64, SCALE) / (self.calculation_radius as i128);
        let c: i64 = cos_fixed(theta as i64);
        let v: i128 = mul_wide(self.field_scale, c) / ((2 * SCALE) as i128);
        v as i64
    }

    /// Gradient of the potential at `pos`, damped by [`ADJUST_RATE`]. It
    /// points toward the centre; the planner steps the other way.
    pub fn cosine_gradient_function(&self, pos: Position) -> (g: [i64; 2])
        requires
            pos.within(COORD_MAX as int),
        ensures
            g[0] == self.gradient_x(pos),
            g[1] == self.gradient_y(pos),
            -HALF_PI * ADJUST_RATE / (SCALE as int) <= g[0] <= HALF_PI * ADJUST_RATE / (SCALE as int),
            -HALF_PI * ADJUST_RATE / (SCALE as int) <= g[1] <= HALF_PI * ADJUST_RATE / (SCALE as int),
            pos.dist_sq(self.center()) > self.calculation_radius() * self.calculation_radius()
                ==> g[0] == 0 && g[1] == 0,
    {
        proof {
            use_type_invariant(self);
            self.lemma_field_bounds(pos);
            pos.lemma_dist_sq_bound(self.center);
            self.lemma_gradient_bounds(pos);
        }
        let d2: u128 = pos.distance_squared_to(&self.center);
        let r2: i128 = mul_wide(self.calculation_radius, self.calculation_radius);
        if d2 > r2 as u128 {
            return [0, 0];
        }
        let d: u64 = isqrt(d2);
        if d < GRADIENT_EPSILON as u64 {
            return [0, 0];
        }
        let dist: i64 = d as i64;
        let theta: i128 = mul_wide(dist, SCALE) / (self.calculation_radius as i128);
        let s: i64 = sin_fixed(theta as i64);
        let amplitude: i128 = mul_wide(HALF_PI, s) * (ADJUST_RATE as i128);
        let ux: i128 = div_trunc(mul_wide(pos.x - self.center.x, SCALE), dist as i128);
        let uy: i128 = div_trunc(mul_wide(pos.y - self.center.y, SCALE), dist as i128);
        let gx: i128 = div_trunc(-(amplitude * ux), GRADIENT_DIVISOR);
        let gy: i128 = div_trunc(-(amplitude * uy), GRADIENT_DIVISOR);
        [gx as i64, gy as i64]
    }

    /// Potential of the bell-shaped field of this obstacle at `pos`.
    pub fn gaussian_field_function(&self, pos: Position) -> (v: i64)
        requires
            pos.within(COORD_MAX as int),
        ensures
            v == self.gaussian_potential(pos),
            0 <= v <= self.field_scale(),
    {
        proof {
            use_type_invariant(self);
            self.lemma_field_bounds(pos);
            pos.lemma_dist_sq_bound(self.center);
        }
        let dist: i64 = pos.distance_to(&self.center);
        let ratio: i64 = self.offset_in_radii(dist);
        let e: i64 = exp_neg_fixed(ratio);
        proof {
            let b = self.field_scale as int;
            assert(0 <= b * e <= b * 1_000_000) by (nonlinear_arith)
                requires
                    0 <= b,
                    0 <= e <= 1_000_000,
            ;
        }
        let v: i128 = mul_wide(self.field_scale, e) / (SCALE as i128);
        v as i64
    }

    /// The offset `d` as a multiple of the calculation radius.
    pub fn offset_in_radii(&self, d: i64) -> (ratio: i64)
        requires
            -6_000_000_000_000_000_000 <= d <= 6_000_000_000_000_000_000,
        ensures
            ratio == self.in_radii(d as int),
            d >= 0 ==> ratio >= 0,
            d < 0 ==> ratio <= 0,
            -9_000_000_000_000_000_000 <= ratio <= 9_000_000_000_000_000_000,
    {
        proof {
            use_type_invariant(self);
            let r = self.calculation_radius as int;
            let a = abs(d as int);
            assert(0 <= a * SCALE <= 6_000_000_000_000_000_000 * 1_000_000) by (nonlinear_arith)
                requires
                    0 <= a <= 6_000_000_000_000_000_000,
                    SCALE == 1_000_000,
            ;
            vstd::arithmetic::div_mod::lemma_div_pos_is_pos(a * SCALE, r);
            vstd::arithmetic::div_mod::lemma_div_is_ordered_by_denominator(a * SCALE, 700_000, r);
            assert(-(d * SCALE) == (-d) * SCALE) by (nonlinear_arith);
        }
        let ratio: i128 = div_trunc(mul_wide(d, SCALE), self.calculation_radius as i128);
        ratio as i64
    }

    /// One component of the gradient of the bell-shaped field.
    pub fn gaussian_gradient_along(&self, delta: i64) -> (g: i64)
        requires
            -6_000_000_000_000_000_000 <= delta <= 6_000_000_000_000_000_000,
        ensures
            g == self.gaussian_gradient_component(delta as int),
    {
        let ratio: i64 = self.offset_in_radii(delta);
        if ratio >= 0 {
            let e: i64 = exp_neg_fixed(ratio);
            proof {
                assert(0 <= 2 * PI * ratio <= 2 * 3_141_593 * 9_000_000_000_000_000_000)
                    by (nonlinear_arith)
                    requires
                        0 <= ratio <= 9_000_000_000_000_000_000,
                        PI == 3_141_593,
                ;
                let a = 2 * PI * ratio;
                assert(0 <= a * e <= a * 1_000_000) by (nonlinear_arith)
                    requires
                        0 <= a,
                        0 <= e <= 1_000_000,
                ;
            }
            let a: i128 = mul_wide(2 * PI, ratio);
            let v: i128 = a * (e as i128) / ((SCALE as i128) * (SCALE as i128));
            if v > i64::MAX as i128 {
                i64::MAX
            } else {
                v as i64
            }
        } else {
            let size: i64 = -ratio;
            let e: i128 = exp_pos_capped(size);
            let a: i128 = mul_wide(2 * PI, size);
            let bound: i128 = 9_223_372_036_854_775_808_000_000_000_000;
            proof {
                assert(2 * 3_141_593 <= 2 * PI * size <= 2 * 3_141_593 * 9_000_000_000_000_000_000)
                    by (nonlinear_arith)
                    requires
                        1 <= size <= 9_000_000_000_000_000_000,
                        PI == 3_141_593,
                ;
                assert(2 * PI * ratio * exp_pos(size as int) == -(a * exp_pos(size as int)))
                    by (nonlinear_arith)
                    requires
                        a == 2 * PI * size,
                        size == -ratio,
                ;
            }
            if e > EXP_CAP || a > bound / e {
                proof {
                    let exact = exp_pos(size as int);
                    let q = bound / e;
                    vstd::arithmetic::div_mod::lemma_fundamental_div_mod(bound as int, e as int);
                    if e > EXP_CAP {
                        assert(a * exact >= bound) by (nonlinear_arith)
                            requires
                                a >= 6_283_186,
                                exact >= e,
                                e > 10_000_000_000_000_000_000_000_000,
                                bound == 9_223_372_036_854_775_808_000_000_000_000,
                        ;
                    } else {
                        assert(a * exact >= bound) by (nonlinear_arith)
                            requires
                                a >= q + 1,
                                exact == e,
                                e > 0,
                                bound == e * q + bound % e,
                                0 <= bound % e < e,
                        ;
                    }
                    vstd::arithmetic::div_mod::lemma_div_is_ordered(
                        bound as int,
                        a * exact,
                        SCALE * SCALE,
                    );
                    assert(SCALE * SCALE == 1_000_000_000_000) by (nonlinear_arith)
                        requires
                            SCALE == 1_000_000,
                    ;
                }
                i64::MIN
            } else {
                proof {
                    let q = bound / e;
                    vstd::arithmetic::div_mod::lemma_fundamental_div_mod(bound as int, e as int);
                    assert(0 <= a * e <= bound) by (nonlinear_arith)
                        requires
                            0 <= a <= q,
                            e > 0,
                            bound == e * q + bound % e,
                            0 <= bound % e < e,
                    ;
                    vstd::arithmetic::div_mod::lemma_div_is_ordered(
                        a * e,
                        bound as int,
                        SCALE * SCALE,
                    );
                    assert(SCALE * SCALE == 1_000_000_000_000) by (nonlinear_arith)
                        requires
                            SCALE == 1_000_000,
                    ;
                }
                let v: i128 = -(a * e / ((SCALE as i128) * (SCALE as i128)));
                v as i64
            }
        }
    }

    /// Gradient of the bell-shaped field at `pos`, one component for each
    /// axis.
    pub fn gaussian_gradient_function(&self, pos: Position) -> (g: [i64; 2])
        requires
            pos.within(COORD_MAX as int),
        ensures
            g[0] == self.gaussian_gradient_component(pos.x - self.center().x),
            g[1] == self.gaussian_gradient_component(pos.y - self.center().y),
    {
        proof {
            use_type_invariant(self);
        }
        let gx: i64 = self.gaussian_gradient_along(pos.x - self.center.x);
        let gy: i64 = self.gaussian_gradient_along(pos.y - self.center.y);
        [gx, gy]
    }

    /// Bounds on the pieces of the gradient where it does not vanish.
    pub proof fn lemma_gradient_bounds(self, p: Position)
        requires
            self.wf(),
            p.within(COORD_MAX as int),
        ensures
            !self.gradient_vanishes(p) ==> {
                let d = p.distance(self.center());
                let a = self.gradient_amplitude(d);
                let ux = trunc_div((p.x - self.center().x) * SCALE, d);
                let uy = trunc_div((p.y - self.center().y) * SCALE, d);
                &&& 0 <= HALF_PI * sin_poly(self.phase(d)) <= HALF_PI * SCALE
                &&& 0 <= a <= HALF_PI * SCALE * ADJUST_RATE
                &&& -SCALE <= ux <= SCALE
                &&& -SCALE <= uy <= SCALE
                &&& -(HALF_PI * SCALE * ADJUST_RATE * SCALE) <= a * ux <= HALF_PI * SCALE
                    * ADJUST_RATE * SCALE
                &&& -(HALF_PI * SCALE * ADJUST_RATE * SCALE) <= a * uy <= HALF_PI * SCALE
                    * ADJUST_RATE * SCALE
            },
            -HALF_PI * ADJUST_RATE / (SCALE as int) <= self.gradient_x(p) <= HALF_PI * ADJUST_RATE
                / (SCALE as int),
            -HALF_PI * ADJUST_RATE / (SCALE as int) <= self.gradient_y(p) <= HALF_PI * ADJUST_RATE
                / (SCALE as int),
    {
        self.lemma_field_bounds(p);
        p.lemma_dist_sq_bound(self.center());
        if !self.gradient_vanishes(p) {
            let d = p.distance(self.center());
            let theta = self.phase(d);
            lemma_sin_poly_range(theta);
            let s = sin_poly(theta);
            assert(0 <= HALF_PI * s <= HALF_PI * SCALE) by (nonlinear_arith)
                requires
                    0 <= s <= SCALE,
                    HALF_PI == 1_570_796,
            ;
            let a = self.gradient_amplitude(d);
            lemma_unit_component(p.x - self.center().x, d);
            lemma_unit_component(p.y - self.center().y, d);
            let ux = trunc_div((p.x - self.center().x) * SCALE, d);
            let uy = trunc_div((p.y - self.center().y) * SCALE, d);
            lemma_scaled_component(a, ux);
            lemma_scaled_component(a, uy);
        }
    }
}

/// An amplitude times a unit component, brought back to millionths, is at
/// most the damped half circle constant.
pub proof fn lemma_scaled_component(a: int, u: int)
    requires
        0 <= a <= 1_570_796_000_000_000,
        -1_000_000 <= u <= 1_000_000,
    ensures
        -1_570_796_000_000_000_000_000 <= a * u <= 1_570_796_000_000_000_000_000,
        -1570 <= trunc_div(-(a * u), GRADIENT_DIVISOR as int) <= 1570,
{
    assert(-1_570_796_000_000_000_000_000 <= a * u <= 1_570_796_000_000_000_000_000)
        by (nonlinear_arith)
        requires
            0 <= a <= 1_570_796_000_000_000,
            -1_000_000 <= u <= 1_000_000,
    ;
}

/// Sum of the potentials that the obstacles raise at `p`.
pub open spec fn total_potential(obstacles: Seq<Obstacle>, p: Position) -> int
    decreases obstacles.len(),
{
    if obstacles.len() == 0 {
        0
    } else {
        total_potential(obstacles.drop_last(), p) + obstacles.last().potential(p)
    }
}

/// Sum of the potentials that the bell-shaped fields of the obstacles raise
/// at `p`.
pub open spec fn total_gaussian(obstacles: Seq<Obstacle>, p: Position) -> int
    decreases obstacles.len(),
{
    if obstacles.len() == 0 {
        0
    } else {
        total_gaussian(obstacles.drop_last(), p) + obstacles.last().gaussian_potential(p)
    }
}

/// Total potential of the bell-shaped fields of the obstacles at `pos`.
pub fn gaussian_potential_at(obstacles: &[Obstacle], pos: Position) -> (sum: i64)
    requires
        obstacles@.len() <= MAX_OBSTACLES,
        pos.within(COORD_MAX as int),
    ensures
        sum == total_gaussian(obstacles@, pos),
        0 <= sum <= obstacles@.len() * (2 * POTENTIAL_MAX),
        obstacles@.len() == 0 ==> sum == 0,
{
    let mut sum: i64 = 0;
    let mut i: usize = 0;
    while i < obstacles.len()
        invariant
            i <= obstacles@.len() <= MAX_OBSTACLES,
            pos.within(COORD_MAX as int),
            sum == total_gaussian(obstacles@.take(i as int), pos),
            0 <= sum <= i * (2 * POTENTIAL_MAX),
        decreases obstacles@.len() - i,
    {
        let obstacle = &obstacles[i];
        let v: i64 = obstacle.gaussian_field_function(pos);
        proof {
            use_type_invariant(obstacle);
            obstacle.lemma_field_bounds(pos);
            assert(obstacles@.take(i + 1).drop_last() =~= obstacles@.take(i as int));
            assert((i + 1) * (2 * POTENTIAL_MAX) == i * (2 * POTENTIAL_MAX) + 2 * POTENTIAL_MAX)
                by (nonlinear_arith);
            assert(i * (2 * POTENTIAL_MAX) <= 1_000_000 * (2 * POTENTIAL_MAX)) by (nonlinear_arith)
                requires
                    i <= 1_000_000,
                    POTENTIAL_MAX == 1_600_000_000_000,
            ;
        }
        sum = sum + v;
        i = i + 1;
    }
    proof {
        assert(obstacles@.take(i as int) =~= obstacles@);
    }
    sum
}

/// Total potential of the obstacles at `pos`.
pub fn potential_at(obstacles: &[Obstacle], pos: Position) -> (sum: i64)
    requires
        obstacles@.len() <= MAX_OBSTACLES,
        pos.within(COORD_MAX as int),
    ensures
        sum == total_potential(obstacles@, pos),
        0 <= sum <= obstacles@.len() * POTENTIAL_MAX,
        obstacles@.len() == 0 ==> sum == 0,
{
    let mut sum: i64 = 0;
    let mut i: usize = 0;
    while i < obstacles.len()
        invariant
            i <= obstacles@.len() <= MAX_OBSTACLES,
            pos.within(COORD_MAX as int),
            sum == total_potential(obstacles@.take(i as int), pos),
            0 <= sum <= i * POTENTIAL_MAX,
        decreases obstacles@.len() - i,
    {
        let v: i64 = obstacles[i].cosine_field_function(pos);
        proof {
            assert(obstacles@.take(i + 1).drop_last() =~= obstacles@.take(i as int));
            assert(obstacles@.take(i + 1).last() == obstacles@[i as int]);
            assert((i + 1) * POTENTIAL_MAX == i * POTENTIAL_MAX + POTENTIAL_MAX)
                by (nonlinear_arith);
            assert(i * POTENTIAL_MAX <= 1_000_000 * POTENTIAL_MAX) by (nonlinear_arith)
                requires
                    i <= 1_000_000,
                    POTENTIAL_MAX == 1_600_000_000_000,
            ;
        }
        sum = sum + v;
        i = i + 1;
    }
    proof {
        assert(obstacles@.take(i as int) =~= obstacles@);
    }
    sum
}

/// Total potential of the obstacles at the point `(x, y)`.
pub fn obstacle_sum(obstacles: &[Obstacle], x: i64, y: i64) -> (sum: i64)
    requires
        obstacles@.len() <= MAX_OBSTACLES,
        -COORD_MAX <= x <= COORD_MAX,
        -COORD_MAX <= y <= COORD_MAX,
    ensures
        sum == total_potential(obstacles@, Position { x, y, z: 0 }),
        sum >= 0,
        obstacles@.len() == 0 ==> sum == 0,
{
    potential_at(obstacles, Position::new(x, y, 0))
}

} // verus!
