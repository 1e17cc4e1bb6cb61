//! Points and planar vectors in fixed-point coordinates.
use crate::fixed::{abs, div_trunc, isqrt, mul_wide, sqrt_floor, trunc_div, SCALE, WORKSPACE_LIMIT};
use crate::fixed::{lemma_sqrt_floor_bounds, lemma_sqrt_floor_monotone, lemma_sqrt_floor_of_square};
use vstd::prelude::*;

verus! {

/// Largest coordinate magnitude for which planar distances and products are
/// computed: large enough for any difference of workspace points.
pub const COORD_MAX: i64 = 2_000_000_000_000_000_000;

/// Tolerance of [`Position::approx_equals`]: a ten-thousandth of a unit.
pub const APPROX_EPSILON: i64 = 100;

/// A point, or a vector, with coordinates in millionths. Distances, dot
/// products and normalization are planar: they read `x` and `y` only.
#[derive(Clone, Copy, Debug, PartialEq, Eq, Structural)]
pub struct Position {
    pub x: i64,
    pub y: i64,
    pub z: i64,
}

impl Default for Position {
    fn default() -> (p: Position)
        ensures
            p == (Position { x: 0, y: 0, z: 0 }),
    {
        Position { x: 0, y: 0, z: 0 }
    }
}

impl Position {
    /// Both planar coordinates have magnitude at most `limit`.
    pub open spec fn within(self, limit: int) -> bool {
        &&& -limit <= self.x <= limit
        &&& -limit <= self.y <= limit
    }

    /// The point lies in the workspace, and its third coordinate is no
    /// larger than the workspace is wide.
    pub open spec fn in_workspace(self) -> bool {
        &&& self.within(WORKSPACE_LIMIT as int)
        &&& -WORKSPACE_LIMIT <= self.z <= WORKSPACE_LIMIT
    }

    /// Squared planar distance between two points.
    pub open spec fn dist_sq(self, other: Position) -> int {
        (self.x - other.x) * (self.x - other.x) + (self.y - other.y) * (self.y - other.y)
    }

    /// Planar distance between two points, rounded down.
    pub open spec fn distance(self, other: Position) -> int {
        sqrt_floor(self.dist_sq(other) as nat) as int
    }

    /// Planar dot product, in squared units.
    pub open spec fn dot_spec(self, other: Position) -> int {
        self.x * other.x + self.y * other.y
    }

    /// Planar cross product, in squared units: positive when `other` lies to
    /// the left of `self`.
    pub open spec fn cross_spec(self, other: Position) -> int {
        self.x * other.y - self.y * other.x
    }

    /// Planar length, rounded down.
    pub open spec fn length(self) -> int {
        sqrt_floor((self.x * self.x + self.y * self.y) as nat) as int
    }

    /// The planar direction of a vector as a vector of length one unit, or the
    /// zero vector when the length rounds down to zero.
    pub open spec fn direction(self) -> Position {
        if self.length() <= 0 {
            Position { x: 0, y: 0, z: 0 }
        } else {
            Position {
                x: trunc_div(self.x * SCALE, self.length()) as i64,
                y: trunc_div(self.y * SCALE, self.length()) as i64,
                z: 0,
            }
        }
    }

    /// Componentwise closeness within [`APPROX_EPSILON`], `z` included.
    pub open spec fn approx_eq(self, other: Position) -> bool {
        &&& abs(self.x - other.x) < APPROX_EPSILON
        &&& abs(self.y - other.y) < APPROX_EPSILON
        &&& abs(self.z - other.z) < APPROX_EPSILON
    }

    /// Squares and their sum stay far inside 128 bits for bounded points.
    pub proof fn lemma_dist_sq_bound(self, other: Position)
        requires
            self.within(COORD_MAX as int),
            other.within(COORD_MAX as int),
        ensures
            0 <= (self.x - other.x) * (self.x - other.x) <= 16_000_000_000_000_000_000_000_000_000_000_000_000,
            0 <= (self.y - other.y) * (self.y - other.y) <= 16_000_000_000_000_000_000_000_000_000_000_000_000,
            0 <= self.dist_sq(other) <= 32_000_000_000_000_000_000_000_000_000_000_000_000,
            0 <= self.distance(other) <= 6_000_000_000_000_000_000,
            abs(self.x - other.x) <= self.distance(other),
            abs(self.y - other.y) <= self.distance(other),
    {
        let dx = self.x - other.x;
        let dy = self.y - other.y;
        assert(0 <= dx * dx <= 16_000_000_000_000_000_000_000_000_000_000_000_000) by (nonlinear_arith)
            requires
                -4_000_000_000_000_000_000 <= dx <= 4_000_000_000_000_000_000,
        ;
        assert(0 <= dy * dy <= 16_000_000_000_000_000_000_000_000_000_000_000_000) by (nonlinear_arith)
            requires
                -4_000_000_000_000_000_000 <= dy <= 4_000_000_000_000_000_000,
        ;
        let n = self.dist_sq(other) as nat;
        lemma_sqrt_floor_bounds(n);
        let r = sqrt_floor(n);
        assert(r <= 6_000_000_000_000_000_000) by (nonlinear_arith)
            requires
                r * r <= n,
                n <= 32_000_000_000_000_000_000_000_000_000_000_000_000,
        ;
        let ax = abs(dx) as nat;
        let ay = abs(dy) as nat;
        assert(ax * ax == dx * dx) by (nonlinear_arith)
            requires
                ax == dx || ax == -dx,
        ;
        assert(ay * ay == dy * dy) by (nonlinear_arith)
            requires
                ay == dy || ay == -dy,
        ;
        lemma_sqrt_floor_of_square(ax);
        lemma_sqrt_floor_of_square(ay);
        lemma_sqrt_floor_monotone(ax * ax, n);
        lemma_sqrt_floor_monotone(ay * ay, n);
    }

    /// The origin.
    pub fn origin() -> (p: Position)
        ensures
            p == (Position { x: 0, y: 0, z: 0 }),
    {
        Position { x: 0, y: 0, z: 0 }
    }

    /// A point with the given coordinates.
    pub fn new(x: i64, y: i64, z: i64) -> (p: Position)
        ensures
            p == (Position { x, y, z }),
    {
        Position { x, y, z }
    }

    /// Whether both planar coordinates have magnitude at most `limit`.
    pub fn is_within(&self, limit: i64) -> (b: bool)
        ensures
            b == self.within(limit as int),
    {
        limit >= 0 && -limit <= self.x && self.x <= limit && -limit <= self.y && self.y <= limit
    }

    /// Whether the point lies in the workspace and its third coordinate is
    /// no larger than the workspace is wide.
    pub fn is_in_workspace(&self) -> (b: bool)
        ensures
            b == self.in_workspace(),
    {
        self.is_within(WORKSPACE_LIMIT) && -WORKSPACE_LIMIT <= self.z && self.z <= WORKSPACE_LIMIT
    }

    /// Moves the point in place.
    pub fn move_by(&mut self, dx: i64, dy: i64, dz: i64)
        requires
            i64::MIN <= old(self).x + dx <= i64::MAX,
            i64::MIN <= old(self).y + dy <= i64::MAX,
            i64::MIN <= old(self).z + dz <= i64::MAX,
        ensures
            final(self).x == old(self).x + dx,
            final(self).y == old(self).y + dy,
            final(self).z == old(self).z + dz,
    {
        self.x = self.x + dx;
        self.y = self.y + dy;
        self.z = self.z + dz;
    }

    /// The vector scaled by the fixed-point factor `scalar`, each component
    /// rounded toward zero. The receiver is left as it was.
    pub fn scalar(&mut self, scalar: i64) -> (p: Position)
        requires
            i64::MIN <= trunc_div(old(self).x * scalar, SCALE as int) <= i64::MAX,
            i64::MIN <= trunc_div(old(self).y * scalar, SCALE as int) <= i64::MAX,
            i64::MIN <= trunc_div(old(self).z * scalar, SCALE as int) <= i64::MAX,
        ensures
            *final(self) == *old(self),
            p.x == trunc_div(old(self).x * scalar, SCALE as int),
            p.y == trunc_div(old(self).y * scalar, SCALE as int),
            p.z == trunc_div(old(self).z * scalar, SCALE as int),
    {
        let x: i128 = div_trunc(mul_wide(self.x, scalar), SCALE as i128);
        let y: i128 = div_trunc(mul_wide(self.y, scalar), SCALE as i128);
        let z: i128 = div_trunc(mul_wide(self.z, scalar), SCALE as i128);
        Position { x: x as i64, y: y as i64, z: z as i64 }
    }

    /// Whether every coordinate of the two points differs by less than
    /// [`APPROX_EPSILON`].
    pub fn approx_equals(&self, other: &Position) -> (b: bool)
        ensures
            b == self.approx_eq(*other),
    {
        let dx: i128 = self.x as i128 - other.x as i128;
        let dy: i128 = self.y as i128 - other.y as i128;
        let dz: i128 = self.z as i128 - other.z as i128;
        let e: i128 = APPROX_EPSILON as i128;
        -e < dx && dx < e && -e < dy && dy < e && -e < dz && dz < e
    }

    /// Squared planar distance to `other`.
    pub fn distance_squared_to(&self, other: &Position) -> (d: u128)
        requires
            self.within(COORD_MAX as int),
            other.within(COORD_MAX as int),
        ensures
            d == self.dist_sq(*other),
    {
        proof {
            self.lemma_dist_sq_bound(*other);
        }
        let dx: i64 = self.x - other.x;
        let dy: i64 = self.y - other.y;
        let sx: i128 = mul_wide(dx, dx);
        let sy: i128 = mul_wide(dy, dy);
        (sx + sy) as u128
    }

    /// Planar distance to `other`, rounded down.
    pub fn distance_to(&self, other: &Position) -> (d: i64)
        requires
            self.within(COORD_MAX as int),
            other.within(COORD_MAX as int),
        ensures
            d == self.distance(*other),
            d >= 0,
    {
        proof {
            self.lemma_dist_sq_bound(*other);
        }
        let r: u64 = isqrt(self.distance_squared_to(other));
        r as i64
    }

    /// Planar dot product, in squared units.
    pub fn dot(&self, other: &Position) -> (d: i128)
        requires
            self.within(COORD_MAX as int),
            other.within(COORD_MAX as int),
        ensures
            d == self.dot_spec(*other),
    {
        proof {
            lemma_product_bound(self.x as int, other.x as int);
            lemma_product_bound(self.y as int, other.y as int);
        }
        let a: i128 = mul_wide(self.x, other.x);
        let b: i128 = mul_wide(self.y, other.y);
        a + b
    }

    /// The planar direction of the vector: one unit long, `z` zero; the zero
    /// vector when the length rounds down to zero.
    #[allow(non_snake_case)]
    pub fn norm2D(&self) -> (p: Position)
        requires
            self.within(COORD_MAX as int),
        ensures
            p == self.direction(),
            p.within(SCALE as int),
            p.z == 0,
    {
        let origin = Position { x: 0, y: 0, z: 0 };
        proof {
            self.lemma_dist_sq_bound(origin);
            self.lemma_direction_bound();
        }
        let norm: i64 = self.distance_to(&origin);
        if norm <= 0 {
            return Position { x: 0, y: 0, z: 0 };
        }
        let x: i128 = div_trunc(mul_wide(self.x, SCALE), norm as i128);
        let y: i128 = div_trunc(mul_wide(self.y, SCALE), norm as i128);
        Position { x: x as i64, y: y as i64, z: 0 }
    }

    /// A direction has components of magnitude at most one unit.
    pub proof fn lemma_direction_bound(self)
        requires
            self.within(COORD_MAX as int),
        ensures
            self.length() > 0 ==> -SCALE <= trunc_div(self.x * SCALE, self.length()) <= SCALE,
            self.length() > 0 ==> -SCALE <= trunc_div(self.y * SCALE, self.length()) <= SCALE,
            self.direction().within(SCALE as int),
            self.length() == self.distance(Position { x: 0, y: 0, z: 0 }),
    {
        let origin = Position { x: 0, y: 0, z: 0 };
        self.lemma_dist_sq_bound(origin);
        let n = self.length();
        assert(self.dist_sq(origin) == self.x * self.x + self.y * self.y);
        if n > 0 {
            lemma_unit_component(self.x as int, n);
            lemma_unit_component(self.y as int, n);
        }
    }

    /// A vector inside a square is at most twice as long as half its side.
    pub proof fn lemma_length_bound(self, limit: int)
        requires
            0 <= limit <= COORD_MAX,
            self.within(limit),
        ensures
            0 <= self.length() <= 2 * limit,
            self.length() == self.distance(Position { x: 0, y: 0, z: 0 }),
            -2 * (limit * limit) <= self.x * self.x + self.y * self.y <= 2 * (limit * limit),
    {
        let origin = Position { x: 0, y: 0, z: 0 };
        self.lemma_dist_sq_bound(origin);
        let x = self.x as int;
        let y = self.y as int;
        assert(0 <= x * x <= limit * limit) by (nonlinear_arith)
            requires
                -limit <= x <= limit,
        ;
        assert(0 <= y * y <= limit * limit) by (nonlinear_arith)
            requires
                -limit <= y <= limit,
        ;
        let n = (x * x + y * y) as nat;
        assert(self.dist_sq(origin) == x * x + y * y);
        let r = sqrt_floor(n);
        lemma_sqrt_floor_bounds(n);
        assert(r <= 2 * limit) by (nonlinear_arith)
            requires
                r * r <= n,
                n <= 2 * (limit * limit),
                0 <= limit,
                0 <= r,
        ;
    }

    /// The dot product of two vectors inside a square is bounded by the
    /// square of its side.
    pub proof fn lemma_dot_bound(self, other: Position, limit: int)
        requires
            0 <= limit,
            self.within(limit),
            other.within(limit),
        ensures
            -2 * (limit * limit) <= self.dot_spec(other) <= 2 * (limit * limit),
    {
        let a = self.x as int;
        let b = other.x as int;
        let c = self.y as int;
        let d = other.y as int;
        assert(-(limit * limit) <= a * b <= limit * limit) by (nonlinear_arith)
            requires
                -limit <= a <= limit,
                -limit <= b <= limit,
        ;
        assert(-(limit * limit) <= c * d <= limit * limit) by (nonlinear_arith)
            requires
                -limit <= c <= limit,
                -limit <= d <= limit,
        ;
    }

    /// The cross product of two vectors inside a square is bounded by the
    /// square of its side.
    pub proof fn lemma_cross_bound(self, other: Position, limit: int)
        requires
            0 <= limit,
            self.within(limit),
            other.within(limit),
        ensures
            -2 * (limit * limit) <= self.cross_spec(other) <= 2 * (limit * limit),
    {
        let a = self.x as int;
        let b = other.y as int;
        let c = self.y as int;
        let d = other.x as int;
        assert(-(limit * limit) <= a * b <= limit * limit) by (nonlinear_arith)
            requires
                -limit <= a <= limit,
                -limit <= b <= limit,
        ;
        assert(-(limit * limit) <= c * d <= limit * limit) by (nonlinear_arith)
            requires
                -limit <= c <= limit,
                -limit <= d <= limit,
        ;
    }

    /// Planar cross product, in squared units.
    pub fn cross(&self, other: &Position) -> (c: i128)
        requires
            self.within(COORD_MAX as int),
            other.within(COORD_MAX as int),
        ensures
            c == self.cross_spec(*other),
    {
        proof {
            lemma_product_bound(self.x as int, other.y as int);
            lemma_product_bound(self.y as int, other.x as int);
        }
        let a: i128 = mul_wide(self.x, other.y);
        let b: i128 = mul_wide(self.y, other.x);
        a - b
    }

    /// Planar length, rounded down.
    pub fn norm(&self) -> (n: i64)
        requires
            self.within(COORD_MAX as int),
        ensures
            n == self.length(),
            n >= 0,
    {
        proof {
            self.lemma_length_bound(COORD_MAX as int);
        }
        self.distance_to(&Position { x: 0, y: 0, z: 0 })
    }

    /// Componentwise difference `self - other`.
    pub fn minus(&self, other: &Position) -> (p: Position)
        requires
            i64::MIN <= self.x - other.x <= i64::MAX,
            i64::MIN <= self.y - other.y <= i64::MAX,
            i64::MIN <= self.z - other.z <= i64::MAX,
        ensures
            p.x == self.x - other.x,
            p.y == self.y - other.y,
            p.z == self.z - other.z,
    {
        Position { x: self.x - other.x, y: self.y - other.y, z: self.z - other.z }
    }
}

/// The product of two bounded coordinates is bounded.
pub proof fn lemma_product_bound(a: int, b: int)
    requires
        -COORD_MAX <= a <= COORD_MAX,
        -COORD_MAX <= b <= COORD_MAX,
    ensures
        -4_000_000_000_000_000_000_000_000_000_000_000_000 <= a * b
            <= 4_000_000_000_000_000_000_000_000_000_000_000_000,
{
    assert(-4_000_000_000_000_000_000_000_000_000_000_000_000 <= a * b
        <= 4_000_000_000_000_000_000_000_000_000_000_000_000) by (nonlinear_arith)
        requires
            -2_000_000_000_000_000_000 <= a <= 2_000_000_000_000_000_000,
            -2_000_000_000_000_000_000 <= b <= 2_000_000_000_000_000_000,
    ;
}

/// A component no longer than the vector, scaled to a unit vector, is at most
/// one unit.
pub proof fn lemma_unit_component(a: int, n: int)
    requires
        n > 0,
        abs(a) <= n,
    ensures
        -SCALE <= trunc_div(a * SCALE, n) <= SCALE,
{
    if a >= 0 {
        assert(0 <= a * SCALE <= n * SCALE) by (nonlinear_arith)
            requires
                0 <= a <= n,
                SCALE == 1_000_000,
        ;
        vstd::arithmetic::div_mod::lemma_div_is_ordered(a * SCALE, n * SCALE, n);
        vstd::arithmetic::div_mod::lemma_div_multiples_vanish(SCALE as int, n);
        vstd::arithmetic::div_mod::lemma_div_pos_is_pos(a * SCALE, n);
        assert(n * SCALE == SCALE * n) by (nonlinear_arith);
    } else {
        assert(0 <= (-a) * SCALE <= n * SCALE) by (nonlinear_arith)
            requires
                0 <= -a <= n,
                SCALE == 1_000_000,
        ;
        assert(-(a * SCALE) == (-a) * SCALE) by (nonlinear_arith);
        vstd::arithmetic::div_mod::lemma_div_is_ordered((-a) * SCALE, n * SCALE, n);
        vstd::arithmetic::div_mod::lemma_div_multiples_vanish(SCALE as int, n);
        vstd::arithmetic::div_mod::lemma_div_pos_is_pos((-a) * SCALE, n);
        assert(n * SCALE == SCALE * n) by (nonlinear_arith);
    }
}

} // verus!
