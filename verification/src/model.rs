//! Wire models: sets of wires that are scaled, placed and drawn as one.
use crate::fixed::{div_trunc, mul_wide, trunc_div};
use crate::position::Position;
use crate::wire::{Color, Wire};
use vstd::prelude::*;

verus! {

/// Largest magnitude of a coordinate of a wire of a model, and of the size
/// and the place that a model is given.
pub const MODEL_LIMIT: i64 = 1_000_000_000_000_000;

/// Where a model stands and how large it is.
#[derive(Clone, Copy, Debug, PartialEq, Eq, Structural)]
pub struct ModelConfig {
    pub position: Position,
    pub scale: i64,
}

/// A set of wires, and the configuration it was set up with, if any.
#[derive(Debug)]
pub struct Model {
    pub wires: Vec<Wire>,
    pub config: Option<ModelConfig>,
}

/// Every coordinate of the point has magnitude at most `limit`.
pub open spec fn point_bounded(p: Position, limit: int) -> bool {
    &&& -limit <= p.x <= limit
    &&& -limit <= p.y <= limit
    &&& -limit <= p.z <= limit
}

/// Both ends of the wire are bounded by `limit`.
pub open spec fn wire_bounded(w: Wire, limit: int) -> bool {
    point_bounded(w.start, limit) && point_bounded(w.end, limit)
}

/// Every wire is bounded by `limit`.
pub open spec fn wires_bounded(wires: Seq<Wire>, limit: int) -> bool {
    forall|i: int| 0 <= i < wires.len() ==> wire_bounded(#[trigger] wires[i], limit)
}

/// The two wires join the same two points, in either direction, up to the
/// tolerance of `Position::approx_eq`.
pub open spec fn same_edge(a: Wire, b: Wire) -> bool {
    ||| a.start.approx_eq(b.start) && a.end.approx_eq(b.end)
    ||| a.start.approx_eq(b.end) && a.end.approx_eq(b.start)
}

/// No two wires of the sequence join the same two points.
pub open spec fn edges_distinct(wires: Seq<Wire>) -> bool {
    forall|i: int, j: int| 0 <= i < j < wires.len() ==> !same_edge(wires[i], wires[j])
}

/// The wires with the one at `j` removed and the last one put in its place.
pub open spec fn swap_removed(wires: Seq<Wire>, j: int) -> Seq<Wire> {
    wires.update(j, wires.last()).drop_last()
}

/// The wires after every wire from index `j` on that joins the same points
/// as the wire at `i` was removed, each by `swap_removed`.
pub open spec fn scan_duplicates(wires: Seq<Wire>, i: int, j: int) -> Seq<Wire>
    decreases wires.len() - j,
{
    if i < 0 || j <= i || j >= wires.len() {
        wires
    } else if same_edge(wires[i], wires[j]) {
        scan_duplicates(swap_removed(wires, j), i, j)
    } else {
        scan_duplicates(wires, i, j + 1)
    }
}

/// The wires after, for every wire from index `i` on in turn, the wires
/// behind it that join the same points were removed.
pub open spec fn without_duplicates(wires: Seq<Wire>, i: int) -> Seq<Wire>
    decreases wires.len() - i,
{
    if i < 0 || i >= wires.len() {
        wires
    } else {
        proof {
            lemma_scan_duplicates(wires, i, i + 1);
        }
        without_duplicates(scan_duplicates(wires, i, i + 1), i + 1)
    }
}

/// The wire at `a` joins other points than every wire behind it.
pub open spec fn unlike_all_behind(wires: Seq<Wire>, a: int) -> bool {
    forall|b: int| a < b < wires.len() ==> !same_edge(wires[a], #[trigger] wires[b])
}

/// The wire `w` stands in `wires` at index `k` or behind it.
pub open spec fn found_behind(wires: Seq<Wire>, k: int, w: Wire) -> bool {
    exists|m: int| k <= m < wires.len() && #[trigger] wires[m] == w
}

/// One of the wires joins the same points as `w`.
pub open spec fn represented(wires: Seq<Wire>, w: Wire) -> bool {
    exists|k: int| 0 <= k < wires.len() && same_edge(#[trigger] wires[k], w)
}

/// A scan leaves the wires before `j` in place, removes only wires that join
/// the same points as the wire at `i`, and leaves none of those from `j` on.
pub proof fn lemma_scan_duplicates(wires: Seq<Wire>, i: int, j: int)
    requires
        0 <= i < j,
        i < wires.len(),
    ensures
        scan_duplicates(wires, i, j).len() <= wires.len(),
        j <= wires.len() ==> scan_duplicates(wires, i, j).len() >= j,
        forall|k: int|
            0 <= k < j && k < wires.len() ==> scan_duplicates(wires, i, j)[k] == #[trigger] wires[k],
        forall|k: int|
            0 <= k < scan_duplicates(wires, i, j).len() ==> found_behind(
                wires,
                k,
                #[trigger] scan_duplicates(wires, i, j)[k],
            ),
        forall|k: int|
            j <= k < scan_duplicates(wires, i, j).len() ==> !same_edge(
                wires[i],
                #[trigger] scan_duplicates(wires, i, j)[k],
            ),
        forall|m: int|
            0 <= m < wires.len() ==> same_edge(wires[i], #[trigger] wires[m]) || found_behind(
                scan_duplicates(wires, i, j),
                0,
                wires[m],
            ),
        wires_bounded(wires, MODEL_LIMIT as int) ==> wires_bounded(
            scan_duplicates(wires, i, j),
            MODEL_LIMIT as int,
        ),
    decreases wires.len() - j,
{
    let res = scan_duplicates(wires, i, j);
    if j >= wires.len() {
    } else if same_edge(wires[i], wires[j]) {
        let shorter = swap_removed(wires, j);
        lemma_scan_duplicates(shorter, i, j);
        assert forall|k: int| 0 <= k < j && k < wires.len() implies res[k] == #[trigger] wires[k] by {
            assert(shorter[k] == wires[k]);
        }
        assert forall|m: int| 0 <= m < wires.len() implies same_edge(wires[i], #[trigger] wires[m])
            || found_behind(res, 0, wires[m]) by {
            if m != j && m != wires.len() - 1 {
                assert(shorter[m] == wires[m]);
            }
        }
    } else {
        lemma_scan_duplicates(wires, i, j + 1);
    }
}

/// Where no wire before `i` is like a wire behind it, removing the
/// duplicates from `i` on leaves no two wires that join the same points. The
/// wires before `i` stay in place, every wire that is left was there before,
/// and every wire that was there joins the same points as one that is left.
pub proof fn lemma_without_duplicates(wires: Seq<Wire>, i: int)
    requires
        0 <= i,
        forall|a: int| 0 <= a < i && a < wires.len() ==> unlike_all_behind(wires, a),
    ensures
        without_duplicates(wires, i).len() <= wires.len(),
        i <= wires.len() ==> without_duplicates(wires, i).len() >= i,
        forall|k: int|
            0 <= k < i && k < wires.len() ==> without_duplicates(wires, i)[k] == #[trigger] wires[k],
        forall|k: int|
            0 <= k < without_duplicates(wires, i).len() ==> found_behind(
                wires,
                k,
                #[trigger] without_duplicates(wires, i)[k],
            ),
        edges_distinct(without_duplicates(wires, i)),
        forall|m: int|
            0 <= m < wires.len() ==> represented(without_duplicates(wires, i), #[trigger] wires[m]),
        wires_bounded(wires, MODEL_LIMIT as int) ==> wires_bounded(
            without_duplicates(wires, i),
            MODEL_LIMIT as int,
        ),
    decreases wires.len() - i,
{
    let res = without_duplicates(wires, i);
    if i >= wires.len() {
        assert forall|a: int, b: int| 0 <= a < b < res.len() implies !same_edge(res[a], res[b]) by {
            assert(unlike_all_behind(wires, a));
        }
    } else {
        let scanned = scan_duplicates(wires, i, i + 1);
        lemma_scan_duplicates(wires, i, i + 1);
        assert forall|a: int| 0 <= a < i + 1 && a < scanned.len() implies unlike_all_behind(
            scanned,
            a,
        ) by {
            assert forall|b: int| a < b < scanned.len() implies !same_edge(
                scanned[a],
                #[trigger] scanned[b],
            ) by {
                if a < i {
                    assert(unlike_all_behind(wires, a));
                }
            }
        }
        lemma_without_duplicates(scanned, i + 1);
    }
}

/// The coordinate of `p` along `axis`: zero for `x`, one for `y`, and any
/// other for `z`.
pub open spec fn coordinate(p: Position, axis: int) -> int {
    if axis == 0 {
        p.x as int
    } else if axis == 1 {
        p.y as int
    } else {
        p.z as int
    }
}

/// The smaller of two numbers.
pub open spec fn lesser(a: int, b: int) -> int {
    if a <= b {
        a
    } else {
        b
    }
}

/// The larger of two numbers.
pub open spec fn greater(a: int, b: int) -> int {
    if a >= b {
        a
    } else {
        b
    }
}

/// The least coordinate along `axis` of the ends of the wires, and
/// `MODEL_LIMIT` when there is no wire.
pub open spec fn lowest(wires: Seq<Wire>, axis: int) -> int
    decreases wires.len(),
{
    if wires.len() == 0 {
        MODEL_LIMIT as int
    } else {
        lesser(
            lesser(lowest(wires.drop_last(), axis), coordinate(wires.last().start, axis)),
            coordinate(wires.last().end, axis),
        )
    }
}

/// The greatest coordinate along `axis` of the ends of the wires, and
/// `-MODEL_LIMIT` when there is no wire.
pub open spec fn highest(wires: Seq<Wire>, axis: int) -> int
    decreases wires.len(),
{
    if wires.len() == 0 {
        -MODEL_LIMIT
    } else {
        greater(
            greater(highest(wires.drop_last(), axis), coordinate(wires.last().start, axis)),
            coordinate(wires.last().end, axis),
        )
    }
}

/// The middle of the wires along `axis`.
pub open spec fn middle(wires: Seq<Wire>, axis: int) -> int {
    trunc_div(lowest(wires, axis) + highest(wires, axis), 2)
}

/// The extent of the wires along `axis`.
pub open spec fn extent(wires: Seq<Wire>, axis: int) -> int {
    highest(wires, axis) - lowest(wires, axis)
}

/// The largest of the three extents of the wires.
pub open spec fn largest_extent(wires: Seq<Wire>) -> int {
    greater(greater(extent(wires, 0), extent(wires, 1)), extent(wires, 2))
}

/// A coordinate `c` moved so that `center` comes to zero, and stretched so
/// that an extent of `largest` becomes `size`. Where the wires have no
/// extent the coordinate is only moved.
pub open spec fn rescaled(c: int, center: int, size: int, largest: int) -> int {
    if largest > 0 {
        trunc_div((c - center) * size, largest)
    } else {
        c - center
    }
}

/// A point of a model after the model was scaled to `size`.
pub open spec fn rescaled_point(p: Position, wires: Seq<Wire>, size: int) -> Position {
    Position {
        x: rescaled(p.x as int, middle(wires, 0), size, largest_extent(wires)) as i64,
        y: rescaled(p.y as int, middle(wires, 1), size, largest_extent(wires)) as i64,
        z: rescaled(p.z as int, middle(wires, 2), size, largest_extent(wires)) as i64,
    }
}

/// The wires of a model after the model was scaled to `size`: centred on the
/// origin, their largest extent `size`.
pub open spec fn rescaled_wires(wires: Seq<Wire>, size: int) -> Seq<Wire> {
    Seq::new(
        wires.len(),
        |i: int|
            Wire {
                start: rescaled_point(wires[i].start, wires, size),
                end: rescaled_point(wires[i].end, wires, size),
                color: wires[i].color,
            },
    )
}

/// A point moved by `(dx, dy, dz)`.
pub open spec fn moved_point(p: Position, dx: int, dy: int, dz: int) -> Position {
    Position { x: (p.x + dx) as i64, y: (p.y + dy) as i64, z: (p.z + dz) as i64 }
}

/// The wires moved by `(dx, dy, dz)`.
pub open spec fn moved_wires(wires: Seq<Wire>, dx: int, dy: int, dz: int) -> Seq<Wire> {
    Seq::new(
        wires.len(),
        |i: int|
            Wire {
                start: moved_point(wires[i].start, dx, dy, dz),
                end: moved_point(wires[i].end, dx, dy, dz),
                color: wires[i].color,
            },
    )
}

/// How far a model is lifted when it is placed: by half its size when it was
/// configured to stand at the origin, so that it stands on the ground.
pub open spec fn lift(config: Option<ModelConfig>) -> int {
    match config {
        Some(c) => if c.position.approx_eq(Position { x: 0, y: 0, z: 0 }) {
            trunc_div(c.scale as int, 2)
        } else {
            0
        },
        None => 0,
    }
}

/// The lowest and the highest coordinate bound every coordinate, and are
/// themselves within the limit that bounds the wires.
pub proof fn lemma_extremes(wires: Seq<Wire>, axis: int)
    requires
        wires_bounded(wires, MODEL_LIMIT as int),
    ensures
        -MODEL_LIMIT <= lowest(wires, axis) <= MODEL_LIMIT,
        -MODEL_LIMIT <= highest(wires, axis) <= MODEL_LIMIT,
        wires.len() > 0 ==> lowest(wires, axis) <= highest(wires, axis),
        forall|i: int|
            0 <= i < wires.len() ==> lowest(wires, axis) <= coordinate(
                (#[trigger] wires[i]).start,
                axis,
            ) <= highest(wires, axis) && lowest(wires, axis) <= coordinate(wires[i].end, axis)
                <= highest(wires, axis),
    decreases wires.len(),
{
    if wires.len() > 0 {
        let shorter = wires.drop_last();
        lemma_extremes(shorter, axis);
        assert forall|i: int| 0 <= i < wires.len() implies lowest(wires, axis) <= coordinate(
            (#[trigger] wires[i]).start,
            axis,
        ) <= highest(wires, axis) && lowest(wires, axis) <= coordinate(wires[i].end, axis)
            <= highest(wires, axis) by {
            if i < shorter.len() {
                assert(shorter[i] == wires[i]);
            }
        }
    }
}

/// A coordinate between the extremes, rescaled to `size`, has magnitude at
/// most that of `size`, and at most the extent where there is nothing to
/// stretch.
pub proof fn lemma_rescaled(c: int, low: int, high: int, size: int, largest: int)
    requires
        low <= c <= high,
        -MODEL_LIMIT <= low,
        high <= MODEL_LIMIT,
        high - low <= largest,
        -MODEL_LIMIT <= size <= MODEL_LIMIT,
    ensures
        -MODEL_LIMIT <= rescaled(c, trunc_div(low + high, 2), size, largest) <= MODEL_LIMIT,
        -(2 * MODEL_LIMIT) <= c - trunc_div(low + high, 2) <= 2 * MODEL_LIMIT,
        largest > 0 ==> -(2 * MODEL_LIMIT * MODEL_LIMIT) <= (c - trunc_div(low + high, 2)) * size
            <= 2 * MODEL_LIMIT * MODEL_LIMIT,
{
    let center = trunc_div(low + high, 2);
    let d = c - center;
    if largest > 0 {
        let a = if d >= 0 {
            d
        } else {
            -d
        };
        let s = if size >= 0 {
            size
        } else {
            -size
        };
        assert(0 <= a * s <= largest * s) by (nonlinear_arith)
            requires
                0 <= a <= largest,
                0 <= s,
        ;
        assert(a * s <= 2 * MODEL_LIMIT * MODEL_LIMIT) by (nonlinear_arith)
            requires
                0 <= a <= 2 * MODEL_LIMIT,
                0 <= s <= MODEL_LIMIT,
                MODEL_LIMIT == 1_000_000_000_000_000,
        ;
        assert(d * size == a * s || d * size == -(a * s)) by (nonlinear_arith)
            requires
                a == d || a == -d,
                s == size || s == -size,
        ;
        vstd::arithmetic::div_mod::lemma_div_is_ordered(a * s, largest * s, largest);
        vstd::arithmetic::div_mod::lemma_div_multiples_vanish(s, largest);
        vstd::arithmetic::div_mod::lemma_div_pos_is_pos(a * s, largest);
        if d * size >= 0 {
            assert(d * size == a * s);
        } else {
            assert(-(d * size) == a * s);
        }
    }
}

impl Model {
    /// A model of the given wires that was never configured.
    pub fn new(wires: Vec<Wire>) -> (m: Model)
        ensures
            m.wires == wires,
            m.config is None,
    {
        Model { wires, config: None }
    }

    /// Whether every coordinate of every wire has magnitude at most
    /// [`MODEL_LIMIT`].
    pub fn is_bounded(&self) -> (b: bool)
        ensures
            b == wires_bounded(self.wires@, MODEL_LIMIT as int),
    {
        let mut i: usize = 0;
        while i < self.wires.len()
            invariant
                i <= self.wires@.len(),
                forall|j: int| 0 <= j < i ==> wire_bounded(#[trigger] self.wires@[j], MODEL_LIMIT as int),
            decreases self.wires@.len() - i,
        {
            let w = self.wires[i];
            if !(point_is_bounded(&w.start) && point_is_bounded(&w.end)) {
                return false;
            }
            i = i + 1;
        }
        true
    }

    /// Removes, for every wire in turn, the wires behind it that join the
    /// same two points. What is left holds no two such wires, and for every
    /// wire that was there a wire that joins the same points.
    pub fn remove_duplicate_wires(wires: &mut Vec<Wire>)
        ensures
            final(wires)@ == without_duplicates(old(wires)@, 0),
            edges_distinct(final(wires)@),
            final(wires)@.len() <= old(wires)@.len(),
            forall|k: int|
                0 <= k < final(wires)@.len() ==> old(wires)@.contains(#[trigger] final(wires)@[k]),
            forall|m: int|
                0 <= m < old(wires)@.len() ==> represented(final(wires)@, #[trigger] old(wires)@[m]),
            wires_bounded(old(wires)@, MODEL_LIMIT as int) ==> wires_bounded(
                final(wires)@,
                MODEL_LIMIT as int,
            ),
    {
        proof {
            lemma_without_duplicates(old(wires)@, 0);
        }
        let mut i: usize = 0;
        while i < wires.len()
            invariant
                without_duplicates(wires@, i as int) == without_duplicates(old(wires)@, 0),
            decreases wires@.len() - i,
        {
            let ghost before = wires@;
            let mut j: usize = i + 1;
            while j < wires.len()
                invariant
                    i < j,
                    i < wires@.len(),
                    wires@.len() <= before.len(),
                    scan_duplicates(wires@, i as int, j as int) == scan_duplicates(
                        before,
                        i as int,
                        i + 1,
                    ),
                decreases wires@.len() - j,
            {
                let a = wires[i];
                let b = wires[j];
                if (a.start.approx_equals(&b.start) && a.end.approx_equals(&b.end)) || (
                a.start.approx_equals(&b.end) && a.end.approx_equals(&b.start)) {
                    wires.swap_remove(j);
                } else {
                    j = j + 1;
                }
            }
            i = i + 1;
        }
    }

    /// The wire model of a mesh of triangles: the three edges of every face,
    /// each edge once. The mesh stands on its head in the model: the third
    /// coordinate of every corner changes its sign. `None` when a face names
    /// a corner that the mesh does not have, or a corner is beyond
    /// [`MODEL_LIMIT`].
    pub fn from_triangles(vertices: &[Position], faces: &[[usize; 3]]) -> (res: Option<Model>)
        ensures
            res is Some <==> mesh_ok(vertices@, faces@),
            res matches Some(m) ==> {
                &&& m.wires@ == without_duplicates(triangle_wires(vertices@, faces@), 0)
                &&& m.config is None
                &&& edges_distinct(m.wires@)
                &&& wires_bounded(m.wires@, MODEL_LIMIT as int)
                &&& m.wires@.len() <= 3 * faces@.len()
            },
    {
        let mut k: usize = 0;
        while k < vertices.len()
            invariant
                k <= vertices@.len(),
                forall|v: int| 0 <= v < k ==> point_bounded(#[trigger] vertices@[v], MODEL_LIMIT as int),
            decreases vertices@.len() - k,
        {
            if !point_is_bounded(&vertices[k]) {
                return None;
            }
            k = k + 1;
        }
        let mut wires: Vec<Wire> = Vec::new();
        let ghost all = triangle_wires(vertices@, faces@);
        let mut f: usize = 0;
        while f < faces.len()
            invariant
                f <= faces@.len(),
                forall|v: int| 0 <= v < vertices@.len() ==> point_bounded(#[trigger] vertices@[v], MODEL_LIMIT as int),
                forall|g: int| 0 <= g < f ==> face_ok(vertices@, #[trigger] faces@[g]),
                wires@.len() == 3 * f,
                forall|w: int| 0 <= w < 3 * f ==> #[trigger] wires@[w] == triangle_wire(vertices@, faces@, w),
                wires_bounded(wires@, MODEL_LIMIT as int),
            decreases faces@.len() - f,
        {
            let face = faces[f];
            let n: usize = vertices.len();
            if face[0] >= n || face[1] >= n || face[2] >= n {
                return None;
            }
            let v1 = flipped(&vertices[face[0]]);
            let v2 = flipped(&vertices[face[1]]);
            let v3 = flipped(&vertices[face[2]]);
            proof {
                assert(3 * f / 3 == f && (3 * f + 1) / 3 == f && (3 * f + 2) / 3 == f);
                assert(3 * f % 3 == 0 && (3 * f + 1) % 3 == 1 && (3 * f + 2) % 3 == 2);
            }
            wires.push(Wire::new(v1, v2));
            wires.push(Wire::new(v2, v3));
            wires.push(Wire::new(v3, v1));
            f = f + 1;
        }
        proof {
            assert(wires@ =~= all);
        }
        Model::remove_duplicate_wires(&mut wires);
        Some(Model { wires, config: None })
    }

    /// Moves every wire by `(dx, dy, dz)`.
    pub fn move_by(&mut self, dx: i64, dy: i64, dz: i64)
        requires
            wires_bounded(old(self).wires@, MODEL_LIMIT as int),
            -3 * MODEL_LIMIT <= dx <= 3 * MODEL_LIMIT,
            -3 * MODEL_LIMIT <= dy <= 3 * MODEL_LIMIT,
            -3 * MODEL_LIMIT <= dz <= 3 * MODEL_LIMIT,
        ensures
            final(self).wires@ == moved_wires(old(self).wires@, dx as int, dy as int, dz as int),
            final(self).config == old(self).config,
    {
        let n: usize = self.wires.len();
        let mut i: usize = 0;
        while i < n
            invariant
                i <= n,
                n == self.wires@.len(),
                n == old(self).wires@.len(),
                self.config == old(self).config,
                wires_bounded(old(self).wires@, MODEL_LIMIT as int),
                -3 * MODEL_LIMIT <= dx <= 3 * MODEL_LIMIT,
                -3 * MODEL_LIMIT <= dy <= 3 * MODEL_LIMIT,
                -3 * MODEL_LIMIT <= dz <= 3 * MODEL_LIMIT,
                forall|j: int|
                    0 <= j < i ==> #[trigger] self.wires@[j] == moved_wires(
                        old(self).wires@,
                        dx as int,
                        dy as int,
                        dz as int,
                    )[j],
                forall|j: int| i <= j < n ==> #[trigger] self.wires@[j] == old(self).wires@[j],
            decreases n - i,
        {
            let w = self.wires[i];
            self.wires[i] = Wire {
                start: Position::new(w.start.x + dx, w.start.y + dy, w.start.z + dz),
                end: Position::new(w.end.x + dx, w.end.y + dy, w.end.z + dz),
                color: w.color,
            };
            i = i + 1;
        }
    }

    /// Centres the model on the origin and stretches it so that its largest
    /// extent becomes `size`. A model without extent is only centred.
    pub fn scale(&mut self, size: i64)
        requires
            wires_bounded(old(self).wires@, MODEL_LIMIT as int),
            -MODEL_LIMIT <= size <= MODEL_LIMIT,
        ensures
            final(self).wires@ == rescaled_wires(old(self).wires@, size as int),
            final(self).config == old(self).config,
            wires_bounded(final(self).wires@, MODEL_LIMIT as int),
    {
        let n: usize = self.wires.len();
        let mut min_x: i64 = MODEL_LIMIT;
        let mut min_y: i64 = MODEL_LIMIT;
        let mut min_z: i64 = MODEL_LIMIT;
        let mut max_x: i64 = -MODEL_LIMIT;
        let mut max_y: i64 = -MODEL_LIMIT;
        let mut max_z: i64 = -MODEL_LIMIT;
        let ghost wires = self.wires@;
        let mut i: usize = 0;
        while i < n
            invariant
                i <= n,
                n == wires.len(),
                self.wires@ == wires,
                min_x == lowest(wires.take(i as int), 0),
                min_y == lowest(wires.take(i as int), 1),
                min_z == lowest(wires.take(i as int), 2),
                max_x == highest(wires.take(i as int), 0),
                max_y == highest(wires.take(i as int), 1),
                max_z == highest(wires.take(i as int), 2),
            decreases n - i,
        {
            let w = self.wires[i];
            proof {
                assert(wires.take(i + 1).drop_last() =~= wires.take(i as int));
            }
            min_x = least(least(min_x, w.start.x), w.end.x);
            min_y = least(least(min_y, w.start.y), w.end.y);
            min_z = least(least(min_z, w.start.z), w.end.z);
            max_x = most(most(max_x, w.start.x), w.end.x);
            max_y = most(most(max_y, w.start.y), w.end.y);
            max_z = most(most(max_z, w.start.z), w.end.z);
            i = i + 1;
        }
        proof {
            assert(wires.take(n as int) =~= wires);
            lemma_extremes(wires, 0);
            lemma_extremes(wires, 1);
            lemma_extremes(wires, 2);
        }
        let center_x: i64 = (min_x + max_x) / 2;
        let center_y: i64 = (min_y + max_y) / 2;
        let center_z: i64 = (min_z + max_z) / 2;
        let width: i64 = max_x - min_x;
        let height: i64 = max_y - min_y;
        let depth: i64 = max_z - min_z;
        let max_dimension: i64 = most(most(width, height), depth);
        let mut i: usize = 0;
        while i < n
            invariant
                i <= n,
                n == wires.len(),
                n == self.wires@.len(),
                self.config == old(self).config,
                wires == old(self).wires@,
                wires_bounded(wires, MODEL_LIMIT as int),
                -MODEL_LIMIT <= size <= MODEL_LIMIT,
                min_x == lowest(wires, 0),
                min_y == lowest(wires, 1),
                min_z == lowest(wires, 2),
                max_x == highest(wires, 0),
                max_y == highest(wires, 1),
                max_z == highest(wires, 2),
                center_x == middle(wires, 0),
                center_y == middle(wires, 1),
                center_z == middle(wires, 2),
                max_dimension == largest_extent(wires),
                forall|j: int|
                    0 <= j < i ==> #[trigger] self.wires@[j] == rescaled_wires(wires, size as int)[j],
                forall|j: int| 0 <= j < i ==> wire_bounded(#[trigger] self.wires@[j], MODEL_LIMIT as int),
                forall|j: int| i <= j < n ==> #[trigger] self.wires@[j] == wires[j],
            decreases n - i,
        {
            let w = self.wires[i];
            proof {
                lemma_extremes(wires, 0);
                lemma_extremes(wires, 1);
                lemma_extremes(wires, 2);
                let l = max_dimension as int;
                lemma_rescaled(w.start.x as int, min_x as int, max_x as int, size as int, l);
                lemma_rescaled(w.start.y as int, min_y as int, max_y as int, size as int, l);
                lemma_rescaled(w.start.z as int, min_z as int, max_z as int, size as int, l);
                lemma_rescaled(w.end.x as int, min_x as int, max_x as int, size as int, l);
                lemma_rescaled(w.end.y as int, min_y as int, max_y as int, size as int, l);
                lemma_rescaled(w.end.z as int, min_z as int, max_z as int, size as int, l);
            }
            self.wires[i] = Wire {
                start: Position::new(
                    rescale(w.start.x, center_x, size, max_dimension),
                    rescale(w.start.y, center_y, size, max_dimension),
                    rescale(w.start.z, center_z, size, max_dimension),
                ),
                end: Position::new(
                    rescale(w.end.x, center_x, size, max_dimension),
                    rescale(w.end.y, center_y, size, max_dimension),
                    rescale(w.end.z, center_z, size, max_dimension),
                ),
                color: w.color,
            };
            i = i + 1;
        }
    }

    /// Places the model at `pos`: every wire is moved by `pos`, and lifted by
    /// half the size of the model if the model was configured to stand at the
    /// origin.
    pub fn position_at(&mut self, pos: Position)
        requires
            wires_bounded(old(self).wires@, MODEL_LIMIT as int),
            point_bounded(pos, MODEL_LIMIT as int),
            old(self).config matches Some(c) ==> -MODEL_LIMIT <= c.scale <= MODEL_LIMIT,
        ensures
            final(self).wires@ == moved_wires(
                old(self).wires@,
                pos.x as int,
                pos.y as int,
                pos.z + lift(old(self).config),
            ),
            final(self).config == old(self).config,
    {
        let z_offset: i64 = match self.config {
            Some(c) => {
                if c.position.approx_equals(&Position::origin()) {
                    c.scale / 2
                } else {
                    0
                }
            },
            None => 0,
        };
        self.move_by(pos.x, pos.y, pos.z + z_offset);
    }

    /// Sets the model up as `config` says: scaled to the size, placed at the
    /// position, and the configuration recorded.
    pub fn configure(&mut self, config: ModelConfig)
        requires
            wires_bounded(old(self).wires@, MODEL_LIMIT as int),
            point_bounded(config.position, MODEL_LIMIT as int),
            -MODEL_LIMIT <= config.scale <= MODEL_LIMIT,
            old(self).config matches Some(c) ==> -MODEL_LIMIT <= c.scale <= MODEL_LIMIT,
        ensures
            final(self).wires@ == moved_wires(
                rescaled_wires(old(self).wires@, config.scale as int),
                config.position.x as int,
                config.position.y as int,
                config.position.z + lift(old(self).config),
            ),
            final(self).config == Some(config),
    {
        self.scale(config.scale);
        self.position_at(config.position);
        self.config = Some(config);
    }
}

/// The corner of a mesh as it stands in the model: with the sign of its
/// third coordinate changed.
pub open spec fn flipped_point(p: Position) -> Position {
    Position { x: p.x, y: p.y, z: (-p.z) as i64 }
}

/// The face names three corners that the mesh has.
pub open spec fn face_ok(vertices: Seq<Position>, face: [usize; 3]) -> bool {
    face@[0] < vertices.len() && face@[1] < vertices.len() && face@[2] < vertices.len()
}

/// Every corner is within `MODEL_LIMIT` and every face names corners that
/// the mesh has.
pub open spec fn mesh_ok(vertices: Seq<Position>, faces: Seq<[usize; 3]>) -> bool {
    &&& forall|v: int| 0 <= v < vertices.len() ==> point_bounded(#[trigger] vertices[v], MODEL_LIMIT as int)
    &&& forall|f: int| 0 <= f < faces.len() ==> face_ok(vertices, #[trigger] faces[f])
}

/// The `w`-th edge of the mesh: edge `w % 3` of face `w / 3`, white.
pub open spec fn triangle_wire(vertices: Seq<Position>, faces: Seq<[usize; 3]>, w: int) -> Wire {
    let face = faces[w / 3];
    let from = face@[w % 3];
    let to = face@[(w % 3 + 1) % 3];
    Wire {
        start: flipped_point(vertices[from as int]),
        end: flipped_point(vertices[to as int]),
        color: Color { r: 255, g: 255, b: 255 },
    }
}

/// The three edges of every face of the mesh, face by face.
pub open spec fn triangle_wires(vertices: Seq<Position>, faces: Seq<[usize; 3]>) -> Seq<Wire> {
    Seq::new((3 * faces.len()) as nat, |w: int| triangle_wire(vertices, faces, w))
}

/// The corner of a mesh as it stands in the model.
pub fn flipped(p: &Position) -> (q: Position)
    requires
        point_bounded(*p, MODEL_LIMIT as int),
    ensures
        q == flipped_point(*p),
        point_bounded(q, MODEL_LIMIT as int),
{
    Position::new(p.x, p.y, -p.z)
}

/// Whether every coordinate of the point has magnitude at most
/// [`MODEL_LIMIT`].
pub fn point_is_bounded(p: &Position) -> (b: bool)
    ensures
        b == point_bounded(*p, MODEL_LIMIT as int),
{
    -MODEL_LIMIT <= p.x && p.x <= MODEL_LIMIT && -MODEL_LIMIT <= p.y && p.y <= MODEL_LIMIT
        && -MODEL_LIMIT <= p.z && p.z <= MODEL_LIMIT
}

/// The smaller of two numbers.
pub fn least(a: i64, b: i64) -> (m: i64)
    ensures
        m == lesser(a as int, b as int),
{
    if a <= b {
        a
    } else {
        b
    }
}

/// The larger of two numbers.
pub fn most(a: i64, b: i64) -> (m: i64)
    ensures
        m == greater(a as int, b as int),
{
    if a >= b {
        a
    } else {
        b
    }
}

/// A coordinate of a model that is scaled to `size`.
pub fn rescale(c: i64, center: i64, size: i64, largest: i64) -> (r: i64)
    requires
        -(2 * MODEL_LIMIT) <= c - center <= 2 * MODEL_LIMIT,
        -MODEL_LIMIT <= rescaled(c as int, center as int, size as int, largest as int)
            <= MODEL_LIMIT,
    ensures
        r == rescaled(c as int, center as int, size as int, largest as int),
{
    if largest > 0 {
        let r: i128 = div_trunc(mul_wide(c - center, size), largest as i128);
        r as i64
    } else {
        c - center
    }
}

} // verus!
