//! Pruning of the waypoints around the turns that relaxation leaves.
//!
//! Seen from the first waypoint, a waypoint is in line when the vector to it
//! points the way of the chord (the vector to the last waypoint) up to an
//! angle whose tangent is below [`TANGENT_LIMIT`]: the angle whose cosine is
//! 0.999999. A waypoint in line with exactly one of its two neighbours in
//! line marks where the path leaves the chord or rejoins it. Around each such
//! waypoint a window is removed; the first and the last waypoint are never
//! part of a window.
use crate::fixed::{abs, trunc_div, WORKSPACE_LIMIT};
use crate::position::Position;
use crate::robot::{path_in_workspace, PathPoint, Robot};
use vstd::prelude::*;

verus! {

/// Tangent below which an angle counts as none, in billionths: the tangent
/// of the angle whose cosine is 0.999999.
pub const TANGENT_LIMIT: i64 = 1_414_214;

/// The unit that `TANGENT_LIMIT` counts: a billion to one.
pub const TANGENT_SCALE: i128 = 1_000_000_000;

/// The planar vector from `from` to `to`.
pub open spec fn offset(to: Position, from: Position) -> Position {
    Position { x: (to.x - from.x) as i64, y: (to.y - from.y) as i64, z: 0 }
}

/// `v` is not the zero vector, points the way of `chord` rather than against
/// it, and the tangent of the angle between them is below `TANGENT_LIMIT`.
pub open spec fn colinear(v: Position, chord: Position) -> bool {
    &&& !v.approx_eq(Position { x: 0, y: 0, z: 0 })
    &&& v.dot_spec(chord) > 0
    &&& abs(v.cross_spec(chord)) * TANGENT_SCALE < TANGENT_LIMIT * v.dot_spec(chord)
}

/// Waypoint `i`, seen from the first waypoint, is in line with the chord.
pub open spec fn in_line(path: Seq<PathPoint>, i: int) -> bool {
    colinear(
        offset(path[i].position, path[0].position),
        offset(path.last().position, path[0].position),
    )
}

/// Waypoint `i` is in line and exactly one of its neighbours is.
pub open spec fn is_transition(path: Seq<PathPoint>, i: int) -> bool {
    in_line(path, i) && (in_line(path, i - 1) != in_line(path, i + 1))
}

/// How much further than `k` the window around waypoint `i` reaches: it grows
/// while the waypoint `k` places before `i` is an interior one closer than
/// `limit` to waypoint `i`, and a waypoint `k` places after `i` exists.
pub open spec fn window_growth(path: Seq<PathPoint>, i: int, limit: int, k: int) -> nat
    decreases i - k,
{
    if 0 < i - k && i + k < path.len() && path[i - k].position.distance(path[i].position) < limit {
        1 + window_growth(path, i, limit, k + 1)
    } else {
        0
    }
}

/// First index of the window around waypoint `i`.
pub open spec fn window_start(path: Seq<PathPoint>, i: int, limit: int) -> int {
    let k = 1 + window_growth(path, i, limit, 1);
    if i - k < 1 {
        1
    } else {
        i - k
    }
}

/// Last index of the window around waypoint `i`.
pub open spec fn window_end(path: Seq<PathPoint>, i: int, limit: int) -> int {
    let k = 1 + window_growth(path, i, limit, 1);
    if i + k > path.len() - 2 {
        path.len() - 2
    } else {
        i + k
    }
}

/// `marks` with every index from `lo` to `hi` marked as well.
pub open spec fn mark_window(marks: Seq<bool>, lo: int, hi: int) -> Seq<bool> {
    Seq::new(marks.len(), |j: int| marks[j] || lo <= j <= hi)
}

/// The marks after scanning the waypoints from index `i` on: at a transition
/// its window is marked and the scan goes on behind the window.
pub open spec fn prune_marks(path: Seq<PathPoint>, limit: int, i: int, marks: Seq<bool>) -> Seq<
    bool,
>
    decreases path.len() - i,
{
    if i < 2 || i + 2 >= path.len() {
        marks
    } else if is_transition(path, i) {
        prune_marks(
            path,
            limit,
            window_end(path, i, limit) + 1,
            mark_window(marks, window_start(path, i, limit), window_end(path, i, limit)),
        )
    } else {
        prune_marks(path, limit, i + 1, marks)
    }
}

/// The waypoints that are not marked, in their order.
pub open spec fn retained(path: Seq<PathPoint>, marks: Seq<bool>) -> Seq<PathPoint>
    decreases path.len(),
{
    if path.len() == 0 {
        Seq::empty()
    } else if marks.last() {
        retained(path.drop_last(), marks.drop_last())
    } else {
        retained(path.drop_last(), marks.drop_last()).push(path.last())
    }
}

/// The distance within which a window grows: a quarter of `scale`.
pub open spec fn window_limit(scale: int) -> int {
    trunc_div(scale, 4)
}

/// The path after pruning, for a robot of size `scale`.
pub open spec fn pruned(path: Seq<PathPoint>, scale: int) -> Seq<PathPoint> {
    retained(
        path,
        prune_marks(path, window_limit(scale), 2, Seq::new(path.len(), |j: int| false)),
    )
}

/// Scanning keeps the number of marks and never marks the first or the last
/// waypoint.
pub proof fn lemma_prune_marks(path: Seq<PathPoint>, limit: int, i: int, marks: Seq<bool>)
    requires
        marks.len() == path.len(),
    ensures
        prune_marks(path, limit, i, marks).len() == path.len(),
        path.len() > 0 ==> prune_marks(path, limit, i, marks)[0] == marks[0],
        path.len() > 0 ==> prune_marks(path, limit, i, marks).last() == marks.last(),
    decreases path.len() - i,
{
    if i < 2 || i + 2 >= path.len() {
    } else if is_transition(path, i) {
        let lo = window_start(path, i, limit);
        let hi = window_end(path, i, limit);
        lemma_prune_marks(path, limit, hi + 1, mark_window(marks, lo, hi));
    } else {
        lemma_prune_marks(path, limit, i + 1, marks);
    }
}

/// What is retained is part of the path, and holds the first and the last
/// waypoint when they are not marked.
pub proof fn lemma_retained(path: Seq<PathPoint>, marks: Seq<bool>)
    requires
        marks.len() == path.len(),
    ensures
        retained(path, marks).len() <= path.len(),
        forall|j: int|
            0 <= j < retained(path, marks).len() ==> path.contains(
                #[trigger] retained(path, marks)[j],
            ),
        path.len() > 0 && !marks[0] ==> retained(path, marks).len() > 0 && retained(
            path,
            marks,
        ).first() == path.first(),
        path.len() > 0 && !marks.last() ==> retained(path, marks).len() > 0 && retained(
            path,
            marks,
        ).last() == path.last(),
        path.len() > 1 && !marks[0] && !marks.last() ==> retained(path, marks).len() > 1,
        (forall|j: int| 0 <= j < marks.len() ==> !marks[j]) ==> retained(path, marks) == path,
        path_in_workspace(path) ==> path_in_workspace(retained(path, marks)),
    decreases path.len(),
{
    if path.len() > 0 {
        let shorter = path.drop_last();
        let fewer = marks.drop_last();
        lemma_retained(shorter, fewer);
    }
}

/// Pruning keeps the first and the last waypoint, and the workspace.
pub proof fn lemma_pruned(path: Seq<PathPoint>, scale: int)
    ensures
        pruned(path, scale).len() <= path.len(),
        path.len() > 0 ==> pruned(path, scale).len() > 0 && pruned(path, scale).first()
            == path.first() && pruned(path, scale).last() == path.last(),
        path.len() > 1 ==> pruned(path, scale).len() > 1,
        path.len() < 5 ==> pruned(path, scale) == path,
        path_in_workspace(path) ==> path_in_workspace(pruned(path, scale)),
        forall|j: int|
            0 <= j < pruned(path, scale).len() ==> path.contains(#[trigger] pruned(path, scale)[j]),
{
    let clear = Seq::new(path.len(), |j: int| false);
    lemma_prune_marks(path, window_limit(scale), 2, clear);
    lemma_retained(path, prune_marks(path, window_limit(scale), 2, clear));
}

/// The planar vector from `from` to `to`.
pub fn offset_between(to: &Position, from: &Position) -> (v: Position)
    requires
        to.within(WORKSPACE_LIMIT as int),
        from.within(WORKSPACE_LIMIT as int),
    ensures
        v == offset(*to, *from),
        v.within(2 * WORKSPACE_LIMIT),
{
    Position::new(to.x - from.x, to.y - from.y, 0)
}

/// Whether `v` is in line with `chord`.
pub fn is_colinear(v: &Position, chord: &Position) -> (b: bool)
    requires
        v.within(2 * WORKSPACE_LIMIT),
        chord.within(2 * WORKSPACE_LIMIT),
    ensures
        b == colinear(*v, *chord),
{
    if v.approx_equals(&Position::origin()) {
        return false;
    }
    proof {
        v.lemma_dot_bound(*chord, 2 * WORKSPACE_LIMIT);
        v.lemma_cross_bound(*chord, 2 * WORKSPACE_LIMIT);
        let limit: int = 2 * WORKSPACE_LIMIT;
        assert(limit * limit == 4_000_000_000_000_000_000_000_000) by (nonlinear_arith)
            requires
                limit == 2_000_000_000_000,
        ;
    }
    let dot: i128 = v.dot(chord);
    if dot <= 0 {
        return false;
    }
    let cross: i128 = v.cross(chord);
    let turn: i128 = if cross < 0 {
        -cross
    } else {
        cross
    };
    proof {
        assert(0 <= turn * TANGENT_SCALE <= 8_000_000_000_000_000_000_000_000_000_000_000)
            by (nonlinear_arith)
            requires
                0 <= turn <= 8_000_000_000_000_000_000_000_000,
                TANGENT_SCALE == 1_000_000_000,
        ;
        assert(0 <= TANGENT_LIMIT * dot <= 11_313_712_000_000_000_000_000_000_000_000)
            by (nonlinear_arith)
            requires
                0 <= dot <= 8_000_000_000_000_000_000_000_000,
                TANGENT_LIMIT == 1_414_214,
        ;
    }
    turn * TANGENT_SCALE < (TANGENT_LIMIT as i128) * dot
}

impl Robot {
    /// Whether waypoint `i`, seen from the first waypoint, is in line with
    /// the chord.
    pub fn is_in_line(&self, i: usize) -> (b: bool)
        requires
            path_in_workspace(self.path_points@),
            i < self.path_points@.len(),
        ensures
            b == in_line(self.path_points@, i as int),
    {
        let n: usize = self.path_points.len();
        let first = self.path_points[0].position;
        let v = offset_between(&self.path_points[i].position, &first);
        let chord = offset_between(&self.path_points[n - 1].position, &first);
        is_colinear(&v, &chord)
    }

    /// Removes the windows of waypoints around the places where the path
    /// leaves the chord or rejoins it. The first and the last waypoint stay,
    /// and no waypoint moves.
    pub fn get_points_of_curvature(&mut self)
        requires
            path_in_workspace(old(self).path_points@),
        ensures
            final(self).path_points@ == pruned(old(self).path_points@, old(self).scale as int),
            final(self).path_points@.len() <= old(self).path_points@.len(),
            old(self).path_points@.len() > 0 ==> {
                &&& final(self).path_points@.len() > 0
                &&& final(self).path_points@.first() == old(self).path_points@.first()
                &&& final(self).path_points@.last() == old(self).path_points@.last()
            },
            old(self).path_points@.len() > 1 ==> final(self).path_points@.len() > 1,
            path_in_workspace(final(self).path_points@),
            final(self).same_but_path(*old(self)),
    {
        let n: usize = self.path_points.len();
        let limit: i64 = self.scale / 4;
        let ghost path = self.path_points@;
        let ghost clear = Seq::new(path.len(), |j: int| false);
        let mut marks: Vec<bool> = Vec::new();
        let mut j: usize = 0;
        while j < n
            invariant
                j <= n,
                marks@.len() == j,
                forall|k: int| 0 <= k < j ==> !(#[trigger] marks@[k]),
            decreases n - j,
        {
            marks.push(false);
            j = j + 1;
        }
        proof {
            assert(marks@ =~= clear);
            lemma_pruned(path, self.scale as int);
        }
        if n >= 5 {
            let mut i: usize = 2;
            while i < n - 2
                invariant
                    2 <= i,
                    n >= 5,
                    n == path.len(),
                    marks@.len() == n,
                    self.path_points@ == path,
                    path_in_workspace(path),
                    limit == window_limit(self.scale as int),
                    prune_marks(path, limit as int, i as int, marks@) == prune_marks(
                        path,
                        limit as int,
                        2,
                        clear,
                    ),
                decreases n - i,
            {
                let here = self.is_in_line(i);
                let before = self.is_in_line(i - 1);
                let after = self.is_in_line(i + 1);
                if here && (before != after) {
                    let center = self.path_points[i].position;
                    let mut remove_count: usize = 1;
                    while i > remove_count && remove_count < n - i && self.path_points[i
                        - remove_count].position.distance_to(&center) < limit
                        invariant
                            1 <= remove_count <= i,
                            i < n - 2,
                            n == path.len(),
                            self.path_points@ == path,
                            path_in_workspace(path),
                            center == path[i as int].position,
                            1 + window_growth(path, i as int, limit as int, 1) == remove_count
                                + window_growth(path, i as int, limit as int, remove_count as int),
                        decreases i - remove_count,
                    {
                        remove_count = remove_count + 1;
                    }
                    let start_idx: usize = if i - remove_count < 1 {
                        1
                    } else {
                        i - remove_count
                    };
                    let end_idx: usize = if remove_count > n - 2 - i {
                        n - 2
                    } else {
                        i + remove_count
                    };
                    let ghost before_marks = marks@;
                    let mut idx: usize = start_idx;
                    while idx <= end_idx
                        invariant
                            1 <= start_idx <= idx <= end_idx + 1,
                            end_idx <= n - 2,
                            marks@.len() == n,
                            before_marks.len() == n,
                            forall|k: int|
                                0 <= k < n ==> #[trigger] marks@[k] == (before_marks[k]
                                    || start_idx <= k < idx),
                        decreases end_idx + 1 - idx,
                    {
                        marks[idx] = true;
                        idx = idx + 1;
                    }
                    proof {
                        assert(marks@ =~= mark_window(
                            before_marks,
                            start_idx as int,
                            end_idx as int,
                        ));
                    }
                    i = end_idx + 1;
                } else {
                    i = i + 1;
                }
            }
        }
        let mut kept: Vec<PathPoint> = Vec::new();
        let mut j: usize = 0;
        while j < n
            invariant
                j <= n,
                n == path.len(),
                marks@.len() == n,
                self.path_points@ == path,
                kept@ == retained(path.take(j as int), marks@.take(j as int)),
            decreases n - j,
        {
            proof {
                assert(path.take(j + 1).drop_last() =~= path.take(j as int));
                assert(marks@.take(j + 1).drop_last() =~= marks@.take(j as int));
            }
            if !marks[j] {
                kept.push(self.path_points[j]);
            }
            j = j + 1;
        }
        proof {
            assert(path.take(n as int) =~= path);
            assert(marks@.take(n as int) =~= marks@);
        }
        self.path_points = kept;
    }
}

} // verus!
