//! The potential field drawn as a grid of wires over the playing field.
//!
//! Lines run across the field at equal spacing in both directions, and one
//! more along each far edge. Every line is cut into segments, and every end
//! of a segment is raised to the potential at its place.
use crate::field::{FIELD_LENGTH, FIELD_WIDTH};
use crate::fixed::SCALE;
use crate::obstacle::{gaussian_potential_at, potential_at, total_gaussian, total_potential, Obstacle, MAX_OBSTACLES};
use crate::position::Position;
use crate::wire::{Color, Wire};
use vstd::prelude::*;

verus! {

/// Least resolution that a grid is drawn with: a hundredth.
pub const MIN_RESOLUTION: i64 = 10_000;

/// Largest resolution of the lines of a grid: a thousand lines per unit.
pub const MAX_RESOLUTION: i64 = 1_000_000_000;

/// How many times the line resolution a segment is long at most.
pub const SEGMENT_FACTOR: i128 = 5;

/// The field that is drawn.
#[derive(Clone, Copy, Debug, PartialEq, Eq, Structural)]
pub enum FieldKind {
    /// The cosine bump over the disc of the calculation radius.
    CosineBump,
    /// The bell shape that falls off with every calculation radius.
    Gaussian,
}

/// The potential of the field of the given kind at `p`.
pub open spec fn field_value(kind: FieldKind, obstacles: Seq<Obstacle>, p: Position) -> int {
    match kind {
        FieldKind::CosineBump => total_potential(obstacles, p),
        FieldKind::Gaussian => total_gaussian(obstacles, p),
    }
}

/// The resolution that is used for `resolution`: at least `MIN_RESOLUTION`.
pub open spec fn safe_resolution(resolution: int) -> int {
    if resolution < MIN_RESOLUTION {
        MIN_RESOLUTION as int
    } else {
        resolution
    }
}

/// The number of lines, the far edge not counted, that cross a side of the
/// given length: as many as the resolution has whole lines on it, and at
/// least one.
pub open spec fn line_count(length: int, resolution: int) -> int {
    if length * safe_resolution(resolution) / (SCALE as int) / (SCALE as int) < 1 {
        1
    } else {
        length * safe_resolution(resolution) / (SCALE as int) / (SCALE as int)
    }
}

/// The number of segments that a line of the given length is cut into: the
/// least with no segment longer than `SEGMENT_FACTOR` times the line
/// resolution.
pub open spec fn segment_count(length: int, line_resolution: int) -> int {
    (length + safe_resolution(line_resolution) * SEGMENT_FACTOR - 1) / (safe_resolution(
        line_resolution,
    ) * SEGMENT_FACTOR)
}

/// Where segment `j` of a line ends: the last one at the end of the line,
/// the others after `j + 1` segments of equal size.
pub open spec fn segment_end(length: int, segments: int, j: int) -> int {
    if j == segments - 1 {
        length
    } else {
        (j + 1) * (length / segments)
    }
}

/// The point of a line that stands `at` along the crossed side and `along`
/// along its own direction, raised to the potential there. A line that runs
/// along `y` stands at an `x`, and the other way round.
pub open spec fn grid_point(
    kind: FieldKind,
    obstacles: Seq<Obstacle>,
    runs_along_y: bool,
    at: int,
    along: int,
) -> Position {
    let x = if runs_along_y {
        at
    } else {
        along
    };
    let y = if runs_along_y {
        along
    } else {
        at
    };
    Position {
        x: x as i64,
        y: y as i64,
        z: field_value(kind, obstacles, Position { x: x as i64, y: y as i64, z: 0 }) as i64,
    }
}

/// One line of the grid: white wires from segment end to segment end.
pub open spec fn grid_line(
    kind: FieldKind,
    obstacles: Seq<Obstacle>,
    runs_along_y: bool,
    at: int,
    length: int,
    segments: int,
) -> Seq<Wire> {
    Seq::new(
        segments as nat,
        |j: int|
            Wire {
                start: grid_point(kind, obstacles, runs_along_y, at, j * (length / segments)),
                end: grid_point(
                    kind,
                    obstacles,
                    runs_along_y,
                    at,
                    segment_end(length, segments, j),
                ),
                color: Color { r: 255, g: 255, b: 255 },
            },
    )
}

/// The lines of the grid in one direction: `count` lines at equal spacing
/// from the near edge of the crossed side, and one on its far edge.
pub open spec fn grid_lines(
    kind: FieldKind,
    obstacles: Seq<Obstacle>,
    runs_along_y: bool,
    crossed: int,
    count: int,
    length: int,
    segments: int,
) -> Seq<Seq<Wire>> {
    Seq::new(
        (count + 1) as nat,
        |i: int|
            grid_line(
                kind,
                obstacles,
                runs_along_y,
                if i == count {
                    crossed
                } else {
                    i * (crossed / count)
                },
                length,
                segments,
            ),
    )
}

/// The lines that run along `y`, one at every `x` of the grid.
pub open spec fn x_grid(
    kind: FieldKind,
    obstacles: Seq<Obstacle>,
    x_resolution: int,
    line_resolution: int,
) -> Seq<Seq<Wire>> {
    grid_lines(
        kind,
        obstacles,
        true,
        FIELD_LENGTH as int,
        line_count(FIELD_LENGTH as int, x_resolution),
        FIELD_WIDTH as int,
        segment_count(FIELD_WIDTH as int, line_resolution),
    )
}

/// The lines that run along `x`, one at every `y` of the grid.
pub open spec fn y_grid(
    kind: FieldKind,
    obstacles: Seq<Obstacle>,
    y_resolution: int,
    line_resolution: int,
) -> Seq<Seq<Wire>> {
    grid_lines(
        kind,
        obstacles,
        false,
        FIELD_WIDTH as int,
        line_count(FIELD_WIDTH as int, y_resolution),
        FIELD_LENGTH as int,
        segment_count(FIELD_LENGTH as int, line_resolution),
    )
}

/// The lines with every wire in the given colour.
pub open spec fn recolored(lines: Seq<Seq<Wire>>, color: Color) -> Seq<Seq<Wire>> {
    Seq::new(
        lines.len(),
        |i: int|
            Seq::new(
                lines[i].len(),
                |j: int| Wire { start: lines[i][j].start, end: lines[i][j].end, color },
            ),
    )
}

/// The lines in the colour that was chosen, if one was.
pub open spec fn in_color(lines: Seq<Seq<Wire>>, color: Option<Color>) -> Seq<Seq<Wire>> {
    match color {
        Some(c) => recolored(lines, c),
        None => lines,
    }
}

/// The wires of all the lines, line after line.
pub open spec fn flattened_lines(lines: Seq<Seq<Wire>>) -> Seq<Wire>
    decreases lines.len(),
{
    if lines.len() == 0 {
        Seq::empty()
    } else {
        flattened_lines(lines.drop_last()) + lines.last()
    }
}

/// The lines that a vector of vectors holds.
pub open spec fn lines_of(lines: Vec<Vec<Wire>>) -> Seq<Seq<Wire>> {
    Seq::new(lines@.len(), |i: int| lines@[i]@)
}

/// A side of the field is crossed by at least one line and at most 16,460,
/// and `i` spacings never lead beyond its far edge.
pub proof fn lemma_line_count(length: int, resolution: int, i: int)
    requires
        0 < length <= FIELD_LENGTH,
        resolution <= MAX_RESOLUTION,
        0 <= i <= line_count(length, resolution),
    ensures
        1 <= line_count(length, resolution) <= 16_460,
        0 <= length * safe_resolution(resolution) <= 16_460_000 * 1_000_000_000,
        0 <= i * (length / line_count(length, resolution)) <= length,
{
    let r = safe_resolution(resolution);
    assert(0 <= length * r <= 16_460_000 * 1_000_000_000) by (nonlinear_arith)
        requires
            0 < length <= 16_460_000,
            0 < r <= 1_000_000_000,
    ;
    let n = line_count(length, resolution);
    lemma_equal_parts(length, n, i);
}

/// `i` of `n` equal parts of a length never exceed the length.
pub proof fn lemma_equal_parts(length: int, n: int, i: int)
    requires
        0 <= length,
        1 <= n,
        0 <= i <= n,
    ensures
        0 <= length / n,
        0 <= i * (length / n) <= length,
{
    let q = length / n;
    vstd::arithmetic::div_mod::lemma_fundamental_div_mod(length, n);
    vstd::arithmetic::div_mod::lemma_div_pos_is_pos(length, n);
    assert(0 <= i * q <= n * q) by (nonlinear_arith)
        requires
            0 <= i <= n,
            0 <= q,
    ;
}

/// A line is cut into at least one segment and at most 330.
pub proof fn lemma_segment_count(length: int, line_resolution: int)
    requires
        0 < length <= FIELD_LENGTH,
    ensures
        1 <= segment_count(length, line_resolution) <= 330,
        50_000 <= safe_resolution(line_resolution) * SEGMENT_FACTOR,
{
    let m = safe_resolution(line_resolution) * SEGMENT_FACTOR;
    let s = segment_count(length, line_resolution);
    vstd::arithmetic::div_mod::lemma_fundamental_div_mod(length + m - 1, m);
    vstd::arithmetic::div_mod::lemma_div_is_ordered(m, length + m - 1, m);
    vstd::arithmetic::div_mod::lemma_div_multiples_vanish(1, m);
    assert(m * 1 == m);
    assert(s >= 1);
    assert(s <= 330) by (nonlinear_arith)
        requires
            length + m - 1 == m * s + (length + m - 1) % m,
            0 <= (length + m - 1) % m,
            m >= 50_000,
            length <= 16_460_000,
    ;
}

/// The potential of the field of the given kind at `(x, y)`.
pub fn field_at(kind: FieldKind, obstacles: &[Obstacle], x: i64, y: i64) -> (v: i64)
    requires
        obstacles@.len() <= MAX_OBSTACLES,
        0 <= x <= FIELD_LENGTH,
        0 <= y <= FIELD_LENGTH,
    ensures
        v == field_value(kind, obstacles@, Position { x, y, z: 0 }),
{
    match kind {
        FieldKind::CosineBump => potential_at(obstacles, Position::new(x, y, 0)),
        FieldKind::Gaussian => gaussian_potential_at(obstacles, Position::new(x, y, 0)),
    }
}

/// One point of the grid.
pub fn point_of_grid(
    kind: FieldKind,
    obstacles: &[Obstacle],
    runs_along_y: bool,
    at: i64,
    along: i64,
) -> (p: Position)
    requires
        obstacles@.len() <= MAX_OBSTACLES,
        0 <= at <= FIELD_LENGTH,
        0 <= along <= FIELD_LENGTH,
    ensures
        p == grid_point(kind, obstacles@, runs_along_y, at as int, along as int),
{
    let x: i64 = if runs_along_y {
        at
    } else {
        along
    };
    let y: i64 = if runs_along_y {
        along
    } else {
        at
    };
    Position::new(x, y, field_at(kind, obstacles, x, y))
}

/// One line of the grid.
pub fn line_of_grid(
    kind: FieldKind,
    obstacles: &[Obstacle],
    runs_along_y: bool,
    at: i64,
    length: i64,
    segments: usize,
) -> (line: Vec<Wire>)
    requires
        obstacles@.len() <= MAX_OBSTACLES,
        0 <= at <= FIELD_LENGTH,
        0 < length <= FIELD_LENGTH,
        1 <= segments <= 330,
    ensures
        line@ == grid_line(kind, obstacles@, runs_along_y, at as int, length as int, segments as int),
{
    let size: i64 = length / (segments as i64);
    let mut line: Vec<Wire> = Vec::new();
    let mut j: usize = 0;
    while j < segments
        invariant
            j <= segments,
            1 <= segments <= 330,
            obstacles@.len() <= MAX_OBSTACLES,
            0 <= at <= FIELD_LENGTH,
            0 < length <= FIELD_LENGTH,
            size == (length as int) / (segments as int),
            line@.len() == j,
            forall|k: int|
                0 <= k < j ==> #[trigger] line@[k] == grid_line(
                    kind,
                    obstacles@,
                    runs_along_y,
                    at as int,
                    length as int,
                    segments as int,
                )[k],
        decreases segments - j,
    {
        proof {
            lemma_equal_parts(length as int, segments as int, j as int);
            lemma_equal_parts(length as int, segments as int, j + 1);
        }
        let start: i64 = (j as i64) * size;
        let end: i64 = if j == segments - 1 {
            length
        } else {
            (j as i64 + 1) * size
        };
        let from = point_of_grid(kind, obstacles, runs_along_y, at, start);
        let to = point_of_grid(kind, obstacles, runs_along_y, at, end);
        line.push(Wire::new(from, to));
        j = j + 1;
    }
    line
}

/// The lines of the grid in one direction.
pub fn lines_of_grid(
    kind: FieldKind,
    obstacles: &[Obstacle],
    runs_along_y: bool,
    crossed: i64,
    resolution: i64,
    length: i64,
    line_resolution: i64,
) -> (lines: Vec<Vec<Wire>>)
    requires
        obstacles@.len() <= MAX_OBSTACLES,
        0 < crossed <= FIELD_LENGTH,
        0 < length <= FIELD_LENGTH,
        resolution <= MAX_RESOLUTION,
    ensures
        lines_of(lines) == grid_lines(
            kind,
            obstacles@,
            runs_along_y,
            crossed as int,
            line_count(crossed as int, resolution as int),
            length as int,
            segment_count(length as int, line_resolution as int),
        ),
{
    let safe_resolution: i64 = if resolution < MIN_RESOLUTION {
        MIN_RESOLUTION
    } else {
        resolution
    };
    let safe_line_resolution: i64 = if line_resolution < MIN_RESOLUTION {
        MIN_RESOLUTION
    } else {
        line_resolution
    };
    proof {
        lemma_line_count(crossed as int, resolution as int, 0);
        lemma_segment_count(length as int, line_resolution as int);
    }
    let whole: i64 = crossed * safe_resolution / SCALE / SCALE;
    let count: usize = if whole < 1 {
        1
    } else {
        whole as usize
    };
    let spacing: i64 = crossed / (count as i64);
    let max_segment_length: i128 = (safe_line_resolution as i128) * SEGMENT_FACTOR;
    let segments: usize = ((length as i128 + max_segment_length - 1) / max_segment_length) as usize;
    let ghost target = grid_lines(
        kind,
        obstacles@,
        runs_along_y,
        crossed as int,
        count as int,
        length as int,
        segments as int,
    );
    let mut lines: Vec<Vec<Wire>> = Vec::new();
    let mut i: usize = 0;
    while i < count
        invariant
            i <= count,
            count == line_count(crossed as int, resolution as int),
            1 <= count <= 16_460,
            spacing == (crossed as int) / (count as int),
            1 <= segments <= 330,
            obstacles@.len() <= MAX_OBSTACLES,
            0 < crossed <= FIELD_LENGTH,
            0 < length <= FIELD_LENGTH,
            resolution <= MAX_RESOLUTION,
            target == grid_lines(
                kind,
                obstacles@,
                runs_along_y,
                crossed as int,
                count as int,
                length as int,
                segments as int,
            ),
            lines@.len() == i,
            forall|k: int| 0 <= k < i ==> (#[trigger] lines@[k])@ == target[k],
        decreases count - i,
    {
        proof {
            lemma_line_count(crossed as int, resolution as int, i as int);
        }
        let at: i64 = (i as i64) * spacing;
        let line = line_of_grid(kind, obstacles, runs_along_y, at, length, segments);
        lines.push(line);
        i = i + 1;
    }
    let last = line_of_grid(kind, obstacles, runs_along_y, crossed, length, segments);
    lines.push(last);
    lines
}

/// The lines with every wire in the given colour.
pub fn recolor(lines: &Vec<Vec<Wire>>, color: Color) -> (out: Vec<Vec<Wire>>)
    ensures
        lines_of(out) == recolored(lines_of(*lines), color),
{
    let mut out: Vec<Vec<Wire>> = Vec::new();
    let mut i: usize = 0;
    while i < lines.len()
        invariant
            i <= lines@.len(),
            out@.len() == i,
            forall|k: int|
                0 <= k < i ==> (#[trigger] out@[k])@ == recolored(lines_of(*lines), color)[k],
        decreases lines@.len() - i,
    {
        let line = &lines[i];
        let mut painted: Vec<Wire> = Vec::new();
        let mut j: usize = 0;
        while j < line.len()
            invariant
                j <= line@.len(),
                painted@.len() == j,
                forall|k: int|
                    0 <= k < j ==> #[trigger] painted@[k] == (Wire {
                        start: line@[k].start,
                        end: line@[k].end,
                        color,
                    }),
            decreases line@.len() - j,
        {
            let w = line[j];
            painted.push(Wire { start: w.start, end: w.end, color });
            j = j + 1;
        }
        out.push(painted);
        i = i + 1;
    }
    out
}

/// Appends the wires of all the lines to `all`.
pub fn append_lines(all: &mut Vec<Wire>, lines: &Vec<Vec<Wire>>)
    ensures
        final(all)@ == old(all)@ + flattened_lines(lines_of(*lines)),
{
    let ghost views = lines_of(*lines);
    let mut i: usize = 0;
    while i < lines.len()
        invariant
            i <= lines@.len(),
            views == lines_of(*lines),
            all@ == old(all)@ + flattened_lines(views.take(i as int)),
        decreases lines@.len() - i,
    {
        let line = &lines[i];
        let ghost before = all@;
        let mut j: usize = 0;
        while j < line.len()
            invariant
                j <= line@.len(),
                all@ == before + line@.take(j as int),
            decreases line@.len() - j,
        {
            all.push(line[j]);
            j = j + 1;
        }
        proof {
            assert(views.take(i + 1).drop_last() =~= views.take(i as int));
        }
        i = i + 1;
    }
    proof {
        assert(views.take(lines@.len() as int) =~= views);
    }
}

/// The grid of a potential field, as it was last drawn.
#[derive(Debug)]
pub struct GradientWire {
    /// The lines that run along `y`, one for every `x` of the grid.
    pub x_wires: Vec<Vec<Wire>>,
    /// The lines that run along `x`, one for every `y` of the grid.
    pub y_wires: Vec<Vec<Wire>>,
    /// The field that is drawn.
    pub field: FieldKind,
    /// Lines per unit along `x`.
    pub x_resolution: i64,
    /// Lines per unit along `y`.
    pub y_resolution: i64,
    /// A fifth of the greatest length of a segment.
    pub line_resolution: i64,
    /// The colour that was chosen for the grid, if one was.
    pub color: Option<Color>,
}

impl GradientWire {
    /// The lines that run along `y`.
    pub open spec fn x_lines(self) -> Seq<Seq<Wire>> {
        lines_of(self.x_wires)
    }

    /// The lines that run along `x`.
    pub open spec fn y_lines(self) -> Seq<Seq<Wire>> {
        lines_of(self.y_wires)
    }

    /// The grid shows the field of `obstacles` at the resolutions and in the
    /// colour that it holds.
    pub open spec fn shows(self, obstacles: Seq<Obstacle>) -> bool {
        &&& self.x_lines() == in_color(
            x_grid(self.field, obstacles, self.x_resolution as int, self.line_resolution as int),
            self.color,
        )
        &&& self.y_lines() == in_color(
            y_grid(self.field, obstacles, self.y_resolution as int, self.line_resolution as int),
            self.color,
        )
    }

    /// The grid of the field of `obstacles`, in white.
    pub fn new(
        obstacles: &[Obstacle],
        field: FieldKind,
        x_resolution: i64,
        y_resolution: i64,
        line_resolution: i64,
    ) -> (g: GradientWire)
        requires
            obstacles@.len() <= MAX_OBSTACLES,
            x_resolution <= MAX_RESOLUTION,
            y_resolution <= MAX_RESOLUTION,
        ensures
            g.field == field,
            g.x_resolution == x_resolution,
            g.y_resolution == y_resolution,
            g.line_resolution == line_resolution,
            g.color is None,
            g.shows(obstacles@),
    {
        let x_wires = lines_of_grid(
            field,
            obstacles,
            true,
            FIELD_LENGTH,
            x_resolution,
            FIELD_WIDTH,
            line_resolution,
        );
        let y_wires = lines_of_grid(
            field,
            obstacles,
            false,
            FIELD_WIDTH,
            y_resolution,
            FIELD_LENGTH,
            line_resolution,
        );
        GradientWire {
            x_wires,
            y_wires,
            field,
            x_resolution,
            y_resolution,
            line_resolution,
            color: None,
        }
    }

    /// The grid in the given colour.
    pub fn with_color(self, color: Color) -> (g: GradientWire)
        ensures
            g.field == self.field,
            g.x_resolution == self.x_resolution,
            g.y_resolution == self.y_resolution,
            g.line_resolution == self.line_resolution,
            g.color == Some(color),
            g.x_lines() == recolored(self.x_lines(), color),
            g.y_lines() == recolored(self.y_lines(), color),
    {
        let mut g = self;
        g.set_color(color);
        g
    }

    /// Draws the grid in the given colour from now on.
    pub fn set_color(&mut self, color: Color)
        ensures
            final(self).field == old(self).field,
            final(self).x_resolution == old(self).x_resolution,
            final(self).y_resolution == old(self).y_resolution,
            final(self).line_resolution == old(self).line_resolution,
            final(self).color == Some(color),
            final(self).x_lines() == recolored(old(self).x_lines(), color),
            final(self).y_lines() == recolored(old(self).y_lines(), color),
    {
        self.color = Some(color);
        self.apply_color();
    }

    /// Gives every wire the colour that was chosen, if one was.
    pub fn apply_color(&mut self)
        ensures
            final(self).field == old(self).field,
            final(self).x_resolution == old(self).x_resolution,
            final(self).y_resolution == old(self).y_resolution,
            final(self).line_resolution == old(self).line_resolution,
            final(self).color == old(self).color,
            final(self).x_lines() == in_color(old(self).x_lines(), old(self).color),
            final(self).y_lines() == in_color(old(self).y_lines(), old(self).color),
    {
        match self.color {
            Some(color) => {
                let x_wires = recolor(&self.x_wires, color);
                let y_wires = recolor(&self.y_wires, color);
                self.x_wires = x_wires;
                self.y_wires = y_wires;
            },
            None => {},
        }
    }

    /// All the wires of the grid: those of the lines along `y`, then those of
    /// the lines along `x`.
    pub fn get_all_wires(&self) -> (all: Vec<Wire>)
        ensures
            all@ == flattened_lines(self.x_lines()) + flattened_lines(self.y_lines()),
    {
        let mut all_wires: Vec<Wire> = Vec::new();
        append_lines(&mut all_wires, &self.x_wires);
        append_lines(&mut all_wires, &self.y_wires);
        all_wires
    }

    /// Draws the grid again, for the field of `obstacles` and at the
    /// resolutions that the grid holds now.
    pub fn update(&mut self, obstacles: &[Obstacle])
        requires
            obstacles@.len() <= MAX_OBSTACLES,
            old(self).x_resolution <= MAX_RESOLUTION,
            old(self).y_resolution <= MAX_RESOLUTION,
        ensures
            final(self).field == old(self).field,
            final(self).x_resolution == old(self).x_resolution,
            final(self).y_resolution == old(self).y_resolution,
            final(self).line_resolution == old(self).line_resolution,
            final(self).color == old(self).color,
            final(self).shows(obstacles@),
    {
        let x_wires = lines_of_grid(
            self.field,
            obstacles,
            true,
            FIELD_LENGTH,
            self.x_resolution,
            FIELD_WIDTH,
            self.line_resolution,
        );
        let y_wires = lines_of_grid(
            self.field,
            obstacles,
            false,
            FIELD_WIDTH,
            self.y_resolution,
            FIELD_LENGTH,
            self.line_resolution,
        );
        self.x_wires = x_wires;
        self.y_wires = y_wires;
        self.apply_color();
    }
}

} // verus!
