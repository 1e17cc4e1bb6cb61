//! The playing field and the wires that outline it.
use crate::position::Position;
use crate::wire::{Color, Wire};
use vstd::prelude::*;

verus! {

/// Width of the field, along `y`.
pub const FIELD_WIDTH: i64 = 8_230_000;

/// Length of the field, along `x`.
pub const FIELD_LENGTH: i64 = 16_460_000;

/// A wire on the ground from `(x0, y0)` to `(x1, y1)`.
pub open spec fn ground_wire(x0: int, y0: int, x1: int, y1: int, color: Color) -> Wire {
    Wire {
        start: Position { x: x0 as i64, y: y0 as i64, z: 0 },
        end: Position { x: x1 as i64, y: y1 as i64, z: 0 },
        color,
    }
}

/// Blue, the colour of the near half.
pub open spec fn blue() -> Color {
    Color { r: 0, g: 0, b: 255 }
}

/// Red, the colour of the far half.
pub open spec fn red() -> Color {
    Color { r: 255, g: 0, b: 0 }
}

/// Yellow, the colour of the far corner.
pub open spec fn yellow() -> Color {
    Color { r: 255, g: 255, b: 0 }
}

/// White, the colour of the divider and the pole.
pub open spec fn white() -> Color {
    Color { r: 255, g: 255, b: 255 }
}

/// The outline of the field: each long edge in a blue and a red half, the
/// near short edge blue and the far one red, a mark at the far corner, the
/// divider between the halves, and a pole of one unit at the origin.
pub open spec fn border_wires() -> Seq<Wire> {
    let w = FIELD_WIDTH as int;
    let l = FIELD_LENGTH as int;
    seq![
        ground_wire(0, w, l / 2, w, blue()),
        ground_wire(l / 2, w, l, w, red()),
        ground_wire(0, 0, l / 2, 0, blue()),
        ground_wire(l / 2, 0, l, 0, red()),
        ground_wire(0, 0, 0, w, blue()),
        ground_wire(l, 0, l, w, red()),
        ground_wire(l, w, l, w, yellow()),
        ground_wire(l / 2, 0, l / 2, w, white()),
        Wire {
            start: Position { x: 0, y: 0, z: 0 },
            end: Position { x: 0, y: 0, z: 1_000_000 },
            color: white(),
        },
    ]
}

/// A wire on the ground from `(x0, y0)` to `(x1, y1)`.
fn wire_on_ground(x0: i64, y0: i64, x1: i64, y1: i64, color: Color) -> (w: Wire)
    ensures
        w == ground_wire(x0 as int, y0 as int, x1 as int, y1 as int, color),
{
    Wire { start: Position::new(x0, y0, 0), end: Position::new(x1, y1, 0), color }
}

/// The wires that outline the field.
pub fn field_border() -> (wires: [Wire; 9])
    ensures
        wires@ == border_wires(),
{
    let blue = Color::new(0, 0, 255);
    let red = Color::new(255, 0, 0);
    let yellow = Color::new(255, 255, 0);
    let white = Color::new(255, 255, 255);
    let half: i64 = FIELD_LENGTH / 2;
    let wires = [
        wire_on_ground(0, FIELD_WIDTH, half, FIELD_WIDTH, blue),
        wire_on_ground(half, FIELD_WIDTH, FIELD_LENGTH, FIELD_WIDTH, red),
        wire_on_ground(0, 0, half, 0, blue),
        wire_on_ground(half, 0, FIELD_LENGTH, 0, red),
        wire_on_ground(0, 0, 0, FIELD_WIDTH, blue),
        wire_on_ground(FIELD_LENGTH, 0, FIELD_LENGTH, FIELD_WIDTH, red),
        wire_on_ground(FIELD_LENGTH, FIELD_WIDTH, FIELD_LENGTH, FIELD_WIDTH, yellow),
        wire_on_ground(half, 0, half, FIELD_WIDTH, white),
        Wire { start: Position::new(0, 0, 0), end: Position::new(0, 0, 1_000_000), color: white },
    ];
    wires
}

} // verus!
