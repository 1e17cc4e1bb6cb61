//! The target that paths are planned to, and the marker that shows it.
use crate::position::Position;
use crate::wire::{Color, Wire};
use vstd::prelude::*;

verus! {

/// Height of the marker's pole: one unit.
pub const TARGET_HEIGHT: i64 = 1_000_000;

/// Red part of the marker's colour.
pub const TARGET_COLOR_R: u8 = 255;

/// Green part of the marker's colour.
pub const TARGET_COLOR_G: u8 = 0;

/// Blue part of the marker's colour.
pub const TARGET_COLOR_B: u8 = 0;

/// Side of the square that the marker's cross spans: half a unit.
pub const TARGET_MARKER_SIZE: i64 = 500_000;

/// A target position with the height and the colour of its marker.
#[derive(Clone, Copy, Debug, PartialEq, Eq, Structural)]
pub struct TargetPosition {
    pub position: Position,
    pub height: i64,
    pub color: Color,
}

/// The three wires of the marker of a target: the two diagonals of a square
/// of side `TARGET_MARKER_SIZE` around the position, and a pole of the
/// target's height on it.
pub open spec fn marker_wires(target: TargetPosition) -> Seq<Wire> {
    let half = TARGET_MARKER_SIZE / 2;
    let p = target.position;
    seq![
        Wire {
            start: Position { x: (p.x - half) as i64, y: (p.y - half) as i64, z: p.z },
            end: Position { x: (p.x + half) as i64, y: (p.y + half) as i64, z: p.z },
            color: target.color,
        },
        Wire {
            start: Position { x: (p.x - half) as i64, y: (p.y + half) as i64, z: p.z },
            end: Position { x: (p.x + half) as i64, y: (p.y - half) as i64, z: p.z },
            color: target.color,
        },
        Wire {
            start: p,
            end: Position { x: p.x, y: p.y, z: (p.z + target.height) as i64 },
            color: target.color,
        },
    ]
}

impl TargetPosition {
    /// A target at `position` with the marker's usual height and colour.
    pub fn new(position: Position) -> (t: TargetPosition)
        ensures
            t == (TargetPosition {
                position,
                height: TARGET_HEIGHT,
                color: Color { r: TARGET_COLOR_R, g: TARGET_COLOR_G, b: TARGET_COLOR_B },
            }),
    {
        TargetPosition {
            position,
            height: TARGET_HEIGHT,
            color: Color::new(TARGET_COLOR_R, TARGET_COLOR_G, TARGET_COLOR_B),
        }
    }

    /// The target every session starts with: at `(5, 5)`.
    pub fn create_default() -> (t: TargetPosition)
        ensures
            t == (TargetPosition {
                position: Position { x: 5_000_000, y: 5_000_000, z: 0 },
                height: TARGET_HEIGHT,
                color: Color { r: TARGET_COLOR_R, g: TARGET_COLOR_G, b: TARGET_COLOR_B },
            }),
    {
        TargetPosition::new(Position::new(5_000_000, 5_000_000, 0))
    }

    /// Moves the target.
    pub fn set_position(&mut self, position: Position)
        ensures
            final(self).position == position,
            final(self).height == old(self).height,
            final(self).color == old(self).color,
    {
        self.position = position;
    }

    /// Where the target is.
    pub fn get_position(&self) -> (p: Position)
        ensures
            p == self.position,
    {
        self.position
    }

    /// The wires of the marker.
    pub fn get_wires(&self) -> (wires: Vec<Wire>)
        requires
            i64::MIN + TARGET_MARKER_SIZE / 2 <= self.position.x <= i64::MAX - TARGET_MARKER_SIZE
                / 2,
            i64::MIN + TARGET_MARKER_SIZE / 2 <= self.position.y <= i64::MAX - TARGET_MARKER_SIZE
                / 2,
            i64::MIN <= self.position.z + self.height <= i64::MAX,
        ensures
            wires@ == marker_wires(*self),
    {
        let half_size: i64 = TARGET_MARKER_SIZE / 2;
        let x: i64 = self.position.x;
        let y: i64 = self.position.y;
        let z: i64 = self.position.z;
        let mut wires: Vec<Wire> = Vec::new();
        wires.push(
            Wire {
                start: Position::new(x - half_size, y - half_size, z),
                end: Position::new(x + half_size, y + half_size, z),
                color: self.color,
            },
        );
        wires.push(
            Wire {
                start: Position::new(x - half_size, y + half_size, z),
                end: Position::new(x + half_size, y - half_size, z),
                color: self.color,
            },
        );
        wires.push(
            Wire {
                start: Position::new(x, y, z),
                end: Position::new(x, y, z + self.height),
                color: self.color,
            },
        );
        wires
    }
}

} // verus!
