use potential_path::field::{field_border, FIELD_LENGTH, FIELD_WIDTH};
use potential_path::position::Position;
use potential_path::target_position::TargetPosition;
use potential_path::wire::{Color, Wire};

#[test]
fn default_target() {
    let t = TargetPosition::create_default();
    assert_eq!(t.get_position(), Position::new(5_000_000, 5_000_000, 0));
    assert_eq!(t.height, 1_000_000);
    assert_eq!(t.color, Color::new(255, 0, 0));
    assert_eq!(t, TargetPosition::new(Position::new(5_000_000, 5_000_000, 0)));
}

#[test]
fn target_moves() {
    let mut t = TargetPosition::create_default();
    t.set_position(Position::new(1, 2, 3));
    assert_eq!(t.get_position(), Position::new(1, 2, 3));
    assert_eq!(t.height, 1_000_000);
}

#[test]
fn target_marker_is_a_cross_with_a_pole() {
    let t = TargetPosition::new(Position::new(1_000_000, 2_000_000, 10));
    let red = Color::new(255, 0, 0);
    assert_eq!(
        t.get_wires(),
        vec![
            Wire { start: Position::new(750_000, 1_750_000, 10), end: Position::new(1_250_000, 2_250_000, 10), color: red },
            Wire { start: Position::new(750_000, 2_250_000, 10), end: Position::new(1_250_000, 1_750_000, 10), color: red },
            Wire { start: Position::new(1_000_000, 2_000_000, 10), end: Position::new(1_000_000, 2_000_000, 1_000_010), color: red },
        ]
    );
}

#[test]
fn field_border_outlines_the_field() {
    let wires = field_border();
    assert_eq!(wires.len(), 9);
    assert_eq!((FIELD_LENGTH, FIELD_WIDTH), (16_460_000, 8_230_000));
    let blue = Color::new(0, 0, 255);
    let red = Color::new(255, 0, 0);
    let white = Color::new(255, 255, 255);
    assert_eq!(wires[0], Wire { start: Position::new(0, 8_230_000, 0), end: Position::new(8_230_000, 8_230_000, 0), color: blue });
    assert_eq!(wires[1], Wire { start: Position::new(8_230_000, 8_230_000, 0), end: Position::new(16_460_000, 8_230_000, 0), color: red });
    assert_eq!(wires[2], Wire { start: Position::new(0, 0, 0), end: Position::new(8_230_000, 0, 0), color: blue });
    assert_eq!(wires[3], Wire { start: Position::new(8_230_000, 0, 0), end: Position::new(16_460_000, 0, 0), color: red });
    assert_eq!(wires[4], Wire { start: Position::new(0, 0, 0), end: Position::new(0, 8_230_000, 0), color: blue });
    assert_eq!(wires[5], Wire { start: Position::new(16_460_000, 0, 0), end: Position::new(16_460_000, 8_230_000, 0), color: red });
    assert_eq!(wires[6].color, Color::new(255, 255, 0));
    assert_eq!(wires[6].start, wires[6].end);
    assert_eq!(wires[7], Wire { start: Position::new(8_230_000, 0, 0), end: Position::new(8_230_000, 8_230_000, 0), color: white });
    assert_eq!(wires[8], Wire { start: Position::new(0, 0, 0), end: Position::new(0, 0, 1_000_000), color: white });
}

#[test]
fn new_wire_is_white() {
    let w = Wire::new(Position::new(1, 2, 3), Position::new(4, 5, 6));
    assert_eq!(w.color, Color::new(255, 255, 255));
    assert_eq!((w.start, w.end), (Position::new(1, 2, 3), Position::new(4, 5, 6)));
}
