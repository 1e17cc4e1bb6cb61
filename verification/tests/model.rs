use potential_path::model::{Model, ModelConfig};
use potential_path::position::Position;
use potential_path::wire::{Color, Wire};

fn wire(a: (i64, i64, i64), b: (i64, i64, i64)) -> Wire {
    Wire::new(Position::new(a.0, a.1, a.2), Position::new(b.0, b.1, b.2))
}

#[test]
fn scale_centres_and_stretches() {
    let mut m = Model::new(vec![wire((0, 0, 0), (4_000_000, 2_000_000, 0)), wire((4_000_000, 2_000_000, 0), (0, 2_000_000, 1_000_000))]);
    m.scale(1_000_000);
    assert_eq!(
        m.wires,
        vec![
            wire((-500_000, -250_000, -125_000), (500_000, 250_000, -125_000)),
            wire((500_000, 250_000, -125_000), (-500_000, 250_000, 125_000)),
        ]
    );
    assert!(m.config.is_none());
}

#[test]
fn scale_keeps_colours_and_rounds_toward_zero() {
    let mut m = Model::new(vec![Wire { start: Position::new(0, 0, 0), end: Position::new(3, 1, 0), color: Color::new(1, 2, 3) }]);
    m.scale(10);
    assert_eq!(m.wires[0].color, Color::new(1, 2, 3));
    assert_eq!(m.wires[0].start, Position::new(-3, 0, 0));
    assert_eq!(m.wires[0].end, Position::new(6, 3, 0));
}

#[test]
fn scale_of_a_point_or_of_nothing_only_centres() {
    let mut dot = Model::new(vec![wire((7, 8, 9), (7, 8, 9))]);
    dot.scale(5_000_000);
    assert_eq!(dot.wires, vec![wire((0, 0, 0), (0, 0, 0))]);
    let mut none = Model::new(Vec::new());
    none.scale(5_000_000);
    assert!(none.wires.is_empty());
}

#[test]
fn position_at_moves_every_wire() {
    let mut m = Model::new(vec![wire((0, 0, 0), (1, 1, 1)), wire((1, 1, 1), (2, 0, 2))]);
    m.position_at(Position::new(10, -20, 30));
    assert_eq!(m.wires, vec![wire((10, -20, 30), (11, -19, 31)), wire((11, -19, 31), (12, -20, 32))]);
}

#[test]
fn position_at_lifts_a_model_configured_at_the_origin() {
    let mut m = Model::new(vec![wire((0, 0, 0), (1, 1, 1))]);
    m.config = Some(ModelConfig { position: Position::new(50, -50, 0), scale: 2_000_000 });
    m.position_at(Position::new(5, 5, 5));
    assert_eq!(m.wires, vec![wire((5, 5, 1_000_005), (6, 6, 1_000_006))]);
    m.config = Some(ModelConfig { position: Position::new(100, 0, 0), scale: 2_000_000 });
    m.position_at(Position::new(-5, -5, -5));
    assert_eq!(m.wires, vec![wire((0, 0, 1_000_000), (1, 1, 1_000_001))]);
}

#[test]
fn move_by_moves_without_lifting() {
    let mut m = Model::new(vec![wire((0, 0, 0), (1, 1, 1))]);
    m.config = Some(ModelConfig { position: Position::new(0, 0, 0), scale: 2_000_000 });
    m.move_by(3, 4, 5);
    assert_eq!(m.wires, vec![wire((3, 4, 5), (4, 5, 6))]);
}

#[test]
fn configure_scales_places_and_records() {
    let mut m = Model::new(vec![wire((0, 0, 0), (2_000_000, 0, 0))]);
    let config = ModelConfig { position: Position::new(1_000_000, 1_000_000, 0), scale: 500_000 };
    m.configure(config);
    assert_eq!(m.wires, vec![wire((750_000, 1_000_000, 0), (1_250_000, 1_000_000, 0))]);
    assert_eq!(m.config, Some(config));
}

#[test]
fn duplicate_wires_are_removed_in_either_direction() {
    let a = wire((0, 0, 0), (1_000_000, 0, 0));
    let b = wire((1_000_000, 0, 0), (1_000_000, 1_000_000, 0));
    let c = wire((1_000_000, 1_000_000, 0), (0, 0, 0));
    let a_back = wire((1_000_050, 0, 0), (0, 0, 99));
    let b_again = wire((1_000_000, 0, -99), (1_000_000, 1_000_000, 0));
    let mut wires = vec![a, a_back, b, b_again, c, a];
    Model::remove_duplicate_wires(&mut wires);
    assert_eq!(wires, vec![a, c, b]);
}

#[test]
fn wires_that_differ_by_the_tolerance_are_kept() {
    let a = wire((0, 0, 0), (1_000_000, 0, 0));
    let near = wire((100, 0, 0), (1_000_000, 0, 0));
    let mut wires = vec![a, near];
    Model::remove_duplicate_wires(&mut wires);
    assert_eq!(wires, vec![a, near]);
    let mut empty: Vec<Wire> = Vec::new();
    Model::remove_duplicate_wires(&mut empty);
    assert!(empty.is_empty());
}

#[test]
fn two_triangles_share_an_edge() {
    let vertices = [
        Position::new(0, 0, 0),
        Position::new(1_000_000, 0, 5),
        Position::new(1_000_000, 1_000_000, 0),
        Position::new(0, 1_000_000, -5),
    ];
    let faces = [[0usize, 1, 2], [0, 2, 3]];
    let m = Model::from_triangles(&vertices, &faces).unwrap();
    assert_eq!(m.wires.len(), 5);
    assert!(m.config.is_none());
    assert_eq!(m.wires[0], wire((0, 0, 0), (1_000_000, 0, -5)));
    assert!(m.wires.contains(&wire((0, 1_000_000, 5), (0, 0, 0))));
    assert!(m.is_bounded());
}

#[test]
fn bad_meshes_are_refused() {
    let vertices = [Position::new(0, 0, 0), Position::new(1, 0, 0), Position::new(0, 1, 0)];
    assert!(Model::from_triangles(&vertices, &[[0, 1, 3]]).is_none());
    let far = [Position::new(0, 0, 0), Position::new(1, 0, 0), Position::new(0, 1, 1_000_000_000_000_001)];
    assert!(Model::from_triangles(&far, &[[0, 1, 2]]).is_none());
    assert!(Model::from_triangles(&far, &[]).is_none());
    let m = Model::from_triangles(&vertices, &[]).unwrap();
    assert!(m.wires.is_empty());
    assert!(!Model::new(vec![wire((0, 0, 0), (0, -1_000_000_000_000_001, 0))]).is_bounded());
}
