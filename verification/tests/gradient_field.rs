use potential_path::gradient_field::{field_at, FieldKind, GradientWire};
use potential_path::obstacle::Obstacle;
use potential_path::position::Position;
use potential_path::wire::Color;

fn obstacles() -> Vec<Obstacle> {
    vec![Obstacle::new(Position::new(8_000_000, 4_000_000, 0), 1_000_000).unwrap()]
}

#[test]
fn grid_has_a_line_per_spacing_and_one_on_each_far_edge() {
    let g = GradientWire::new(&[], FieldKind::CosineBump, 500_000, 500_000, 500_000);
    assert_eq!(g.x_wires.len(), 8 + 1);
    assert_eq!(g.y_wires.len(), 4 + 1);
    for line in &g.x_wires {
        assert_eq!(line.len(), 4);
    }
    for line in &g.y_wires {
        assert_eq!(line.len(), 7);
    }
    assert_eq!(g.get_all_wires().len(), 9 * 4 + 5 * 7);
    assert_eq!(g.color, None);
    assert_eq!((g.x_resolution, g.y_resolution, g.line_resolution), (500_000, 500_000, 500_000));
}

#[test]
fn lines_run_across_the_whole_field() {
    let g = GradientWire::new(&[], FieldKind::CosineBump, 500_000, 500_000, 500_000);
    let first = &g.x_wires[0];
    assert_eq!(first[0].start, Position::new(0, 0, 0));
    assert_eq!(first[0].end, Position::new(0, 2_057_500, 0));
    assert_eq!(first[3].start, Position::new(0, 6_172_500, 0));
    assert_eq!(first[3].end, Position::new(0, 8_230_000, 0));
    assert_eq!(g.x_wires[1][0].start, Position::new(2_057_500, 0, 0));
    assert_eq!(g.x_wires[8][0].start, Position::new(16_460_000, 0, 0));
    let along_x = &g.y_wires[1];
    assert_eq!(along_x[0].start, Position::new(0, 2_057_500, 0));
    assert_eq!(along_x[6].end, Position::new(16_460_000, 2_057_500, 0));
    assert_eq!(g.y_wires[4][6].end, Position::new(16_460_000, 8_230_000, 0));
    for line in g.x_wires.iter().chain(g.y_wires.iter()) {
        for pair in line.windows(2) {
            assert_eq!(pair[0].end, pair[1].start);
        }
    }
}

#[test]
fn wire_ends_are_raised_to_the_field() {
    let obs = obstacles();
    for kind in [FieldKind::CosineBump, FieldKind::Gaussian] {
        let g = GradientWire::new(&obs, kind, 1_000_000, 1_000_000, 100_000);
        let mut raised = 0;
        for w in g.get_all_wires() {
            assert_eq!(w.start.z, field_at(kind, &obs, w.start.x, w.start.y));
            assert_eq!(w.end.z, field_at(kind, &obs, w.end.x, w.end.y));
            assert_eq!(w.color, Color::new(255, 255, 255));
            if w.start.z > 0 {
                raised += 1;
            }
        }
        assert!(raised > 0);
    }
    assert_eq!(field_at(FieldKind::CosineBump, &obs, 8_000_000, 4_000_000), 2_670_354);
    assert_eq!(field_at(FieldKind::Gaussian, &obs, 8_000_000, 4_000_000), 5_340_708);
    assert_eq!(field_at(FieldKind::CosineBump, &obs, 0, 0), 0);
}

#[test]
fn low_resolutions_are_raised_to_the_least() {
    let g = GradientWire::new(&[], FieldKind::CosineBump, 0, -5, 0);
    assert_eq!(g.x_wires.len(), 2);
    assert_eq!(g.y_wires.len(), 2);
    assert_eq!(g.x_wires[0].len(), 165);
    assert_eq!(g.y_wires[0].len(), 330);
    let coarse = GradientWire::new(&[], FieldKind::CosineBump, 1_000_000, 1_000_000, i64::MAX);
    assert_eq!(coarse.x_wires.len(), 17);
    assert_eq!(coarse.x_wires[0].len(), 1);
    assert_eq!(coarse.x_wires[0][0].end, Position::new(0, 8_230_000, 0));
}

#[test]
fn colour_is_applied_and_kept_over_updates() {
    let cyan = Color::new(0, 255, 255);
    let mut g = GradientWire::new(&[], FieldKind::CosineBump, 500_000, 500_000, 500_000).with_color(cyan);
    assert_eq!(g.color, Some(cyan));
    assert!(g.get_all_wires().iter().all(|w| w.color == cyan));
    let obs = obstacles();
    g.x_resolution = 1_000_000;
    g.field = FieldKind::Gaussian;
    g.update(&obs);
    assert_eq!(g.x_wires.len(), 17);
    assert!(g.get_all_wires().iter().all(|w| w.color == cyan));
    assert!(g.get_all_wires().iter().any(|w| w.start.z > 0));
    g.set_color(Color::new(9, 9, 9));
    assert!(g.get_all_wires().iter().all(|w| w.color == Color::new(9, 9, 9)));
    let before = g.get_all_wires();
    g.apply_color();
    assert_eq!(g.get_all_wires(), before);
}
