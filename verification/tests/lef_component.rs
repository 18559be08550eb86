use topstitch::geometry::{BoundingBox, Coordinate, Polygon};
use topstitch::io::IO;
use topstitch::lefcomponent::{lef_component, to_lef_component, LefComponentError};
use topstitch::lefdef::{LefPin, LefShape};
use topstitch::pinplan::PinPlan;

fn c(x: i64, y: i64) -> Coordinate {
    Coordinate { x, y }
}

fn rect(x0: i64, y0: i64, x1: i64, y1: i64) -> Polygon {
    Polygon::new(vec![c(x0, y0), c(x0, y1), c(x1, y1), c(x1, y0)])
}

fn ports() -> Vec<(String, IO)> {
    vec![("a".to_string(), IO::Input(1)), ("b".to_string(), IO::Output(2))]
}

fn placed() -> PinPlan {
    let mut p = PinPlan::from_width_height(100, 200);
    p.place_pin("b", 1, "M1", c(0, 50), rect(-1, -2, 1, 2));
    p.place_pin("a", 0, "M2", c(30, 200), rect(-2, -1, 2, 1));
    p.place_pin("b", 0, "M1", c(0, 20), rect(-1, -2, 1, 2));
    p
}

fn pin(name: &str, direction: &str, layer: &str, polygon: Vec<(i64, i64)>) -> LefPin {
    LefPin {
        name: name.to_string(),
        direction: direction.to_string(),
        shape: LefShape { layer: layer.to_string(), polygon },
    }
}

#[test]
fn lef_macro_lists_pins_port_by_port_and_bit_by_bit() {
    let m = lef_component(&placed(), "blk", &ports(), None, '[', ']', true).unwrap();
    assert_eq!(m.name, "blk");
    assert_eq!((m.width, m.height), (100, 200));
    assert_eq!(m.shape.layer, "OUTLINE");
    assert_eq!(m.shape.polygon, vec![(0, 0), (0, 200), (100, 200), (100, 0)]);
    assert_eq!(
        m.pins,
        vec![
            pin("b[0]", "OUTPUT", "M1", vec![(-1, 18), (-1, 22), (1, 22), (1, 18)]),
            pin("b[1]", "OUTPUT", "M1", vec![(-1, 48), (-1, 52), (1, 52), (1, 48)]),
            pin("a", "INPUT", "M2", vec![(28, 199), (28, 201), (32, 201), (32, 199)]),
        ]
    );
    let same = to_lef_component(&placed(), "blk", &ports(), None, '[', ']', true);
    assert_eq!(same, m);
}

#[test]
fn lef_macro_without_pins_and_with_a_layer() {
    let m = lef_component(&placed(), "blk", &ports(), Some("BLOCK"), '<', '>', false).unwrap();
    assert_eq!(m.shape.layer, "BLOCK");
    assert!(m.pins.is_empty());
}

#[test]
fn lef_macro_faults() {
    let only_b = vec![("b".to_string(), IO::Output(2))];
    assert_eq!(
        lef_component(&placed(), "blk", &only_b, None, '[', ']', true),
        Err(LefComponentError::UnknownPort("a".to_string()))
    );
    let below = PinPlan::new(Polygon::from_bbox(&BoundingBox { min_x: -10, max_x: 10, min_y: 0, max_y: 20 }))
        .ok()
        .unwrap();
    assert_eq!(
        lef_component(&below, "blk", &ports(), None, '[', ']', true),
        Err(LefComponentError::NegativeCoordinates)
    );
}
