use topstitch::geometry::{Coordinate, Polygon, Range};
use topstitch::occupancy::PinPlacementError;
use topstitch::pinplan::{BatchPinPlacementError, LayerShapes, PinPlan, ShapeError, TrackDefinitions};
use topstitch::portslice::PinSlice;
use topstitch::tracks::{TrackDefinition, TrackOrientation};

fn c(x: i64, y: i64) -> Coordinate {
    Coordinate { x, y }
}

fn rect(x0: i64, y0: i64, x1: i64, y1: i64) -> Polygon {
    Polygon::new(vec![c(x0, y0), c(x0, y1), c(x1, y1), c(x1, y0)])
}

/// A 100 x 200 module with horizontal tracks every 10 on the vertical
/// edges (layer M1, 21 tracks) and vertical tracks at 5, 15, ... on the
/// horizontal edges (layer M2, 10 tracks).
fn plan() -> PinPlan {
    let mut p = PinPlan::from_width_height(100, 200);
    let mut defs = TrackDefinitions::new();
    defs.add_track(TrackDefinition::new(
        "M1",
        0,
        10,
        TrackOrientation::Horizontal,
        Some(rect(-1, -2, 1, 2)),
        Some(rect(-1, -15, 1, 15)),
    ));
    defs.add_track(TrackDefinition::new("M2", 5, 10, TrackOrientation::Vertical, None, None));
    p.set_track_definitions(defs);
    p
}

#[test]
fn shapes_are_validated() {
    assert!(PinPlan::new(rect(0, 0, 10, 10)).is_ok());
    let ccw = Polygon::new(vec![c(0, 0), c(10, 0), c(10, 10), c(0, 10)]);
    assert_eq!(PinPlan::new(ccw).err(), Some(ShapeError::NotClockwise));
    let tri = Polygon::new(vec![c(0, 0), c(0, 10), c(10, 0)]);
    assert_eq!(PinPlan::new(tri).err(), Some(ShapeError::NotRectilinear));
    let late = Polygon::new(vec![c(0, 10), c(10, 10), c(10, 0), c(0, 0)]);
    assert_eq!(
        PinPlan::new(late).err(),
        Some(ShapeError::NotStartingWithLeftmostVerticalEdge)
    );
    assert_eq!(PinPlan::new(Polygon::new(vec![])).err(), Some(ShapeError::NotClockwise));
    let p = PinPlan::from_width_height(3, 4);
    assert!(p.shape_is_rectangular());
    assert_eq!(p.get_num_edges(), 4);
}

#[test]
fn track_definitions_replace_by_name() {
    let mut defs = TrackDefinitions::new();
    defs.add_track(TrackDefinition::new("M1", 0, 10, TrackOrientation::Horizontal, None, None));
    defs.add_track(TrackDefinition::new("M2", 0, 4, TrackOrientation::Vertical, None, None));
    defs.add_track(TrackDefinition::new("M1", 3, 7, TrackOrientation::Horizontal, None, None));
    assert_eq!(defs.0.len(), 2);
    assert_eq!(defs.0[0].name, "M1");
    assert_eq!(defs.get_track("M1").map(|t| (t.offset, t.period)), Some((3, 7)));
    assert_eq!(defs.get_track("M2").map(|t| t.period), Some(4));
    assert!(defs.get_track("M3").is_none());
}

#[test]
fn layers_and_edges() {
    let p = plan();
    assert_eq!(p.get_layers(), vec!["M1".to_string(), "M2".to_string()]);
    let e = p.get_edge(1).unwrap();
    assert_eq!((e.a, e.b), (c(0, 200), c(100, 200)));
    assert!(p.get_edge(4).is_none());
    assert_eq!(p.get_track("M2").map(|t| t.offset), Some(5));
    assert_eq!(p.track_range_for_polygon("M1", 3, &rect(-1, -15, 1, 15)), (2, 4));
    assert_eq!(p.nearest_relative_track_index(0, "M1", &c(0, 34)), Some(3));
    assert_eq!(p.nearest_relative_track_index(0, "M1", &c(0, 35)), Some(4));
    assert_eq!(p.nearest_relative_track_index(0, "M1", &c(0, 250)), None);
    assert_eq!(p.nearest_relative_track_index(1, "M1", &c(0, 35)), None);
    assert_eq!(p.nearest_relative_track_index(1, "M2", &c(26, 200)), Some(2));
}

#[test]
fn single_pin_placement_and_checks() {
    let mut p = plan();
    assert_eq!(p.place_pin_on_edge_index("a", 0, 0, "M1", 3), Ok(()));
    assert_eq!(p.pins.len(), 1);
    assert_eq!(p.pins[0].port, "a");
    assert_eq!(p.pins[0].pin.layer, "M1");
    assert_eq!(p.pins[0].pin.position, c(0, 30));
    assert!(p.pins[0].pin.polygon == rect(-1, -2, 1, 2));
    assert_eq!(
        p.check_pin_placement_on_edge_index(0, "M1", 3),
        Err(PinPlacementError::OverlapsExistingPin { min_index: 3, max_index: 3 })
    );
    assert_eq!(
        p.check_pin_placement_on_edge_index(0, "M1", 4),
        Err(PinPlacementError::OverlapsKeepout { min_index: 4, max_index: 4 })
    );
    assert!(!p.can_place_pin_on_edge_index(0, "M1", 2));
    assert!(p.can_place_pin_on_edge_index(0, "M1", 5));
    assert_eq!(
        p.check_pin_placement_on_edge_index(7, "M1", 0),
        Err(PinPlacementError::EdgeOutOfBounds { edge_index: 7, num_edges: 4 })
    );
    assert_eq!(
        p.check_pin_placement_on_edge_index(1, "M1", 0),
        Err(PinPlacementError::LayerUnavailable { layer: "M1".to_string() })
    );
    assert_eq!(
        p.check_pin_placement_on_edge_index(0, "M1", 25),
        Err(PinPlacementError::OutOfBounds { min_index: 25, max_index: 25, num_tracks: 21 })
    );
    assert_eq!(
        p.check_pin_placement_on_edge_index_with_polygon(0, "M9", 0, None, None),
        Err(PinPlacementError::LayerUnavailable { layer: "M9".to_string() })
    );
    // a refused placement changes nothing
    assert_eq!(
        p.place_pin_on_edge_index("b", 0, 0, "M1", 3),
        Err(PinPlacementError::OverlapsExistingPin { min_index: 3, max_index: 3 })
    );
    assert_eq!(p.pins.len(), 1);
}

#[test]
fn pins_face_out_of_their_edge() {
    let mut p = plan();
    let pin = rect(-1, 0, 1, 4);
    assert_eq!(
        p.place_pin_on_edge_index_with_polygon("s", 2, 2, "M1", 1, Some(&pin), None),
        Ok(())
    );
    // edge 2 runs south along x = 100; track 1 of it is at y = 10
    assert_eq!(p.pins[0].pin.position, c(100, 10));
    assert_eq!(p.pins[0].pin.polygon.0, vec![c(1, 0), c(1, -4), c(-1, -4), c(-1, 0)]);
    // placing the same bit again replaces its record
    assert_eq!(
        p.place_pin_on_edge_index_with_polygon("s", 2, 2, "M1", 5, Some(&pin), None),
        Ok(())
    );
    assert_eq!(p.pins.len(), 1);
    assert_eq!(p.pins[0].pin.position, c(100, 50));
}

#[test]
fn keepouts_and_marks() {
    let mut p = plan();
    p.define_keepout_on_edge_index(0, "M1", 10, &rect(-1, -25, 1, 25));
    assert_eq!(
        p.check_pin_placement_on_edge_index(0, "M1", 8),
        Err(PinPlacementError::OverlapsKeepout { min_index: 8, max_index: 8 })
    );
    assert!(p.can_place_pin_on_edge_index(0, "M1", 13));
    p.mark_pin_range(0, "M1", 13, 13);
    assert!(!p.can_place_pin_on_edge_index(0, "M1", 13));
    p.mark_pin_and_keepout_ranges(0, "M1", 16, 16, 15, 17);
    assert!(!p.can_place_pin_on_edge_index(0, "M1", 17));
    p.mark_keepout_range(0, "M1", 19, 30);
    assert!(!p.can_place_pin_on_edge_index(0, "M1", 20));
    // edges without the layer are left alone
    p.mark_pin_range(1, "M1", 0, 0);
    p.mark_keepout_range(3, "M1", 0, 0);
}

fn pins(port: &str, n: usize) -> Vec<(String, usize)> {
    (0..n).map(|i| (port.to_string(), i)).collect()
}

fn m1_shapes() -> LayerShapes {
    LayerShapes {
        layer: "M1".to_string(),
        pin: rect(-1, -2, 1, 2),
        keepout: Some(rect(-1, -15, 1, 15)),
    }
}

#[test]
fn batch_placement_takes_free_tracks_in_order() {
    let mut p = plan();
    assert_eq!(p.place_pin_on_edge_index("a", 0, 0, "M1", 3), Ok(()));
    let r = p.place_pins_on_edge_index_with_polygons(
        &pins("b", 3),
        0,
        &[m1_shapes()],
        Range::new(0, 100),
        None,
    );
    assert_eq!(r.map_err(|e| format!("{e:?}")), Ok(()));
    let placed: Vec<(String, usize, Coordinate)> = p
        .pins
        .iter()
        .map(|q| (q.port.clone(), q.bit, q.pin.position))
        .collect();
    assert_eq!(
        placed,
        vec![
            ("a".to_string(), 0, c(0, 30)),
            ("b".to_string(), 0, c(0, 0)),
            ("b".to_string(), 1, c(0, 50)),
            ("b".to_string(), 2, c(0, 70)),
        ]
    );
}

#[test]
fn batch_placement_reports_shortfall_and_bad_windows() {
    let mut p = plan();
    let r = p.place_pins_on_edge_index_with_polygons(
        &pins("b", 5),
        0,
        &[m1_shapes()],
        Range::new(0, 30),
        None,
    );
    match r {
        Err(BatchPinPlacementError::RanOutOfLayers { requested, placed }) => {
            assert_eq!((requested, placed), (5, 2));
        }
        other => panic!("unexpected {other:?}"),
    }
    let mut q = plan();
    let r = q.place_pins_on_edge_index_with_polygons(
        &pins("b", 1),
        0,
        &[m1_shapes()],
        Range::new(0, 300),
        None,
    );
    match r {
        Err(BatchPinPlacementError::RequestOutOfBounds { edge_index, edge_range, req_range }) => {
            assert_eq!(edge_index, 0);
            assert_eq!(edge_range, Range::new(0, 200));
            assert_eq!(req_range, Range::new(0, 300));
        }
        other => panic!("unexpected {other:?}"),
    }
    assert!(q.pins.is_empty());
    // a window that starts past the edge and has no upper bound
    let r = q.place_pins_on_edge_index_with_polygons(
        &pins("b", 1),
        0,
        &[m1_shapes()],
        Range::from_min(250),
        None,
    );
    match r {
        Err(BatchPinPlacementError::RequestOutOfBounds { edge_index, edge_range, req_range }) => {
            assert_eq!(edge_index, 0);
            assert_eq!(edge_range, Range::new(0, 200));
            assert_eq!(req_range, Range::from_min(250));
        }
        other => panic!("unexpected {other:?}"),
    }
    assert!(q.pins.is_empty());
}

#[test]
fn batch_placement_rejects_a_missing_edge() {
    let mut p = plan();
    let r = p.place_pins_on_edge_index_with_polygons(&pins("b", 1), 7, &[m1_shapes()], Range::any(), None);
    match r {
        Err(BatchPinPlacementError::EdgeOutOfBounds { edge_index, num_edges }) => {
            assert_eq!((edge_index, num_edges), (7, 4));
        }
        other => panic!("unexpected {other:?}"),
    }
    let r = p.place_pins_on_edge_index(&pins("b", 1), 4, &["M1".to_string()], Range::any(), None);
    assert!(matches!(r, Err(BatchPinPlacementError::EdgeOutOfBounds { edge_index: 4, num_edges: 4 })));
    let r = p.spread_pins_on_edge_index(&pins("b", 1), 9, &["M1".to_string()], Range::any());
    assert!(matches!(r, Err(BatchPinPlacementError::EdgeOutOfBounds { edge_index: 9, num_edges: 4 })));
    assert!(p.pins.is_empty());
}

#[test]
fn batch_placement_honours_spacing_and_layer_order() {
    let mut p = plan();
    let r = p.place_pins_on_edge_index(
        &pins("d", 3),
        0,
        &["M2".to_string(), "M1".to_string()],
        Range::new(0, 200),
        Some(40),
    );
    assert!(r.is_ok());
    let ys: Vec<i64> = p.pins.iter().map(|q| q.pin.position.y).collect();
    assert_eq!(ys, vec![0, 40, 80]);
}

#[test]
fn default_layer_shapes() {
    let p = plan();
    let shapes = p.get_default_layer_shapes(&[
        "M1".to_string(),
        "M9".to_string(),
        "M1".to_string(),
        "M2".to_string(),
    ]);
    assert_eq!(shapes.len(), 1);
    assert_eq!(shapes[0].layer, "M1");
    assert!(shapes[0].pin == rect(-1, -2, 1, 2));
    assert!(shapes[0].keepout.as_ref().map(|k| *k == rect(-1, -15, 1, 15)).unwrap_or(false));
}

#[test]
fn spreading_finds_the_widest_spacing() {
    let mut p = plan();
    let r = p.spread_pins_on_edge_index_with_polygons(&pins("s", 3), 0, &[m1_shapes()], Range::new(0, 100));
    assert_eq!(r.map_err(|e| format!("{e:?}")), Ok(50));
    let ys: Vec<i64> = p.pins.iter().map(|q| q.pin.position.y).collect();
    assert_eq!(ys, vec![0, 50, 100]);
    let mut q = plan();
    let r = q.spread_pins_on_edge_index(&pins("s", 2), 0, &["M1".to_string()], Range::new(0, 60));
    assert_eq!(r.map_err(|e| format!("{e:?}")), Ok(60));
    let ys: Vec<i64> = q.pins.iter().map(|x| x.pin.position.y).collect();
    assert_eq!(ys, vec![0, 60]);
}

#[test]
fn error_messages() {
    assert_eq!(Range::new(1, 5).to_string(), "[1, 5]");
    assert_eq!(Range::from_min(-3).to_string(), "[-3, ...]");
    assert_eq!(Range::from_max(7).to_string(), "[..., 7]");
    assert_eq!(Range::any().to_string(), "[...]");
    assert_eq!(
        PinPlacementError::OutOfBounds { min_index: 25, max_index: 26, num_tracks: 21 }.to_string(),
        "requested track span [25..=26] is outside available range [0..=20]"
    );
    assert_eq!(
        PinPlacementError::OutOfBounds { min_index: 0, max_index: 0, num_tracks: 0 }.to_string(),
        "requested track span [0..=0] is outside available range [0..=0]"
    );
    assert_eq!(
        PinPlacementError::OverlapsExistingPin { min_index: -1, max_index: 2 }.to_string(),
        "requested track span [-1..=2] overlaps an existing pin"
    );
    assert_eq!(
        PinPlacementError::OverlapsKeepout { min_index: 3, max_index: 3 }.to_string(),
        "requested track span [3..=3] overlaps a keepout region"
    );
    assert_eq!(
        PinPlacementError::LayerUnavailable { layer: "M3".to_string() }.to_string(),
        "layer 'M3' has no tracks on this edge"
    );
    assert_eq!(
        PinPlacementError::EdgeOutOfBounds { edge_index: 9, num_edges: 4 }.to_string(),
        "edge index 9 is out of bounds (4 edges available)"
    );
    assert_eq!(
        PinPlacementError::NotInitialized("Track occupancies").to_string(),
        "Track occupancies not initialized; call set_shape and set_track_definitions first"
    );
    assert_eq!(
        BatchPinPlacementError::RanOutOfLayers { requested: 5, placed: 2 }.to_string(),
        "unable to place all pins: requested 5, placed 2 (ran out of layers)"
    );
    assert_eq!(
        BatchPinPlacementError::EdgeOutOfBounds { edge_index: 4, num_edges: 4 }.to_string(),
        "edge index 4 is out of bounds (4 edges available)"
    );
    assert_eq!(
        BatchPinPlacementError::RequestOutOfBounds {
            edge_index: 0,
            edge_range: Range::new(0, 200),
            req_range: Range::new(0, 300),
        }
        .to_string(),
        "requested coordinate range [0, 300] on edge 0 lies outside edge span [0, 200]"
    );
    assert_eq!(
        BatchPinPlacementError::OffTrackRange {
            layer: "M1".to_string(),
            req_range: Range::from_min(2),
            edge_range: Range::new(0, 9),
        }
        .to_string(),
        "requested absolute track range [2, ...] on layer 'M1' lies outside edge coverage [0, 9]"
    );
}

fn bit_of(port: &str, width: usize, bit: usize) -> PinSlice {
    PinSlice { port_name: port.to_string(), is_mod_def_port: true, port_width: width, msb: bit, lsb: bit }
}

#[test]
fn port_slices_place_their_bit() {
    let mut p = plan();
    let s = bit_of("data", 8, 5);
    assert_eq!(s.port_name_and_bit(), ("data", 5));
    assert_eq!(p.place_slice_on_edge_index(&s, 0, "M1", 3), Ok(()));
    assert_eq!((p.pins[0].port.as_str(), p.pins[0].bit), ("data", 5));
    assert_eq!(p.pins[0].pin.position, c(0, 30));
    assert_eq!(
        p.place_slice_on_edge_index(&bit_of("data", 8, 6), 0, "M1", 3),
        Err(PinPlacementError::OverlapsExistingPin { min_index: 3, max_index: 3 })
    );
    let pin = rect(-1, 0, 1, 4);
    assert_eq!(
        p.place_slice_on_edge_index_with_polygon(&bit_of("data", 8, 6), 0, "M1", 10, Some(&pin), None),
        Ok(())
    );
    assert_eq!(p.pins.len(), 2);
    p.place_slice(&bit_of("en", 1, 0), "M2", c(50, 200), rect(-2, -1, 2, 1));
    assert_eq!((p.pins[2].port.as_str(), p.pins[2].bit, p.pins[2].pin.position), ("en", 0, c(50, 200)));
}
