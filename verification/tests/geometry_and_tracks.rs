use topstitch::geometry::{BoundingBox, Coordinate, Edge, EdgeOrientation, Placement, Polygon, Range};
use topstitch::occupancy::{PinPlacementError, TrackOccupancy};
use topstitch::tracks::{TrackDefinition, TrackOrientation};
use topstitch::transform::{Mat3, Orientation};

fn c(x: i64, y: i64) -> Coordinate {
    Coordinate { x, y }
}

fn r(min: Option<i64>, max: Option<i64>) -> Range {
    Range { min, max }
}

#[test]
fn range_constructors_and_queries() {
    assert_eq!(Range::new(5, 2), r(Some(2), Some(5)));
    assert_eq!(Range::from_min(3), r(Some(3), None));
    assert_eq!(Range::from_max(3), r(None, Some(3)));
    assert_eq!(Range::any(), r(None, None));
    assert_eq!(Range::default(), r(None, None));
    let a = Range::new(0, 10);
    assert!(a.contains(0) && a.contains(10) && !a.contains(11) && !a.contains(-1));
    assert!(Range::any().contains(i64::MIN));
    assert!(Range::new(2, 3).is_subset_of(&a));
    assert!(!Range::new(2, 13).is_subset_of(&a));
    assert!(!Range::from_min(4).is_subset_of(&a));
    assert!(!Range::any().is_subset_of(&a));
    assert!(Range::new(4, 10).is_subset_of(&Range::from_min(3)));
    assert!(Range { min: Some(5), max: Some(4) }.is_subset_of(&a));
    assert!(Range::from_min(4).bounds_within(&a));
    assert!(!Range::from_min(11).bounds_within(&a));
}

#[test]
fn range_intersection_is_common_part() {
    let a = Range::new(0, 10);
    let b = Range::new(5, 20);
    assert_eq!(a.intersection(&b), Some(Range::new(5, 10)));
    assert_eq!(b.intersection(&a), a.intersection(&b));
    assert_eq!(a.intersection(&Range::new(11, 12)), None);
    assert_eq!(a.intersection(&Range::from_min(7)), Some(Range::new(7, 10)));
    assert_eq!(Range::any().intersection(&Range::any()), Some(Range::any()));
    for v in -2..25 {
        let both = a.contains(v) && b.contains(v);
        let inter = a.intersection(&b).map(|i| i.contains(v)).unwrap_or(false);
        assert_eq!(both, inter);
    }
}

#[test]
fn edge_orientation_and_ranges() {
    let up = Edge { a: c(0, 0), b: c(0, 10) };
    let down = Edge { a: c(5, 10), b: c(5, 0) };
    let east = Edge { a: c(0, 10), b: c(7, 10) };
    let west = Edge { a: c(7, 0), b: c(0, 0) };
    let slanted = Edge { a: c(0, 0), b: c(3, 4) };
    assert_eq!(up.orientation(), Some(EdgeOrientation::North));
    assert_eq!(down.orientation(), Some(EdgeOrientation::South));
    assert_eq!(east.orientation(), Some(EdgeOrientation::East));
    assert_eq!(west.orientation(), Some(EdgeOrientation::West));
    assert_eq!(slanted.orientation(), None);
    assert_eq!(down.get_coord_range(), Some(Range::new(0, 10)));
    assert_eq!(west.get_coord_range(), Some(Range::new(0, 7)));
    assert_eq!(slanted.get_coord_range(), None);
    assert_eq!(slanted.get_x_range(), Range::new(0, 3));
    assert_eq!(slanted.get_y_range(), Range::new(0, 4));
}

#[test]
fn bounding_boxes() {
    let b = BoundingBox { min_x: -1, max_x: 4, min_y: 2, max_y: 9 };
    assert_eq!(b.get_width(), 5);
    assert_eq!(b.get_height(), 7);
    assert_eq!(b.get_width_height(), (5, 7));
    let u = b.union(&BoundingBox { min_x: 0, max_x: 10, min_y: -3, max_y: 1 });
    assert_eq!((u.min_x, u.max_x, u.min_y, u.max_y), (-1, 10, -3, 9));
    let moved = b.apply_transform(&Mat3::from_orientation(Orientation::R180));
    assert_eq!((moved.min_x, moved.max_x, moved.min_y, moved.max_y), (-4, 1, -9, -2));
}

#[test]
fn rectangle_polygon_is_valid_outline() {
    let p = Polygon::from_width_height(10, 20);
    assert_eq!(p.0, vec![c(0, 0), c(0, 20), c(10, 20), c(10, 0)]);
    assert!(p.is_rectilinear());
    assert!(p.is_clockwise());
    assert!(p.starts_with_leftmost_vertical_edge());
    assert_eq!(p.num_vertices(), 4);
    assert_eq!(p.num_edges(), 4);
    let e = p.get_edge(3);
    assert_eq!((e.a, e.b), (c(10, 0), c(0, 0)));
    let b = p.bbox();
    assert_eq!((b.min_x, b.max_x, b.min_y, b.max_y), (0, 10, 0, 20));
    let q = Polygon::from_bbox(&BoundingBox { min_x: 1, max_x: 3, min_y: -2, max_y: 5 });
    assert_eq!(q.0, vec![c(1, -2), c(1, 5), c(3, 5), c(3, -2)]);
}

#[test]
fn polygon_shape_checks() {
    let ccw = Polygon::new(vec![c(0, 0), c(10, 0), c(10, 10), c(0, 10)]);
    assert!(ccw.is_rectilinear());
    assert!(!ccw.is_clockwise());
    let tri = Polygon::new(vec![c(0, 0), c(0, 10), c(10, 0)]);
    assert!(!tri.is_rectilinear());
    let late = Polygon::new(vec![c(0, 10), c(10, 10), c(10, 0), c(0, 0)]);
    assert!(!late.starts_with_leftmost_vertical_edge());
    let l_shape = Polygon::new(vec![
        c(0, 0),
        c(0, 20),
        c(10, 20),
        c(10, 10),
        c(20, 10),
        c(20, 0),
    ]);
    assert!(l_shape.is_rectilinear() && l_shape.is_clockwise());
    assert!(l_shape.starts_with_leftmost_vertical_edge());
    // listing the vertices backwards turns the direction round
    let mut backwards = l_shape.0.clone();
    backwards.reverse();
    assert!(!Polygon::new(backwards).is_clockwise());
    let mut backwards = ccw.0.clone();
    backwards.reverse();
    assert!(Polygon::new(backwards).is_clockwise());
}

#[test]
fn polygon_equality_ignores_starting_vertex() {
    let a = Polygon::new(vec![c(0, 0), c(0, 1), c(1, 1), c(1, 0)]);
    let b = Polygon::new(vec![c(1, 1), c(1, 0), c(0, 0), c(0, 1)]);
    let reversed = Polygon::new(vec![c(1, 0), c(1, 1), c(0, 1), c(0, 0)]);
    assert!(a == b);
    assert!(b == a);
    assert!(a != reversed);
    assert!(a.clone() == a);
}

#[test]
fn polygon_transform() {
    let p = Polygon::new(vec![c(1, 0), c(2, 3)]);
    let q = p.apply_transform(&Mat3::from_orientation(Orientation::R90));
    assert_eq!(q.0, vec![c(0, 1), c(-3, 2)]);
    let t = Mat3::translate(5, -1);
    assert_eq!(p.apply_transform(&t).0, vec![c(6, -1), c(7, 2)]);
}

#[test]
fn orientations_compose() {
    assert_eq!(Orientation::R90.prepend_transform(&Orientation::R90), Orientation::R180);
    assert_eq!(Orientation::R90.append_transform(&Orientation::R180), Orientation::R270);
    assert_eq!(Orientation::MX.prepend_transform(&Orientation::MX), Orientation::R0);
    for o in [
        Orientation::R0,
        Orientation::R90,
        Orientation::R180,
        Orientation::R270,
        Orientation::MX,
        Orientation::MY,
        Orientation::MX90,
        Orientation::MY90,
    ] {
        assert_eq!(Mat3::from_orientation(o).as_orientation(), o);
        assert_eq!(o.prepend_transform(&Orientation::R0), o);
        assert_eq!(Orientation::R0.append_transform(&o), o);
    }
    let m = Mat3::from_orientation_then_translation(&Orientation::R90, &c(3, 4));
    assert_eq!(m.as_coordinate(), c(3, 4));
    assert_eq!(m.as_orientation(), Orientation::R90);
    let id = Mat3::identity();
    assert_eq!(id.mul(&m), m);
    assert_eq!(Placement::default().coordinate, c(0, 0));
    assert_eq!(Placement::default().orientation, Orientation::R0);
}

fn m1() -> TrackDefinition {
    TrackDefinition::new("M1", 0, 10, TrackOrientation::Horizontal, None, None)
}

#[test]
fn track_quantization() {
    let t = m1();
    assert_eq!(t.name, "M1");
    assert_eq!(t.convert_coord_range_to_index_range(&Range::new(5, 35)), Range::new(1, 3));
    assert_eq!(t.convert_index_range_to_coord_range(&Range::new(1, 3)), Range::new(10, 30));
    assert_eq!(
        t.convert_coord_range_to_index_range(&Range::from_min(-15)),
        Range::from_min(-1)
    );
    // negative coordinates round the lower bound up and the upper bound down
    assert_eq!(
        t.convert_coord_range_to_index_range(&Range::new(-35, -25)),
        Range::new(-3, -3)
    );
    assert_eq!(t.convert_index_range_to_coord_range(&Range::new(-3, -3)), Range::new(-30, -30));
    assert_eq!(
        t.convert_coord_range_to_index_range(&Range::new(-30, -21)),
        Range::new(-3, -3)
    );
    assert_eq!(t.index_to_position(4), 40);
    let shifted = TrackDefinition::new("M2", 5, 10, TrackOrientation::Vertical, None, None);
    assert_eq!(shifted.index_to_position(-1), -5);
}

#[test]
fn nearest_track_rounds_half_away_from_zero() {
    let t = m1();
    assert_eq!(t.nearest_track_index(14), 1);
    assert_eq!(t.nearest_track_index(15), 2);
    assert_eq!(t.nearest_track_index(-14), -1);
    assert_eq!(t.nearest_track_index(-15), -2);
    assert_eq!(t.nearest_track_index(0), 0);
    let shifted = TrackDefinition::new("M2", 3, 4, TrackOrientation::Vertical, None, None);
    assert_eq!(shifted.nearest_track_index(10), 2);
    // the nearest track to a track's own position is that track
    for i in [-7i64, -1, 0, 1, 5, 12] {
        assert_eq!(shifted.nearest_track_index(shifted.index_to_position(i)), i);
        assert_eq!(t.nearest_track_index(t.index_to_position(i)), i);
    }
}

#[test]
fn tracks_on_edges() {
    let t = TrackDefinition::new("M1", 5, 10, TrackOrientation::Horizontal, None, None);
    let up = Edge { a: c(0, 0), b: c(0, 100) };
    let east = Edge { a: c(0, 0), b: c(100, 0) };
    assert!(TrackOrientation::Horizontal.is_compatible_with_edge_orientation(&EdgeOrientation::North));
    assert!(!TrackOrientation::Horizontal.is_compatible_with_edge_orientation(&EdgeOrientation::East));
    assert!(TrackOrientation::Vertical.is_compatible_with_edge_orientation(&EdgeOrientation::West));
    assert_eq!(up.get_index_range(&t), Some(Range::new(0, 9)));
    assert_eq!(east.get_index_range(&t), None);
    assert_eq!(up.get_position_on_edge(&t, 2), 25);
    assert_eq!(up.get_coordinate_on_edge(&t, 2), c(0, 25));
    let v = TrackDefinition::new("M2", 5, 10, TrackOrientation::Vertical, None, None);
    assert_eq!(east.get_coordinate_on_edge(&v, 3), c(35, 0));
    // the usable indices are exactly those whose tracks lie on the edge
    let w = TrackDefinition::new("M3", 10, 20, TrackOrientation::Horizontal, None, None);
    let r = up.get_index_range(&w).unwrap();
    assert_eq!(r, Range::new(0, 4));
    for k in -3i64..8 {
        let y = w.index_to_position(k);
        assert_eq!(r.contains(k), (0..=100).contains(&y));
    }
    let below = Edge { a: c(0, -100), b: c(0, -35) };
    assert_eq!(below.get_index_range(&w), Some(Range::new(-5, -3)));
}

#[test]
fn nearest_track_is_nearest_with_ties_away_from_offset() {
    let t = TrackDefinition::new("M1", 0, 10, TrackOrientation::Horizontal, None, None);
    assert_eq!(t.nearest_track_index(14), 1);
    assert_eq!(t.nearest_track_index(15), 2);
    assert_eq!(t.nearest_track_index(-16), -2);
    assert_eq!(t.nearest_track_index(5), 1);
    assert_eq!(t.nearest_track_index(-5), -1);
    let s = TrackDefinition::new("M2", 7, 4, TrackOrientation::Vertical, None, None);
    for c in -40i64..40 {
        let k = s.nearest_track_index(c);
        let d = (s.index_to_position(k) - c).abs();
        for j in -15i64..15 {
            let dj = (s.index_to_position(j) - c).abs();
            assert!(d <= dj);
            if dj == d {
                assert!(j.abs() <= k.abs());
            }
        }
    }
}

#[test]
fn occupancy_checks_and_marks() {
    let mut o = TrackOccupancy::new(10);
    assert_eq!(o.len(), 10);
    assert_eq!(o.check_place_pin(2, 3), Ok(()));
    o.mark_pin(2, 3);
    assert_eq!(
        o.check_place_pin(3, 4),
        Err(PinPlacementError::OverlapsExistingPin { min_index: 3, max_index: 4 })
    );
    assert_eq!(
        o.check_place_pin(-1, 2),
        Err(PinPlacementError::OutOfBounds { min_index: -1, max_index: 2, num_tracks: 10 })
    );
    assert_eq!(
        o.check_place_pin(9, 10),
        Err(PinPlacementError::OutOfBounds { min_index: 9, max_index: 10, num_tracks: 10 })
    );
    o.mark_keepout(5, 7);
    assert_eq!(
        o.check_place_pin(6, 6),
        Err(PinPlacementError::OverlapsKeepout { min_index: 6, max_index: 6 })
    );
    assert_eq!(
        o.check_place_keepout(-4, 2),
        Err(PinPlacementError::OverlapsExistingPin { min_index: -4, max_index: 2 })
    );
    assert_eq!(o.check_place_keepout(-5, -1), Ok(()));
    assert_eq!(o.check_place_keepout(8, 40), Ok(()));
    o.mark_keepout(8, 40);
    let avail = o.get_available_indices_in_range(0, 9);
    let free: Vec<usize> = (0..10).filter(|&i| avail.contains(i)).collect();
    assert_eq!(free, vec![0, 1, 4]);
    let window = o.get_available_indices_in_range(1, 4);
    let free: Vec<usize> = (0..10).filter(|&i| window.contains(i)).collect();
    assert_eq!(free, vec![1, 4]);
}

#[test]
fn pin_and_keepout_leave_pin_tracks_unblocked_by_keepout() {
    let mut o = TrackOccupancy::new(6);
    o.place_pin_and_keepout(2, 2, 1, 3);
    assert_eq!(
        o.check_place_pin(2, 2),
        Err(PinPlacementError::OverlapsExistingPin { min_index: 2, max_index: 2 })
    );
    assert_eq!(
        o.check_place_pin(1, 1),
        Err(PinPlacementError::OverlapsKeepout { min_index: 1, max_index: 1 })
    );
    assert_eq!(o.check_place_pin(4, 5), Ok(()));
    let copy = o.copy();
    assert_eq!(copy.check_place_pin(3, 3), o.check_place_pin(3, 3));
}
