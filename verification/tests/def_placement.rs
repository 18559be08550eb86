use topstitch::lefdef::DefOrientation;
use topstitch::placement::{placement_to_def_component, GridError};
use topstitch::{Coordinate, Mat3, Orientation};

#[test]
fn placement_gives_lower_left_corner_and_orientation() {
    let c = placement_to_def_component("u0", "block", &Mat3::identity(), 10, 20, false, None, None)
        .unwrap();
    assert_eq!(c.inst_name, "u0");
    assert_eq!(c.macro_name, "block");
    assert_eq!((c.x, c.y), (0, 0));
    assert_eq!(c.orientation, DefOrientation::N);

    let t = Mat3::from_orientation_then_translation(&Orientation::R90, &Coordinate { x: 100, y: 50 });
    let c = placement_to_def_component("u1", "block", &t, 10, 20, false, None, None).unwrap();
    assert_eq!((c.x, c.y), (80, 50));
    assert_eq!(c.orientation, DefOrientation::W);
}

#[test]
fn placement_grid_rules() {
    let t = Mat3::translate(15, 30);
    assert_eq!(
        placement_to_def_component("u", "m", &t, 10, 20, false, Some((10, 10)), None).unwrap_err(),
        GridError::OffXGrid
    );
    assert_eq!(
        placement_to_def_component("u", "m", &t, 10, 20, false, Some((5, 7)), None).unwrap_err(),
        GridError::OffYGrid
    );
    assert_eq!(
        placement_to_def_component("u", "m", &t, 10, 20, false, Some((5, 10)), Some((4, 5)))
            .unwrap_err(),
        GridError::WidthOffGrid
    );
    assert_eq!(
        placement_to_def_component("u", "m", &t, 10, 20, false, None, Some((5, 3))).unwrap_err(),
        GridError::HeightOffGrid
    );
    assert!(placement_to_def_component("u", "m", &t, 10, 20, false, Some((5, 10)), Some((5, 10)))
        .is_ok());
    assert!(placement_to_def_component("u", "m", &t, 10, 20, true, Some((7, 7)), Some((3, 3)))
        .is_ok());
    let neg = Mat3::translate(-15, -30);
    assert!(placement_to_def_component("u", "m", &neg, 10, 20, false, Some((-5, 10)), None).is_ok());
}
