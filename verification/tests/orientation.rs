use glazewm::geometry::{Point, Rect, TilingDirection};
use glazewm::orientation::Orientation;

#[test]
fn classifies_bounds() {
    assert_eq!(Orientation::of(&Rect::from_xy(0, 0, 1000, 800)), Orientation::Landscape);
    assert_eq!(Orientation::of(&Rect::from_xy(0, 0, 800, 1000)), Orientation::Portrait);
    assert_eq!(Orientation::of(&Rect::from_xy(0, 0, 800, 800)), Orientation::Landscape);
}

#[test]
fn layouts_are_made_for_the_orientation_of_their_direction() {
    assert_eq!(Orientation::for_direction(TilingDirection::Horizontal), Orientation::Landscape);
    assert_eq!(Orientation::for_direction(TilingDirection::Vertical), Orientation::Portrait);
}

#[test]
fn inverse_direction_is_its_own_inverse() {
    assert_eq!(TilingDirection::Horizontal.inverse(), TilingDirection::Vertical);
    assert_eq!(TilingDirection::Horizontal.inverse().inverse(), TilingDirection::Horizontal);
}

#[test]
fn measures_rects() {
    let rect = Rect::from_xy(-100, 50, 301, 200);

    assert_eq!(rect.width(), 301);
    assert_eq!(rect.height(), 200);
    assert_eq!(rect.center_point(), Point { x: 50, y: 150 });
    assert!(rect.contains_point(&Point { x: -100, y: 250 }));
    assert!(!rect.contains_point(&Point { x: -101, y: 250 }));
    assert_eq!(rect.distance_to_point(&Point { x: 0, y: 100 }), 0);
    assert_eq!(rect.distance_to_point(&Point { x: 204, y: 254 }), 25);
}

#[test]
fn centering_keeps_the_size() {
    let rect = Rect::from_xy(7, 9, 100, 60);
    let centered = rect.translate_to_center(&Rect::from_xy(1000, 0, 1000, 800));

    assert_eq!(centered, Rect::from_xy(1450, 370, 100, 60));
    assert_eq!(centered.translate_to_center(&Rect::from_xy(1000, 0, 1000, 800)), centered);
}
