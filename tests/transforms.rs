use packed_fb::scaled::transform;
use packed_fb::{Point, Rectangle, RotateAngle, Size};

#[test]
fn scale_maps_onto_parent() {
    let pdim = Rectangle::new(Point::new(10, 20), Size::new(100, 50));
    let p = transform(Point::new(3, 4), Size::new(200, 100), &pdim);
    assert_eq!(p, Some(Point::new(16, 28)));
}

#[test]
fn scale_rounds_toward_zero() {
    let pdim = Rectangle::new(Point::new(0, 0), Size::new(3, 3));
    assert_eq!(transform(Point::new(-1, 1), Size::new(2, 2), &pdim), Some(Point::new(0, 0)));
    assert_eq!(transform(Point::new(-2, 2), Size::new(2, 2), &pdim), Some(Point::new(-1, 1)));
}

#[test]
fn scale_refuses_empty_parent_and_overflow() {
    let empty = Rectangle::new(Point::new(0, 0), Size::new(0, 4));
    assert_eq!(transform(Point::new(1, 1), Size::new(2, 2), &empty), None);
    let pdim = Rectangle::new(Point::new(0, 0), Size::new(1, 1));
    assert_eq!(transform(Point::new(i32::MAX, 0), Size::new(2, 1), &pdim), None);
}

#[test]
fn checked_rotation_matches_unchecked() {
    let pdim = Rectangle::new(Point::new(1, 2), Size::new(10, 20));
    for angle in [RotateAngle::Degrees90, RotateAngle::Degrees180, RotateAngle::Degrees270] {
        let p = Point::new(4, 5);
        assert_eq!(angle.checked_transform(p, &pdim), Some(angle.transform(p, &pdim)));
    }
    assert_eq!(RotateAngle::Degrees90.checked_transform(Point::new(0, 5), &pdim), Some(Point::new(6, 2)));
}

#[test]
fn checked_rotation_refuses_overflow() {
    let pdim = Rectangle::new(Point::new(i32::MAX, 0), Size::new(10, 20));
    assert_eq!(RotateAngle::Degrees90.checked_transform(Point::new(0, 0), &pdim), None);
    let r = Rectangle::new(Point::new(i32::MAX, 0), Size::new(1, 1));
    let small = Rectangle::new(Point::new(0, 0), Size::new(4, 4));
    assert_eq!(RotateAngle::Degrees180.checked_transform_rect(&r, &small), None);
}

#[test]
fn checked_rect_rotation() {
    let pdim = Rectangle::new(Point::new(0, 0), Size::new(10, 20));
    let r = Rectangle::new(Point::new(1, 2), Size::new(3, 4));
    assert_eq!(
        RotateAngle::Degrees270.checked_transform_rect(&r, &pdim),
        Some(Rectangle::new(Point::new(2, 16), Size::new(5, 4)))
    );
}
