use ishihara::circle::{max_allowed_radius, Circle, IshiharaColor, MAX_RADIUS, MIN_RADIUS};
use ishihara::geometry::{floor_sqrt, Point2D};
use ishihara::packer::place_candidate;

fn disk(x: i32, y: i32, radius: u32) -> Circle {
    Circle { center: Point2D::new(x, y), radius, ishihara_color: None }
}

#[test]
fn floor_sqrt_exact_values() {
    assert_eq!(floor_sqrt(0), 0);
    assert_eq!(floor_sqrt(1), 1);
    assert_eq!(floor_sqrt(15), 3);
    assert_eq!(floor_sqrt(16), 4);
    assert_eq!(floor_sqrt(17), 4);
    assert_eq!(floor_sqrt(u128::MAX), u64::MAX);
}

#[test]
fn distance_of_three_four_five() {
    let a = Point2D::new(0, 0);
    let b = Point2D::new(3, 4);
    assert_eq!(a.distance_sq(&b), 25);
    assert_eq!(b.distance_sq(&a), 25);
    assert_eq!(a.distance_tenths(&b), 50);
}

#[test]
fn distance_in_tenths_rounds_down() {
    let a = Point2D::new(0, 0);
    let b = Point2D::new(1, 1);
    assert_eq!(a.distance_sq(&b), 2);
    assert_eq!(a.distance_tenths(&b), 14);
}

#[test]
fn distance_across_extreme_coordinates() {
    let a = Point2D::new(i32::MIN, i32::MIN);
    let b = Point2D::new(i32::MAX, i32::MAX);
    let d = (u32::MAX as u128) * (u32::MAX as u128) * 2;
    assert_eq!(a.distance_sq(&b), d);
}

#[test]
fn empty_field_admits_max_radius() {
    let r = max_allowed_radius(&Point2D::new(5, 5), &[]);
    assert_eq!(r, Some(MAX_RADIUS));
}

#[test]
fn radius_shrinks_to_neighbour_edge_less_gap() {
    // Neighbour 12 pixels away with radius 4.0: 12.0 - 4.0 - 1.0 = 7.0, capped at 6.9.
    let s = [disk(12, 0, 40)];
    assert_eq!(max_allowed_radius(&Point2D::new(0, 0), &s), Some(69));
    // Neighbour 10 pixels away with radius 4.0: 10.0 - 4.0 - 1.0 = 5.0.
    let s = [disk(10, 0, 40)];
    assert_eq!(max_allowed_radius(&Point2D::new(0, 0), &s), Some(50));
    // Nearest of two neighbours decides: 9.0 - 3.0 - 1.0 = 5.0 beats 20.0 - 3.0 - 1.0.
    let s = [disk(20, 0, 30), disk(0, 9, 30)];
    assert_eq!(max_allowed_radius(&Point2D::new(0, 0), &s), Some(50));
}

#[test]
fn radius_uses_exact_diagonal_distance() {
    // Distance sqrt(50) = 7.07..., floor in tenths 70: 70 - 30 - 10 = 30.
    let s = [disk(5, 5, 30)];
    assert_eq!(max_allowed_radius(&Point2D::new(0, 0), &s), Some(MIN_RADIUS));
}

#[test]
fn candidate_too_close_is_rejected() {
    let s = [disk(6, 0, 30)];
    assert_eq!(max_allowed_radius(&Point2D::new(0, 0), &s), None);
    let s = [disk(0, 0, 69)];
    assert_eq!(max_allowed_radius(&Point2D::new(0, 0), &s), None);
}

#[test]
fn place_candidate_appends_or_leaves_alone() {
    let mut v = vec![disk(10, 0, 40)];
    assert_eq!(place_candidate(&mut v, Point2D::new(0, 0)), Some(50));
    assert_eq!(v.len(), 2);
    assert_eq!(v[1], disk(0, 0, 50));
    assert_eq!(v[1].ishihara_color, None::<IshiharaColor>);
    assert_eq!(place_candidate(&mut v, Point2D::new(1, 0)), None);
    assert_eq!(v.len(), 2);
}
