use ishihara::circle::{Circle, IshiharaColor};
use ishihara::classify::{classify, Mask};
use ishihara::geometry::Point2D;
use rand::rngs::StdRng;
use rand::SeedableRng;

fn disk(x: i32, y: i32) -> Circle {
    Circle { center: Point2D::new(x, y), radius: 40, ishihara_color: None }
}

#[test]
fn mask_needs_one_opacity_per_pixel() {
    assert!(Mask::new(3, 2, vec![0; 5]).is_none());
    assert!(Mask::new(3, 2, vec![0; 7]).is_none());
    let m = Mask::new(3, 2, vec![0, 1, 2, 3, 4, 5]).unwrap();
    assert_eq!(m.opacity_at(0, 0), 0);
    assert_eq!(m.opacity_at(2, 0), 2);
    assert_eq!(m.opacity_at(0, 1), 3);
    assert_eq!(m.opacity_at(2, 1), 5);
}

#[test]
fn classification_samples_center_pixel_only() {
    // Opacity zero only at (1, 1).
    let mut o = vec![255u8; 9];
    o[4] = 0;
    let m = Mask::new(3, 3, o).unwrap();
    let s = vec![disk(1, 1), disk(0, 1), disk(2, 2)];
    let r = classify(&s, &m);
    assert_eq!(r[0].ishihara_color, Some(IshiharaColor::Inside));
    assert_eq!(r[1].ishihara_color, Some(IshiharaColor::Outside));
    assert_eq!(r[2].ishihara_color, Some(IshiharaColor::Outside));
    for (a, b) in s.iter().zip(r.iter()) {
        assert_eq!(a.center, b.center);
        assert_eq!(a.radius, b.radius);
    }
}

#[test]
fn any_nonzero_opacity_is_outside() {
    let m = Mask::new(2, 1, vec![1, 0]).unwrap();
    let r = classify(&[disk(0, 0), disk(1, 0)], &m);
    assert_eq!(r[0].ishihara_color, Some(IshiharaColor::Outside));
    assert_eq!(r[1].ishihara_color, Some(IshiharaColor::Inside));
}

#[test]
fn assign_color_labels_one_disk() {
    let m = Mask::new(2, 1, vec![0, 9]).unwrap();
    let mut c = disk(1, 0);
    c.assign_color(&m);
    assert_eq!(c.ishihara_color, Some(IshiharaColor::Outside));
    let mut c = disk(0, 0);
    c.assign_color(&m);
    assert_eq!(c.ishihara_color, Some(IshiharaColor::Inside));
}

#[test]
fn transparent_mask_labels_all_inside() {
    let mut rng = StdRng::seed_from_u64(11);
    let s = Circle::create_circles(60, 40, 10_000_000, &mut rng).unwrap();
    let m = Mask::new(60, 40, vec![0; 2400]).unwrap();
    let r = classify(&s, &m);
    assert_eq!(r.len(), s.len());
    assert!(r.iter().all(|c| c.ishihara_color == Some(IshiharaColor::Inside)));
}

#[test]
fn opaque_mask_labels_all_outside() {
    let mut rng = StdRng::seed_from_u64(12);
    let s = Circle::create_circles(60, 40, 10_000_000, &mut rng).unwrap();
    let m = Mask::new(60, 40, vec![200; 2400]).unwrap();
    let r = classify(&s, &m);
    assert!(r.iter().all(|c| c.ishihara_color == Some(IshiharaColor::Outside)));
}

#[test]
fn classifying_twice_changes_nothing() {
    let mut rng = StdRng::seed_from_u64(13);
    let s = Circle::create_circles(60, 40, 10_000_000, &mut rng).unwrap();
    let o: Vec<u8> = (0..2400u32).map(|i| if i % 7 < 3 { 0 } else { 128 }).collect();
    let m = Mask::new(60, 40, o).unwrap();
    let once = classify(&s, &m);
    let twice = classify(&once, &m);
    assert_eq!(once, twice);
}
