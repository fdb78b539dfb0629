use ishihara::circle::{max_allowed_radius, Circle, GAP, MAX_RADIUS, MIN_RADIUS, RADIUS_SCALE};
use ishihara::geometry::Point2D;
use ishihara::packer::{pack_step, PI_NUM};
use ishihara::packer::PackError;
use rand::rngs::StdRng;
use rand::SeedableRng;

fn check_packing(s: &[Circle], width: u32, height: u32) {
    for (i, a) in s.iter().enumerate() {
        assert!(a.radius >= MIN_RADIUS && a.radius <= MAX_RADIUS);
        assert!(a.center.x >= 0 && (a.center.x as u32) < width);
        assert!(a.center.y >= 0 && (a.center.y as u32) < height);
        assert!(a.ishihara_color.is_none());
        for b in s.iter().skip(i + 1) {
            let need = (a.radius + b.radius + GAP) as u128;
            assert!(need * need <= 100 * a.center.distance_sq(&b.center));
            let d = (a.center.distance_sq(&b.center) as f64).sqrt();
            let sum = (a.radius + b.radius + GAP) as f64 / RADIUS_SCALE as f64;
            assert!(d + 1e-9 >= sum);
        }
    }
    for i in 0..s.len() {
        assert_eq!(max_allowed_radius(&s[i].center, &s[..i]), Some(s[i].radius));
    }
    let area = |t: &[Circle]| -> f64 {
        t.iter()
            .map(|c| {
                let r = c.radius as f64 / RADIUS_SCALE as f64;
                std::f64::consts::PI * r * r
            })
            .sum()
    };
    let goal = 0.57 * width as f64 * height as f64;
    assert!(area(s) >= goal);
    assert!(!s.is_empty());
    assert!(area(&s[..s.len() - 1]) < goal);
}

#[test]
fn packs_200_by_80_canvas() {
    let mut rng = StdRng::seed_from_u64(7);
    let s = Circle::create_circles(200, 80, 10_000_000, &mut rng).unwrap();
    assert!(!s.is_empty());
    check_packing(&s, 200, 80);
}

#[test]
fn packs_40_by_40_canvas() {
    let mut rng = StdRng::seed_from_u64(1);
    let s = Circle::create_circles(40, 40, 10_000_000, &mut rng).unwrap();
    check_packing(&s, 40, 40);
}

#[test]
fn packs_single_pixel_canvas() {
    let mut rng = StdRng::seed_from_u64(3);
    let s = Circle::create_circles(1, 1, 0, &mut rng).unwrap();
    assert_eq!(s.len(), 1);
    assert_eq!(s[0].radius, MAX_RADIUS);
    assert_eq!((s[0].center.x, s[0].center.y), (0, 0));
}

#[test]
fn empty_canvas_is_rejected() {
    let mut rng = StdRng::seed_from_u64(3);
    assert_eq!(Circle::create_circles(0, 10, 100, &mut rng), Err(PackError::EmptyCanvas));
    assert_eq!(Circle::create_circles(10, 0, 100, &mut rng), Err(PackError::EmptyCanvas));
}

#[test]
fn rejection_cap_ends_packing() {
    let mut rng = StdRng::seed_from_u64(5);
    assert_eq!(
        Circle::create_circles(200, 80, 0, &mut rng),
        Err(PackError::PackingUnreachable)
    );
}

#[test]
fn same_seed_gives_same_disks() {
    let mut a = StdRng::seed_from_u64(42);
    let mut b = StdRng::seed_from_u64(42);
    let s = Circle::create_circles(120, 60, 10_000_000, &mut a).unwrap();
    let t = Circle::create_circles(120, 60, 10_000_000, &mut b).unwrap();
    assert_eq!(s, t);
}

#[test]
fn small_canvas_always_succeeds() {
    for seed in 0..20 {
        let mut rng = StdRng::seed_from_u64(seed);
        let s = Circle::create_circles(16, 16, 0, &mut rng).unwrap();
        assert_eq!(s.len(), 1);
        assert_eq!(s[0].radius, MAX_RADIUS);
    }
}

#[test]
fn pack_step_accepts_rejects_and_gives_up() {
    let mut circles: Vec<Circle> = Vec::new();
    let mut covered: u128 = 5;
    let mut rejections: u64 = 0;
    let r = pack_step(&mut circles, &mut covered, &mut rejections, 1, Point2D::new(0, 0));
    assert_eq!(r, Ok(Some(MAX_RADIUS)));
    assert_eq!(covered, 5 + PI_NUM * 69 * 69);
    assert_eq!(circles.len(), 1);
    assert_eq!(rejections, 0);
    let r = pack_step(&mut circles, &mut covered, &mut rejections, 1, Point2D::new(1, 1));
    assert_eq!(r, Ok(None));
    assert_eq!(rejections, 1);
    assert_eq!(circles.len(), 1);
    assert_eq!(covered, 5 + PI_NUM * 69 * 69);
    let r = pack_step(&mut circles, &mut covered, &mut rejections, 1, Point2D::new(2, 2));
    assert_eq!(r, Err(PackError::PackingUnreachable));
    assert_eq!(rejections, 1);
    assert_eq!(circles.len(), 1);
    // Next to the first disk: 14.0 - 6.9 - 1.0 = 6.1.
    let r = pack_step(&mut circles, &mut covered, &mut rejections, 1, Point2D::new(14, 0));
    assert_eq!(r, Ok(Some(61)));
    assert_eq!(covered, 5 + PI_NUM * (69 * 69 + 61 * 61));
    assert_eq!(circles.len(), 2);
}
