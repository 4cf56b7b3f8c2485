use tinyrenderer::basetype::{Bbox2, Point2, Viewport, ViewportError};
use tinyrenderer::line::{clip_line, travel_line_bresenham};
use tinyrenderer::triangle::{
    compute_barycentric_coordinate, is_barycentric_coordinate_inside, travel_triangle_barycentric,
    travel_triangle_sweep_line,
};

// One pixel is 256 fixed-point units.
const PX: i64 = 256;

#[test]
fn test_compute_barycentric_coordinate() {
    // Triangle (0,0), (1,0), (0,1); point (0.5, 0.5): weights (0, 0.5, 0.5).
    let p_0 = Point2::new(0, 0);
    let p_1 = Point2::new(PX, 0);
    let p_2 = Point2::new(0, PX);
    let p = Point2::new(PX / 2, PX / 2);
    let bary_coord = compute_barycentric_coordinate(&p_0, &p_1, &p_2, &p);
    assert!(bary_coord.denom > 0);
    assert_eq!(bary_coord.alpha_num, 0);
    assert_eq!(2 * bary_coord.beta_num, bary_coord.denom);
    assert_eq!(2 * bary_coord.gamma_num, bary_coord.denom);
    assert!(is_barycentric_coordinate_inside(&bary_coord));
}

#[test]
fn barycentric_outside_point_fails_inside_test() {
    let p_0 = Point2::new(0, 0);
    let p_1 = Point2::new(PX, 0);
    let p_2 = Point2::new(0, PX);
    let p = Point2::new(PX, PX);
    let c = compute_barycentric_coordinate(&p_0, &p_1, &p_2, &p);
    assert!(!is_barycentric_coordinate_inside(&c));
}

#[test]
fn degenerate_triangle_gets_sentinel_coordinate() {
    // Collinear points: the sentinel (-1, 1, 1) always fails the test.
    let p_0 = Point2::new(0, 0);
    let p_1 = Point2::new(PX, PX);
    let p_2 = Point2::new(2 * PX, 2 * PX);
    let c = compute_barycentric_coordinate(&p_0, &p_1, &p_2, &Point2::new(0, PX));
    assert_eq!(c.alpha_num, -1);
    assert_eq!(c.beta_num, 1);
    assert_eq!(c.gamma_num, 1);
    assert_eq!(c.denom, 1);
    assert!(!is_barycentric_coordinate_inside(&c));
}

#[test]
fn zero_area_triangle_rasterizes_no_pixels() {
    // Collinear and duplicate vertices: zero pixels either way.
    let viewport = Bbox2::new(-100 * PX, 100 * PX, -100 * PX, 100 * PX);
    let collinear = travel_triangle_barycentric(
        &Point2::new(0, 0),
        &Point2::new(PX, PX),
        &Point2::new(3 * PX, 3 * PX),
        &viewport,
    );
    assert!(collinear.is_empty());
    let duplicate = travel_triangle_barycentric(
        &Point2::new(5 * PX, 5 * PX),
        &Point2::new(5 * PX, 5 * PX),
        &Point2::new(9 * PX, 2 * PX),
        &viewport,
    );
    assert!(duplicate.is_empty());
}

#[test]
fn flat_triangle_sweeps_no_pixels() {
    // All three rounded y coordinates equal: the sweep is a no-op.
    let pixels = travel_triangle_sweep_line(
        &Point2::new(0, 0),
        &Point2::new(5 * PX, 64),
        &Point2::new(9 * PX, -64),
    );
    assert!(pixels.is_empty());
}

#[test]
fn sweep_fills_right_triangle() {
    let pixels = travel_triangle_sweep_line(
        &Point2::new(0, 0),
        &Point2::new(4 * PX, 0),
        &Point2::new(0, 4 * PX),
    );
    // Row y: span from x = 0 to the hypotenuse x = 4 - y.
    assert!(pixels.contains(&tinyrenderer::basetype::Pixel::new(0, 0)));
    assert!(pixels.contains(&tinyrenderer::basetype::Pixel::new(4, 0)));
    assert!(pixels.contains(&tinyrenderer::basetype::Pixel::new(0, 4)));
    assert!(pixels.contains(&tinyrenderer::basetype::Pixel::new(1, 1)));
    assert!(!pixels.contains(&tinyrenderer::basetype::Pixel::new(4, 4)));
}

#[test]
fn sweep_and_barycentric_interiors_match() {
    // Right triangle (0,0), (4,0), (0,4): both fills agree on every
    // interior pixel; only boundary pixels may differ.
    let a = Point2::new(0, 0);
    let b = Point2::new(4 * PX, 0);
    let c = Point2::new(0, 4 * PX);
    let sweep = travel_triangle_sweep_line(&a, &b, &c);
    let viewport = Bbox2::new(-100 * PX, 100 * PX, -100 * PX, 100 * PX);
    let bary: Vec<(i32, i32)> = travel_triangle_barycentric(&a, &b, &c, &viewport)
        .iter()
        .map(|e| (e.0.x, e.0.y))
        .collect();
    let sweep: Vec<(i32, i32)> = sweep.iter().map(|p| (p.x, p.y)).collect();
    for x in 1..4i32 {
        for y in 1..4i32 {
            if x + y < 4 {
                assert!(sweep.contains(&(x, y)), "sweep misses interior {x},{y}");
                assert!(bary.contains(&(x, y)), "barycentric misses interior {x},{y}");
            }
        }
    }
    // Neither fill strays outside the triangle's bounding box.
    for (x, y) in sweep.iter().chain(bary.iter()) {
        assert!((0..=4).contains(x) && (0..=4).contains(y));
    }
}

#[test]
fn bresenham_visits_expected_pixels() {
    // From (0,0) to (5,3): max(5,3)+1 = 6 pixels, nearest line, ties up.
    let pixels = travel_line_bresenham(&Point2::new(0, 0), &Point2::new(5 * PX, 3 * PX));
    let got: Vec<(i32, i32)> = pixels.iter().map(|p| (p.x, p.y)).collect();
    assert_eq!(got, vec![(0, 0), (1, 1), (2, 1), (3, 2), (4, 2), (5, 3)]);
}

#[test]
fn bresenham_counts_and_endpoints() {
    let cases: [((i64, i64), (i64, i64)); 4] = [
        ((0, 0), (7, 0)),
        ((0, 0), (0, -6)),
        ((2, 3), (-4, 9)),
        ((1, 1), (1, 1)),
    ];
    for ((x0, y0), (x1, y1)) in cases {
        let pixels = travel_line_bresenham(
            &Point2::new(x0 * PX, y0 * PX),
            &Point2::new(x1 * PX, y1 * PX),
        );
        let dx = (x1 - x0).unsigned_abs();
        let dy = (y1 - y0).unsigned_abs();
        assert_eq!(pixels.len() as u64, dx.max(dy) + 1);
        assert_eq!((pixels[0].x as i64, pixels[0].y as i64), (x0, y0));
        let last = pixels.last().unwrap();
        assert_eq!((last.x as i64, last.y as i64), (x1, y1));
        for i in 0..pixels.len() {
            for j in (i + 1)..pixels.len() {
                assert_ne!((pixels[i].x, pixels[i].y), (pixels[j].x, pixels[j].y));
            }
        }
    }
}

#[test]
fn clip_line_keeps_inside_segment_unchanged() {
    let bbox = Bbox2::new(0, 10 * PX, 0, 10 * PX);
    let p_0 = Point2::new(PX, 2 * PX);
    let p_1 = Point2::new(7 * PX, 5 * PX);
    let clipped = clip_line(&p_0, &p_1, &bbox);
    assert_eq!(clipped, Some((p_0, p_1)));
}

#[test]
fn clip_line_rejects_outside_segment() {
    let bbox = Bbox2::new(0, PX, 0, PX);
    // Wholly to the left of the box.
    let r = clip_line(&Point2::new(-3 * PX, 0), &Point2::new(-PX, PX), &bbox);
    assert_eq!(r, None);
    // Diagonal passing outside the top-right corner: every point has
    // x + y = 3 pixels, beyond the corner sum of 2.
    let r = clip_line(&Point2::new(3 * PX, 0), &Point2::new(0, 3 * PX), &bbox);
    assert_eq!(r, None);
}

#[test]
fn clip_line_cuts_crossing_segment() {
    let bbox = Bbox2::new(0, 4 * PX, 0, 4 * PX);
    // Horizontal segment crossing the whole box at y = 2.
    let r = clip_line(
        &Point2::new(-4 * PX, 2 * PX),
        &Point2::new(8 * PX, 2 * PX),
        &bbox,
    );
    let (q_0, q_1) = r.expect("segment crosses the box");
    assert_eq!((q_0.x, q_0.y), (0, 2 * PX));
    assert_eq!((q_1.x, q_1.y), (4 * PX, 2 * PX));
}

#[test]
fn bbox_intersection_and_emptiness() {
    let a = Bbox2::new(0, 10, 0, 10);
    let b = Bbox2::new(5, 20, -5, 5);
    assert_eq!(a.intersect(&b), Some(Bbox2::new(5, 10, 0, 5)));
    let c = Bbox2::new(11, 20, 0, 10);
    assert_eq!(a.intersect(&c), None);
}

#[test]
fn bbox_from_points_is_minimal_and_empty_input_is_none() {
    let pts = vec![
        Point2::new(3, 7),
        Point2::new(-2, 1),
        Point2::new(5, 0),
    ];
    let b = Bbox2::from_points(&pts).unwrap();
    assert_eq!((b.left, b.right, b.bottom, b.top), (-2, 5, 0, 7));
    assert!(Bbox2::from_points(&Vec::new()).is_none());
}

#[test]
fn viewport_validation_errors() {
    assert_eq!(
        Viewport::new(0, 5, 0, 0),
        Err(ViewportError::ZeroDimension)
    );
    assert_eq!(
        Viewport::new(5, 0, 0, 0),
        Err(ViewportError::ZeroDimension)
    );
    assert_eq!(
        Viewport::new(0x10000, 5, 0, 0),
        Err(ViewportError::TooLarge)
    );
    assert_eq!(
        Viewport::new(5, 5, 0x10000, 0),
        Err(ViewportError::OffsetOutOfRange)
    );
    let vp = Viewport::new(640, 480, -10, 20).unwrap();
    assert_eq!(
        (vp.width, vp.height, vp.offset_x, vp.offset_y),
        (640, 480, -10, 20)
    );
}

#[test]
fn barycentric_weights_reproduce_the_point() {
    let p_0 = Point2::new(-2 * PX, PX);
    let p_1 = Point2::new(5 * PX, 3 * PX);
    let p_2 = Point2::new(PX, -4 * PX);
    let p = Point2::new(PX / 2, PX / 2);
    let c = compute_barycentric_coordinate(&p_0, &p_1, &p_2, &p);
    let reproduce = |c0: i64, c1: i64, c2: i64| {
        c.alpha_num * c0 as i128 + c.beta_num * c1 as i128 + c.gamma_num * c2 as i128
    };
    assert_eq!(reproduce(p_0.x, p_1.x, p_2.x), c.denom * p.x as i128);
    assert_eq!(reproduce(p_0.y, p_1.y, p_2.y), c.denom * p.y as i128);
}

#[test]
fn barycentric_fill_stays_inside_clip_box() {
    // Triangle (0,0), (2.5,0), (0,2.5); clip box with right/top at 1.5
    // pixels: no emitted pixel center may leave the box, so x and y stay
    // at most 1.
    let a = Point2::new(0, 0);
    let b = Point2::new(5 * PX / 2, 0);
    let c = Point2::new(0, 5 * PX / 2);
    let clip = Bbox2::new(0, 3 * PX / 2, 0, 3 * PX / 2);
    let pixels = travel_triangle_barycentric(&a, &b, &c, &clip);
    assert!(!pixels.is_empty());
    for (p, _) in pixels.iter() {
        assert!((0..=1).contains(&p.x) && (0..=1).contains(&p.y), "{p:?} escapes the box");
    }
    assert!(pixels.iter().any(|(p, _)| (p.x, p.y) == (1, 1)));
}
