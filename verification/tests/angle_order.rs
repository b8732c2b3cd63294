//! The algebraic comparator against a floating-point `atan2` reference:
//! for rays confined to a wedge narrower than half a turn, both produce the
//! same order.

use snoop::geometry::Point;

fn atan2_sorted(rays: &[Point], from: Point) -> Vec<Point> {
    let base = (from.y as f64).atan2(from.x as f64);
    let mut v: Vec<Point> = rays.to_vec();
    v.sort_by(|a, b| {
        let ta = norm_angle((a.y as f64).atan2(a.x as f64) - base);
        let tb = norm_angle((b.y as f64).atan2(b.x as f64) - base);
        ta.partial_cmp(&tb).unwrap()
    });
    v
}

fn norm_angle(t: f64) -> f64 {
    let two_pi = std::f64::consts::PI * 2.0;
    let mut t = t;
    while t < 0.0 {
        t += two_pi;
    }
    while t >= two_pi {
        t -= two_pi;
    }
    t
}

#[test]
fn comparator_matches_atan2_order() {
    let from = Point { x: 30, y: 10 };
    // All rays lie within the half turn counterclockwise of `from`.
    let rays = vec![
        Point { x: 31, y: 11 },
        Point { x: 10, y: 40 },
        Point { x: -20, y: 15 },
        Point { x: 0, y: 25 },
        Point { x: 4, y: 9 },
        Point { x: -60, y: 21 },
        Point { x: 12, y: 5 },
        Point { x: 300, y: 101 },
    ];
    let reference = atan2_sorted(&rays, from);
    let mut sorted = rays.clone();
    Point::sort_from_angle(&mut sorted, from);
    assert_eq!(sorted, reference);
}

#[test]
fn comparator_matches_atan2_order_narrow_wedge() {
    let from = Point { x: -10, y: -10 };
    let rays = vec![
        Point { x: -9, y: -11 },
        Point { x: -1, y: -20 },
        Point { x: 10, y: -10 },
        Point { x: 20, y: -1 },
        Point { x: 15, y: 3 },
        Point { x: -99, y: -100 },
    ];
    let reference = atan2_sorted(&rays, from);
    let mut sorted = rays.clone();
    Point::sort_from_angle(&mut sorted, from);
    assert_eq!(sorted, reference);
}
