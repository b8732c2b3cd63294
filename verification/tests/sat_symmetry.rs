//! Symmetry of the separating-axis outcome, and arc-membership boundary
//! behavior.

use snoop::geometry::Point;
use snoop::shape::{Polygon, Rect, Triangle};

#[test]
fn sat_is_symmetric_on_samples() {
    let shapes: Vec<Polygon> = vec![
        Rect { x: 0, y: 0, width: 500, height: 1000 }.to_polygon(),
        Rect { x: 100, y: 100, width: 8000, height: 4000 }.to_polygon(),
        Rect { x: 2000, y: 2000, width: 1000, height: 1000 }.to_polygon(),
        Rect { x: -300, y: -300, width: 10, height: 10 }.to_polygon(),
    ];
    for a in shapes.iter() {
        for b in shapes.iter() {
            assert_eq!(Polygon::sat(a, b), Polygon::sat(b, a));
        }
    }
}

#[test]
fn triangle_rect_sat_is_symmetric() {
    let tri = Triangle::new(
        Point { x: 200, y: 600 },
        Point { x: 1000, y: 1000 },
        Point { x: 0, y: 80 },
    );
    let rect = Rect { x: 130, y: 560, width: 250, height: 250 };
    let tri_poly = {
        // The same delta form the hit test builds internally.
        let a = tri.vertices[0];
        let b = tri.vertices[1];
        let c = tri.vertices[2];
        Polygon {
            vertices: vec![
                a,
                Point { x: b.x - a.x, y: b.y - a.y },
                Point { x: c.x - b.x, y: c.y - b.y },
                Point { x: a.x - c.x, y: a.y - c.y },
            ],
        }
    };
    let rect_poly = rect.to_polygon();
    assert_eq!(
        Polygon::sat(&tri_poly, &rect_poly),
        Polygon::sat(&rect_poly, &tri_poly)
    );
    assert!(tri.intersects_rectangle(&rect));
}

#[test]
fn ray_on_wedge_boundary_is_inside() {
    let lower = Point { x: 10, y: 0 };
    let upper = Point { x: 0, y: 10 };
    // Exactly along each bound: inside.
    assert!(Point { x: 20, y: 0 }.ray_between(&lower, &upper));
    assert!(Point { x: 0, y: 7 }.ray_between(&lower, &upper));
    // One grid step outside either bound: the cross product already exceeds
    // the tolerance.
    assert!(!Point { x: 20000, y: -1 }.ray_between(&lower, &upper));
    assert!(!Point { x: -1, y: 20000 }.ray_between(&lower, &upper));
}
