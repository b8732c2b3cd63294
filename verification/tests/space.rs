//! Geometry primitive tests: the angular sort, arc membership, rectangle
//! and triangle intersection, and the raycast. Coordinates are in raw
//! fixed-point units (ten per world unit).

use snoop::geometry::{Point, Ratio, Segment};
use snoop::shape::{Polygon, Rect, Triangle};

#[test]
fn angle_sort() {
    let mut rays = vec![
        Point { x: 10, y: 10 },
        Point { x: 0, y: 10 },
        Point { x: 20, y: 40 },
        Point { x: -10, y: 10 },
        Point { x: 10, y: 2 },
    ];
    Point::sort_from_angle(&mut rays, Point { x: 10, y: 0 });

    assert_eq!(
        rays,
        vec![
            Point { x: 10, y: 2 },
            Point { x: 10, y: 10 },
            Point { x: 20, y: 40 },
            Point { x: 0, y: 10 },
            Point { x: -10, y: 10 },
        ]
    );
}

#[test]
fn ray_between() {
    let ray1 = Point { x: 25, y: 0 };
    let ray2 = Point { x: 0, y: 10 };
    let ray3 = Point { x: -10, y: 20 };
    let ray4 = Point { x: -10, y: -11 };
    let ray5 = Point { x: 37, y: -20 };
    let ray6 = Point { x: -20, y: 0 };
    let ray7 = Point { x: 0, y: -300 };
    let ray8 = Point { x: 100, y: 10 };

    assert!(ray8.ray_between(&ray1, &ray2));
    assert!(ray6.ray_between(&ray3, &ray4));
    assert!(ray5.ray_between(&ray7, &ray1));
    assert!(ray4.ray_between(&ray3, &ray5));

    assert!(!ray3.ray_between(&ray1, &ray2));
    assert!(!ray1.ray_between(&ray3, &ray4));
    assert!(!ray2.ray_between(&ray7, &ray1));
    assert!(!ray8.ray_between(&ray3, &ray5));
}

#[test]
fn rectangle_intersection() {
    let rect1 = Rect { x: 0, y: 0, width: 500, height: 1000 };
    let rect2 = Rect { x: 100, y: 100, width: 8000, height: 4000 };
    let rect3 = Rect { x: 2000, y: 2000, width: 1000, height: 1000 };

    assert!(Rect::intersects(&rect1, &rect2));
    assert!(Rect::intersects(&rect2, &rect3));
    assert!(!Rect::intersects(&rect1, &rect3));

    let poly1 = rect1.to_polygon();
    let poly2 = rect2.to_polygon();
    let poly3 = rect3.to_polygon();

    assert!(Polygon::sat(&poly1, &poly2));
    assert!(Polygon::sat(&poly2, &poly3));
    assert!(!Polygon::sat(&poly1, &poly3));
}

#[test]
fn rect_triangle_intersection() {
    let rect1 = Rect { x: 0, y: 0, width: 1000, height: 1500 };
    let rect2 = Rect { x: 130, y: 560, width: 250, height: 250 };

    let triangle1 = Triangle::new(
        Point { x: 50, y: 50 },
        Point { x: 0, y: -50 },
        Point { x: -50, y: 50 },
    );
    let triangle2 = Triangle::new(
        Point { x: 200, y: 600 },
        Point { x: 1000, y: 1000 },
        Point { x: 0, y: 80 },
    );

    assert!(triangle1.intersects_rectangle(&rect1));
    assert!(!triangle1.intersects_rectangle(&rect2));
    assert!(triangle2.intersects_rectangle(&rect1));
    assert!(triangle2.intersects_rectangle(&rect2));
}

#[test]
fn raycast() {
    let segment1 = Segment::new(Point { x: 100, y: 0 }, Point { x: 0, y: 0 }).unwrap();
    let segment2 = Segment::new(Point { x: 0, y: 0 }, Point { x: 0, y: 100 }).unwrap();
    let segment3 = Segment::new(Point { x: 10, y: 90 }, Point { x: 20, y: 50 }).unwrap();

    let cast1 = segment1
        .raycast(Point { x: 10, y: -10 }, Point { x: 0, y: 10 })
        .unwrap();
    let cast2 = segment2
        .raycast(Point { x: 30, y: 40 }, Point { x: -300, y: 0 })
        .unwrap();
    let cast3 = segment3
        .raycast(Point { x: 0, y: 90 }, Point { x: 10, y: -10 })
        .unwrap();

    assert!(cast1.value_eq(&Ratio::new(1, 1)));
    assert!(cast2.value_eq(&Ratio::new(1, 10)));
    assert!(cast3.value_eq(&Ratio::new(4, 3)));

    let cast4 = segment1.raycast(Point { x: 20, y: 0 }, Point { x: 10, y: 0 });
    let cast5 = segment2.raycast(Point { x: 10, y: 110 }, Point { x: -10, y: 0 });
    let cast6 = segment3.raycast(Point { x: 0, y: 90 }, Point { x: -10, y: 10 });

    assert!(cast4.is_none());
    assert!(cast5.is_none());
    assert!(cast6.is_none());
}

#[test]
fn space_rectangle_intersection() {
    let rect1 = Rect { x: 0, y: 0, width: 500, height: 1000 };
    let rect2 = Rect { x: 100, y: 100, width: 8000, height: 4000 };
    let rect3 = Rect { x: 2000, y: 2000, width: 1000, height: 1000 };

    assert!(Rect::intersects(&rect1, &rect2));
    assert!(Rect::intersects(&rect2, &rect3));
    assert!(!Rect::intersects(&rect1, &rect3));

    let poly1 = rect1.to_polygon();
    let poly2 = rect2.to_polygon();
    let poly3 = rect3.to_polygon();

    assert!(Polygon::sat(&poly1, &poly2));
    assert!(Polygon::sat(&poly2, &poly3));
    assert!(!Polygon::sat(&poly1, &poly3));
}

#[test]
fn space_rect_triangle_intersection() {
    let rect1 = Rect { x: 0, y: 0, width: 1000, height: 1500 };
    let rect2 = Rect { x: 130, y: 560, width: 250, height: 250 };

    let triangle1 = Triangle::new(
        Point { x: 50, y: 50 },
        Point { x: 0, y: -50 },
        Point { x: -50, y: 50 },
    );
    let triangle2 = Triangle::new(
        Point { x: 200, y: 600 },
        Point { x: 1000, y: 1000 },
        Point { x: 0, y: 80 },
    );

    assert!(triangle1.intersects_rectangle(&rect1));
    assert!(!triangle1.intersects_rectangle(&rect2));
    assert!(triangle2.intersects_rectangle(&rect1));
    assert!(triangle2.intersects_rectangle(&rect2));
}

#[test]
fn space_raycast() {
    let segment1 = Segment::new(Point { x: 100, y: 0 }, Point { x: 0, y: 0 }).unwrap();
    let segment2 = Segment::new(Point { x: 0, y: 0 }, Point { x: 0, y: 100 }).unwrap();
    let segment3 = Segment::new(Point { x: 10, y: 90 }, Point { x: 20, y: 50 }).unwrap();

    let cast1 = segment1
        .raycast(Point { x: 10, y: -10 }, Point { x: 0, y: 10 })
        .unwrap();
    let cast2 = segment2
        .raycast(Point { x: 30, y: 40 }, Point { x: -300, y: 0 })
        .unwrap();
    let cast3 = segment3
        .raycast(Point { x: 0, y: 90 }, Point { x: 10, y: -10 })
        .unwrap();

    assert!(cast1.value_eq(&Ratio::new(1, 1)));
    assert!(cast2.value_eq(&Ratio::new(1, 10)));
    assert!(cast3.value_eq(&Ratio::new(4, 3)));

    let cast4 = segment1.raycast(Point { x: 20, y: 0 }, Point { x: 10, y: 0 });
    let cast5 = segment2.raycast(Point { x: 10, y: 110 }, Point { x: -10, y: 0 });
    let cast6 = segment3.raycast(Point { x: 0, y: 90 }, Point { x: -10, y: 10 });

    assert!(cast4.is_none());
    assert!(cast5.is_none());
    assert!(cast6.is_none());
}

#[test]
fn point_arithmetic() {
    let a = Point { x: 30, y: -40 };
    let b = Point { x: 7, y: 2 };
    assert_eq!(a.add(b), Point { x: 37, y: -38 });
    assert_eq!(a.sub(b), Point { x: 23, y: -42 });
    assert_eq!(a.dot(b), 30 * 7 - 40 * 2);
    assert_eq!(a.scale(3), Point { x: 90, y: -120 });
    assert_eq!(
        Segment::new(Point { x: 5, y: 5 }, Point { x: 5, y: 5 }),
        None
    );
}
