//! Visibility engine tests: the fan against a single wall block, the
//! unbounded zero-wall fan, and the degenerate zero-width wedge.

use snoop::alarm::Observer;
use snoop::geometry::Point;
use snoop::shape::Rect;
use snoop::visibility::compute;
use snoop::walls::{Obstacle, Walls};

#[test]
fn zero_wall_wedge_single_unbounded_triangle() {
    let observer = Observer::new(
        Point { x: 0, y: 0 },
        Point { x: 0, y: 0 },
        Point { x: 0, y: 10 },
        Point { x: 10, y: 0 },
        7,
    );
    let walls = Walls::new();
    let cone = compute(&observer, &walls);
    assert_eq!(cone.field.len(), 1);
    assert!(cone.field[0].far.is_none());
    assert_eq!(cone.field[0].apex, Point { x: 0, y: 0 });
}

#[test]
fn coincident_wedge_bounds_empty_cone() {
    let observer = Observer::new(
        Point { x: 100, y: 100 },
        Point { x: 0, y: 0 },
        Point { x: 3, y: 3 },
        Point { x: 3, y: 3 },
        7,
    );
    let mut walls = Walls::new();
    let obstacles = vec![Obstacle::Static(Rect { x: 0, y: 0, width: 50, height: 50 })];
    walls.rebuild(&obstacles);
    let cone = compute(&observer, &walls);
    assert_eq!(cone.field.len(), 0);
}

#[test]
fn fan_against_one_wall_block() {
    let observer = Observer::new(
        Point { x: 6000, y: 2000 },
        Point { x: 0, y: 0 },
        Point { x: -3, y: 1 },
        Point { x: -1, y: 1 },
        7,
    );
    let mut walls = Walls::new();
    let obstacles = vec![Obstacle::Static(Rect { x: 5000, y: 1500, width: 500, height: 1000 })];
    walls.rebuild(&obstacles);
    let cone = compute(&observer, &walls);

    // Two wall corners fall in the wedge, so four rays make three sectors,
    // each cut off at the wall's near edge.
    assert_eq!(cone.field.len(), 3);
    for tri in cone.field.iter() {
        assert_eq!(tri.apex, Point { x: 6000, y: 2000 });
        assert!(tri.far.is_some());
    }
    assert_eq!(
        cone.field[0].far,
        Some((Point { x: 5500, y: 2500 }, Point { x: 5500, y: 2500 }))
    );
    assert_eq!(
        cone.field[1].far,
        Some((Point { x: 5500, y: 2500 }, Point { x: 5500, y: 2250 }))
    );
    // The last sector's second ray leaves the wall at y = 2000 + 500/3,
    // rounded down to the grid.
    assert_eq!(
        cone.field[2].far,
        Some((Point { x: 5500, y: 2250 }, Point { x: 5500, y: 2166 }))
    );
}
