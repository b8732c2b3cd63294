//! Wall extractor tests: contribution and winding order per obstacle kind.

use snoop::geometry::Point;
use snoop::shape::Rect;
use snoop::walls::{Obstacle, Walls};

#[test]
fn static_block_contributes_four_edges_in_order() {
    let mut walls = Walls::new();
    let obstacles = vec![Obstacle::Static(Rect { x: 10, y: 20, width: 30, height: 40 })];
    walls.rebuild(&obstacles);
    assert_eq!(walls.segments.len(), 4);
    // Top: left to right.
    assert_eq!(walls.segments[0].start, Point { x: 10, y: 20 });
    assert_eq!(walls.segments[0].end, Point { x: 40, y: 20 });
    // Right: top to bottom.
    assert_eq!(walls.segments[1].start, Point { x: 40, y: 20 });
    assert_eq!(walls.segments[1].end, Point { x: 40, y: 60 });
    // Bottom: right to left.
    assert_eq!(walls.segments[2].start, Point { x: 40, y: 60 });
    assert_eq!(walls.segments[2].end, Point { x: 10, y: 60 });
    // Left: bottom to top.
    assert_eq!(walls.segments[3].start, Point { x: 10, y: 60 });
    assert_eq!(walls.segments[3].end, Point { x: 10, y: 20 });
}

#[test]
fn oneway_platform_contributes_top_edge_only() {
    let mut walls = Walls::new();
    let obstacles = vec![Obstacle::OneWay(Rect { x: 100, y: 200, width: 50, height: 10 })];
    walls.rebuild(&obstacles);
    assert_eq!(walls.segments.len(), 1);
    assert_eq!(walls.segments[0].start, Point { x: 100, y: 200 });
    assert_eq!(walls.segments[0].end, Point { x: 150, y: 200 });
}

#[test]
fn rebuild_replaces_previous_contents() {
    let mut walls = Walls::new();
    let first = vec![
        Obstacle::Static(Rect { x: 0, y: 0, width: 10, height: 10 }),
        Obstacle::OneWay(Rect { x: 50, y: 0, width: 10, height: 10 }),
    ];
    walls.rebuild(&first);
    assert_eq!(walls.segments.len(), 5);
    let empty: Vec<Obstacle> = Vec::new();
    walls.rebuild(&empty);
    assert_eq!(walls.segments.len(), 0);
}
