//! Alarm detector tests: end-to-end latching, gating, occlusion, and the
//! bounded and unbounded sector hit tests.

use snoop::alarm::{detect, AlwaysInteracts, NeverInteracts, Observer, Suspicious};
use snoop::codes::Codes;
use snoop::geometry::Point;
use snoop::shape::Rect;
use snoop::visibility::compute;
use snoop::walls::{Obstacle, Walls};

fn watched_scene() -> (Observer, Walls, Codes) {
    let mut codes = Codes::new();
    let code = codes.get_code(String::from("camera"));
    let observer = Observer::new(
        Point { x: 6000, y: 2000 },
        Point { x: 0, y: 0 },
        Point { x: -3, y: 1 },
        Point { x: -1, y: 1 },
        code,
    );
    let mut walls = Walls::new();
    let obstacles = vec![Obstacle::Static(Rect { x: 5000, y: 1500, width: 500, height: 1000 })];
    walls.rebuild(&obstacles);
    (observer, walls, codes)
}

#[test]
fn end_to_end_latches_visible_body() {
    let (observer, walls, mut codes) = watched_scene();
    let cone = compute(&observer, &walls);
    // A suspicious rectangle inside the wedge, nearer than the wall.
    let bodies = vec![(
        Rect { x: 5550, y: 2200, width: 100, height: 100 },
        Suspicious { code: 0 },
    )];
    detect::<AlwaysInteracts>(&observer, &cone, &bodies, &mut codes);
    assert!(codes.contains(observer.code));
}

#[test]
fn enclosed_body_latches_in_one_pass() {
    let (observer, walls, mut codes) = watched_scene();
    let cone = compute(&observer, &walls);
    // Fully inside one sector of the fan.
    let bodies = vec![(
        Rect { x: 5600, y: 2300, width: 20, height: 20 },
        Suspicious { code: 0 },
    )];
    detect::<AlwaysInteracts>(&observer, &cone, &bodies, &mut codes);
    assert!(codes.contains(observer.code));
}

#[test]
fn disjoint_body_never_latches() {
    let (observer, walls, mut codes) = watched_scene();
    let cone = compute(&observer, &walls);
    // Behind the wall and outside the wedge: disjoint from every sector.
    let bodies = vec![(
        Rect { x: 5200, y: 1800, width: 100, height: 100 },
        Suspicious { code: 0 },
    )];
    for _ in 0..10 {
        detect::<AlwaysInteracts>(&observer, &cone, &bodies, &mut codes);
        assert!(!codes.contains(observer.code));
    }
}

#[test]
fn gating_blocks_latch_despite_overlap() {
    let (observer, walls, mut codes) = watched_scene();
    let cone = compute(&observer, &walls);
    let bodies = vec![(
        Rect { x: 5550, y: 2200, width: 100, height: 100 },
        Suspicious { code: 0 },
    )];
    detect::<NeverInteracts>(&observer, &cone, &bodies, &mut codes);
    assert!(!codes.contains(observer.code));
}

#[test]
fn unbounded_sector_detects_distant_body() {
    // No walls at all: the single unbounded sector still catches a body far
    // out in the wedge.
    let mut codes = Codes::new();
    let code = codes.get_code(String::from("camera"));
    let observer = Observer::new(
        Point { x: 0, y: 0 },
        Point { x: 0, y: 0 },
        Point { x: 0, y: 10 },
        Point { x: 10, y: 0 },
        code,
    );
    let walls = Walls::new();
    let cone = compute(&observer, &walls);
    let bodies = vec![(
        Rect { x: 40000, y: 40000, width: 100, height: 100 },
        Suspicious { code: 0 },
    )];
    detect::<AlwaysInteracts>(&observer, &cone, &bodies, &mut codes);
    assert!(codes.contains(observer.code));

    // A body behind the observer stays undetected.
    let mut other = Codes::new();
    let other_code = other.get_code(String::from("camera"));
    let bodies_behind = vec![(
        Rect { x: -40000, y: -40000, width: 100, height: 100 },
        Suspicious { code: 0 },
    )];
    detect::<AlwaysInteracts>(&observer, &cone, &bodies_behind, &mut other);
    assert!(!other.contains(other_code));
}

#[test]
fn latched_observer_is_not_reevaluated() {
    let (observer, walls, mut codes) = watched_scene();
    let cone = compute(&observer, &walls);
    codes.insert(observer.code);
    // No body at all: the pass leaves the latch as it found it.
    let bodies: Vec<(Rect, Suspicious)> = Vec::new();
    detect::<AlwaysInteracts>(&observer, &cone, &bodies, &mut codes);
    assert!(codes.contains(observer.code));
}

#[test]
fn observer_shift_reapplies_offset() {
    let mut observer = Observer::new(
        Point { x: 100, y: 100 },
        Point { x: 5, y: -5 },
        Point { x: 0, y: 10 },
        Point { x: 10, y: 0 },
        1,
    );
    assert_eq!(observer.location, Point { x: 105, y: 95 });
    observer.shift(Point { x: 200, y: 300 });
    assert_eq!(observer.location, Point { x: 205, y: 295 });
}
