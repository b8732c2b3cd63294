//! Wall extraction: the tick-local flat list of sight-blocking segments,
//! rebuilt from the current obstacle layout.

use vstd::prelude::*;

verus! {

use crate::geometry::{Point, Segment, MAX_COORD};
use crate::shape::Rect;

/// An obstacle rectangle, tagged by how it blocks movement: a solid block or
/// a platform solid from above only.
#[derive(Clone, Copy, Debug)]
pub enum Obstacle {
    Static(Rect),
    OneWay(Rect),
}

impl Obstacle {
    /// The rectangle the obstacle occupies.
    pub open spec fn rect(self) -> Rect {
        match self {
            Obstacle::Static(r) => r,
            Obstacle::OneWay(r) => r,
        }
    }
}

/// The boundary segments one obstacle contributes to line-of-sight blocking:
/// a solid block walls off all four edges, in the fixed winding top, right,
/// bottom, left; a one-way platform contributes its top edge only.
pub open spec fn obstacle_segments(o: Obstacle) -> Seq<Segment> {
    let r = o.rect();
    let tl = Point { x: r.x, y: r.y };
    let tr = crate::shape::pt(r.x + r.width, r.y as int);
    let br = crate::shape::pt(r.x + r.width, r.y + r.height);
    let bl = crate::shape::pt(r.x as int, r.y + r.height);
    match o {
        Obstacle::Static(_) => seq![
            Segment { start: tl, end: tr },
            Segment { start: tr, end: br },
            Segment { start: br, end: bl },
            Segment { start: bl, end: tl },
        ],
        Obstacle::OneWay(_) => seq![Segment { start: tl, end: tr }],
    }
}

/// All wall segments of an obstacle list, flattened in order.
pub open spec fn wall_segments(obstacles: Seq<Obstacle>) -> Seq<Segment>
    decreases obstacles.len(),
{
    if obstacles.len() == 0 {
        Seq::empty()
    } else {
        wall_segments(obstacles.drop_last()) + obstacle_segments(obstacles.last())
    }
}

/// A segment list fit for visibility queries: every segment well-formed and
/// in bounds.
pub open spec fn segments_ok(s: Seq<Segment>) -> bool {
    forall|i: int| 0 <= i < s.len() ==> (#[trigger] s[i]).wf() && s[i].in_bounds()
}

/// The tick-local list of boundary segments derived from the obstacles;
/// fully replaced every tick, holding no state across ticks.
pub struct Walls {
    pub segments: Vec<Segment>,
}

impl Walls {
    /// An empty wall list.
    pub fn new() -> (w: Walls)
        ensures
            w.segments@.len() == 0,
    {
        Walls { segments: Vec::new() }
    }

    /// Clears and repopulates the list from the obstacle layout: four edges
    /// per solid block in fixed winding order, the top edge alone for each
    /// one-way platform. Empty input yields an empty list.
    pub fn rebuild(&mut self, obstacles: &Vec<Obstacle>)
        requires
            forall|i: int| 0 <= i < obstacles@.len() ==> (#[trigger] obstacles@[i]).rect().wf(),
        ensures
            final(self).segments@ == wall_segments(obstacles@),
            segments_ok(final(self).segments@),
    {
        self.segments.clear();
        let mut k: usize = 0;
        while k < obstacles.len()
            invariant
                forall|i: int| 0 <= i < obstacles@.len() ==> (#[trigger] obstacles@[i]).rect().wf(),
                k <= obstacles@.len(),
                self.segments@ == wall_segments(obstacles@.subrange(0, k as int)),
                segments_ok(self.segments@),
            decreases obstacles@.len() - k,
        {
            let ghost pre = self.segments@;
            match obstacles[k] {
                Obstacle::Static(r) => {
                    let tl = Point { x: r.x, y: r.y };
                    let tr = Point { x: r.x + r.width, y: r.y };
                    let br = Point { x: r.x + r.width, y: r.y + r.height };
                    let bl = Point { x: r.x, y: r.y + r.height };
                    self.segments.push(Segment { start: tl, end: tr });
                    self.segments.push(Segment { start: tr, end: br });
                    self.segments.push(Segment { start: br, end: bl });
                    self.segments.push(Segment { start: bl, end: tl });
                },
                Obstacle::OneWay(r) => {
                    let tl = Point { x: r.x, y: r.y };
                    let tr = Point { x: r.x + r.width, y: r.y };
                    self.segments.push(Segment { start: tl, end: tr });
                },
            }
            proof {
                assert(self.segments@ =~= pre + obstacle_segments(obstacles@[k as int]));
                assert(obstacles@.subrange(0, k as int + 1).drop_last() =~= obstacles@.subrange(
                    0,
                    k as int,
                ));
                assert(obstacles@.subrange(0, k as int + 1).last() == obstacles@[k as int]);
            }
            k = k + 1;
        }
        proof {
            assert(obstacles@.subrange(0, obstacles@.len() as int) =~= obstacles@);
        }
    }
}

} // verus!
