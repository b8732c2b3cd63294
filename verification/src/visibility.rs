//! The visibility engine: one bounded triangle fan per observer per tick,
//! built by angularly sorted radial raycasting against the wall list.

use vstd::prelude::*;

verus! {

use crate::geometry::{
    Point, Segment, Ratio, pt_in_range, rc_hit, rc_s_num, rc_t_num, rc_t_den, ratio_lt,
    ray_in_wedge, MAX_COORD, RAY_BOUND, TOL_NUM, TOL_DEN, lemma_abs_mul_le,
};
use crate::shape::{
    pt, corner_deltas, rect_deltas, spec_sat, wedge_rect_sat, wedge_intersects_rect,
    lemma_enclosed_rect_intersects, point_in_triangle, rect_corner, tri_area2, Rect, Triangle,
    VERT_BOUND,
};
use crate::alarm::{Observer, wedge_degenerate};
use crate::angle::{sorted_from, all_rays_ok};
use crate::walls::{Walls, segments_ok};
use vstd::arithmetic::div_mod::{lemma_div_is_ordered, lemma_div_multiples_vanish,
    lemma_fundamental_div_mod, lemma_fundamental_div_mod_converse};

/// Largest magnitude a far-vertex displacement along a struck segment can
/// take: the segment extent, widened by the tolerance slack.
pub const HIT_SPAN: i64 = 1_000_100;

/// One sector of an observer's visible region: the apex with the pair of
/// bounding rays, and the far vertices where the nearest wall cuts the
/// sector off. `far` is `None` when no wall is struck along both rays: sight
/// in that sector is unbounded, which is never conflated with a zero-distance
/// hit.
#[derive(Clone, Copy, Debug)]
pub struct ConeTriangle {
    pub apex: Point,
    pub ray_a: Point,
    pub ray_b: Point,
    pub far: Option<(Point, Point)>,
}

impl ConeTriangle {
    /// Separating-axis hit test of this sector against a rectangle.
    pub fn intersects_rectangle(&self, rect: &Rect) -> (r: bool)
        requires
            self.wf(),
            rect.wf(),
        ensures
            r == sector_hits_rect(*self, *rect),
    {
        match self.far {
            Option::Some((p1, p2)) => Triangle::new(self.apex, p1, p2).intersects_rectangle(rect),
            Option::None => wedge_intersects_rect(self.apex, self.ray_a, self.ray_b, rect),
        }
    }

    /// Apex, rays, and any far vertices are in range for hit testing.
    pub open spec fn wf(self) -> bool {
        &&& pt_in_range(self.apex, MAX_COORD as int)
        &&& pt_in_range(self.ray_a, RAY_BOUND as int)
        &&& pt_in_range(self.ray_b, RAY_BOUND as int)
        &&& !(self.ray_a.x == 0 && self.ray_a.y == 0)
        &&& !(self.ray_b.x == 0 && self.ray_b.y == 0)
        &&& (self.far matches Some(f) ==> pt_in_range(f.0, VERT_BOUND as int) && pt_in_range(
            f.1,
            VERT_BOUND as int,
        ))
    }
}

/// A bounded sector intersects the rectangle when its triangle passes the
/// separating-axis test; an unbounded one when the sector test passes.
pub open spec fn sector_hits_rect(t: ConeTriangle, r: Rect) -> bool {
    match t.far {
        Option::Some(f) => spec_sat(corner_deltas(t.apex, f.0, f.1), rect_deltas(r)),
        Option::None => wedge_rect_sat(t.apex, t.ray_a, t.ray_b, rect_deltas(r)),
    }
}

/// A suspicious rectangle fully enclosed by one bounded, positively
/// oriented fan sector registers as seen by that sector; with the
/// detector's contract, one detection pass then latches the observer's
/// code.
pub proof fn lemma_enclosed_rect_is_seen(t: ConeTriangle, r: Rect)
    requires
        t.wf(),
        r.wf(),
        t.far matches Some(f) && tri_area2(t.apex, f.0, f.1) > 0 && point_in_triangle(
            rect_corner(r, 0),
            t.apex,
            f.0,
            f.1,
        ) && point_in_triangle(rect_corner(r, 1), t.apex, f.0, f.1) && point_in_triangle(
            rect_corner(r, 2),
            t.apex,
            f.0,
            f.1,
        ) && point_in_triangle(rect_corner(r, 3), t.apex, f.0, f.1),
    ensures
        sector_hits_rect(t, r),
{
    let f = t.far->Some_0;
    lemma_enclosed_rect_intersects(t.apex, f.0, f.1, r);
}

/// An observer's visible region this tick: an ordered fan of sectors, fully
/// replaced every tick. Empty when the wedge degenerates.
pub struct Cone {
    pub field: Vec<ConeTriangle>,
}

/// Every sector of the fan is in range.
pub open spec fn cone_ok(s: Seq<ConeTriangle>) -> bool {
    forall|i: int| 0 <= i < s.len() ==> (#[trigger] s[i]).wf()
}

/// The ray from the observer's position to a segment's start point.
pub open spec fn seg_ray(loc: Point, seg: Segment) -> Point {
    pt(seg.start.x - loc.x, seg.start.y - loc.y)
}

/// The rays the fan is built over: the two wedge bounds, then the ray to
/// each wall segment's start point that falls inside the wedge.
pub open spec fn candidate_rays(loc: Point, lower: Point, upper: Point, segs: Seq<Segment>)
    -> Seq<Point>
    decreases segs.len(),
{
    if segs.len() == 0 {
        seq![lower, upper]
    } else {
        let pre = candidate_rays(loc, lower, upper, segs.drop_last());
        let ray = seg_ray(loc, segs.last());
        if ray_in_wedge(ray, lower, upper) {
            pre.push(ray)
        } else {
            pre
        }
    }
}

/// The ray parameter at which `ray` strikes `seg`, as an exact rational.
pub open spec fn t_ratio(seg: Segment, loc: Point, ray: Point) -> Ratio {
    Ratio { num: rc_t_num(seg, loc, ray) as i64, den: rc_t_den(seg, ray) as i64 }
}

/// The segment bounding sight between a pair of adjacent rays: scanning the
/// walls in order, the first segment struck along both rays at the smallest
/// distance along the first ray. `None` when no wall is struck along both:
/// sight between the pair is unbounded.
pub open spec fn scan_pair(segs: Seq<Segment>, loc: Point, r1: Point, r2: Point) -> Option<
    Segment,
>
    decreases segs.len(),
{
    if segs.len() == 0 {
        None
    } else {
        let prev = scan_pair(segs.drop_last(), loc, r1, r2);
        let s = segs.last();
        if rc_hit(s, loc, r1) && rc_hit(s, loc, r2) {
            match prev {
                Option::None => Some(s),
                Option::Some(p) => if ratio_lt(t_ratio(s, loc, r1), t_ratio(p, loc, r1)) {
                    Some(s)
                } else {
                    prev
                },
            }
        } else {
            prev
        }
    }
}

/// The point where `ray` crosses `seg`, rounded down to the coordinate
/// grid: the segment start plus the segment extent scaled by the exact
/// crossing parameter.
pub open spec fn hit_point_spec(seg: Segment, loc: Point, ray: Point) -> Point {
    pt(
        seg.start.x + ((seg.end.x - seg.start.x) * rc_s_num(seg, loc, ray)) / rc_t_den(seg, ray),
        seg.start.y + ((seg.end.y - seg.start.y) * rc_s_num(seg, loc, ray)) / rc_t_den(seg, ray),
    )
}

/// The fan sector spanned by an adjacent ray pair: far vertices on the
/// nearest segment struck along both rays, or unbounded when there is none.
pub open spec fn pair_triangle(segs: Seq<Segment>, loc: Point, r1: Point, r2: Point)
    -> ConeTriangle {
    ConeTriangle {
        apex: loc,
        ray_a: r1,
        ray_b: r2,
        far: match scan_pair(segs, loc, r1, r2) {
            Option::None => None,
            Option::Some(s) => Some(
                (hit_point_spec(s, loc, r1), hit_point_spec(s, loc, r2))),
        },
    }
}

/// The fan is exactly one sector per adjacent pair of the sorted rays.
pub open spec fn fan_of(cone: Seq<ConeTriangle>, segs: Seq<Segment>, loc: Point, rs: Seq<Point>)
    -> bool {
    &&& cone.len() + 1 == rs.len()
    &&& forall|i: int|
        0 <= i < cone.len() ==> #[trigger] cone[i] == pair_triangle(segs, loc, rs[i], rs[i + 1])
}

/// Floor division by a positive divisor, carried out on magnitudes.
fn floor_div(a: i128, b: i128) -> (q: i128)
    requires
        0 < b < 0x4000_0000_0000_0000_0000_0000_0000_0000,
        -0x4000_0000_0000_0000_0000_0000_0000_0000 < a < 0x4000_0000_0000_0000_0000_0000_0000_0000,
    ensures
        q == a as int / b as int,
{
    if a >= 0 {
        let q = (a as u128) / (b as u128);
        proof {
            lemma_fundamental_div_mod(a as int, b as int);
            assert(a as int / b as int <= a) by {
                vstd::arithmetic::div_mod::lemma_div_nonincreasing(a as int, b as int);
            }
            assert(a as int / b as int >= 0) by {
                vstd::arithmetic::div_mod::lemma_div_pos_is_pos(a as int, b as int);
            }
        }
        q as i128
    } else {
        let na: u128 = (-a) as u128;
        let nb: u128 = b as u128;
        let e: u128 = na / nb;
        let m: u128 = na % nb;
        proof {
            lemma_fundamental_div_mod(na as int, nb as int);
            assert(e <= na) by {
                vstd::arithmetic::div_mod::lemma_div_nonincreasing(na as int, nb as int);
            }
        }
        if m == 0 {
            proof {
                assert(a as int == b as int * -(e as int) + 0) by (nonlinear_arith)
                    requires
                        -a == b as int * (e as int),
                ;
                lemma_fundamental_div_mod_converse(a as int, b as int, -(e as int), 0);
            }
            -(e as i128)
        } else {
            proof {
                assert(a as int == b as int * (-(e as int) - 1) + (b - m)) by (nonlinear_arith)
                    requires
                        -a == b as int * (e as int) + m,
                ;
                lemma_fundamental_div_mod_converse(a as int, b as int, -(e as int) - 1, b - m);
            }
            -(e as i128) - 1
        }
    }
}

/// Multiplying both sides of `t * s <= k * d` by a nonnegative `r` bounded
/// by `rm` keeps the scaled inequality, and likewise from below.
proof fn lemma_scaled_interval(s: int, d: int, r: int, rm: int, k: int, t: int)
    by (nonlinear_arith)
    requires
        t > 0,
        k >= 0,
        d >= 0,
        0 <= rm,
        -rm <= r <= rm,
        -(k * d) <= t * s <= k * d,
    ensures
        -(rm * k * d) <= t * (r * s) <= rm * k * d,
{
}

/// The hit displacement along a struck segment is within the widened
/// segment extent: `|extent * s_num| <= HIT_SPAN * den` on both axes.
proof fn lemma_hit_span(seg: Segment, loc: Point, ray: Point)
    requires
        seg.in_bounds(),
        pt_in_range(loc, MAX_COORD as int),
        pt_in_range(ray, RAY_BOUND as int),
        rc_hit(seg, loc, ray),
    ensures
        -(HIT_SPAN * rc_t_den(seg, ray)) <= (seg.end.x - seg.start.x) * rc_s_num(seg, loc, ray)
            <= HIT_SPAN * rc_t_den(seg, ray),
        -(HIT_SPAN * rc_t_den(seg, ray)) <= (seg.end.y - seg.start.y) * rc_s_num(seg, loc, ray)
            <= HIT_SPAN * rc_t_den(seg, ray),
    {
    let d = rc_t_den(seg, ray);
    let sn = rc_s_num(seg, loc, ray);
    let run = seg.end.x - seg.start.x;
    let rise = seg.end.y - seg.start.y;
    assert(d >= 0);
    assert(-((TOL_DEN + TOL_NUM) * d) <= TOL_DEN * sn <= (TOL_DEN + TOL_NUM) * d);
    lemma_scaled_interval(sn, d, run, 2 * MAX_COORD as int, TOL_DEN + TOL_NUM, TOL_DEN as int);
    lemma_scaled_interval(sn, d, rise, 2 * MAX_COORD as int, TOL_DEN + TOL_NUM, TOL_DEN as int);
    assert(2 * MAX_COORD * ((TOL_DEN + TOL_NUM) as int) * d == TOL_DEN * (HIT_SPAN * d))
        by (nonlinear_arith)
        requires
            d >= 0,
    ;
    assert(TOL_DEN * (run * sn) <= TOL_DEN * (HIT_SPAN * d) ==> run * sn <= HIT_SPAN * d)
        by (nonlinear_arith);
    assert(-(TOL_DEN * (HIT_SPAN * d)) <= TOL_DEN * (run * sn) ==> -(HIT_SPAN * d) <= run * sn)
        by (nonlinear_arith);
    assert(TOL_DEN * (rise * sn) <= TOL_DEN * (HIT_SPAN * d) ==> rise * sn <= HIT_SPAN * d)
        by (nonlinear_arith);
    assert(-(TOL_DEN * (HIT_SPAN * d)) <= TOL_DEN * (rise * sn) ==> -(HIT_SPAN * d) <= rise * sn)
        by (nonlinear_arith);
}

/// Computes the grid point where `ray` crosses `seg`, given that it does.
fn hit_point(seg: &Segment, loc: Point, ray: Point) -> (r: Point)
    requires
        seg.wf(),
        seg.in_bounds(),
        pt_in_range(loc, MAX_COORD as int),
        pt_in_range(ray, RAY_BOUND as int),
        !(ray.x == 0 && ray.y == 0),
        rc_hit(*seg, loc, ray),
    ensures
        r == hit_point_spec(*seg, loc, ray),
        pt_in_range(r, VERT_BOUND as int),
{
    let rise: i64 = seg.end.y - seg.start.y;
    let run: i64 = seg.end.x - seg.start.x;
    proof {
        lemma_abs_mul_le(rise as int, ray.x as int, RAY_BOUND as int, RAY_BOUND as int);
        lemma_abs_mul_le(run as int, ray.y as int, RAY_BOUND as int, RAY_BOUND as int);
        lemma_abs_mul_le(loc.y as int, ray.x as int, MAX_COORD as int, RAY_BOUND as int);
        lemma_abs_mul_le(seg.start.x as int, ray.y as int, MAX_COORD as int, RAY_BOUND as int);
        lemma_abs_mul_le(loc.x as int, ray.y as int, MAX_COORD as int, RAY_BOUND as int);
        lemma_abs_mul_le(seg.start.y as int, ray.x as int, MAX_COORD as int, RAY_BOUND as int);
    }
    let den: i128 = (rise as i128) * (ray.x as i128) - (run as i128) * (ray.y as i128);
    let snum: i128 = (loc.y as i128) * (ray.x as i128) + (seg.start.x as i128) * (ray.y as i128)
        - (loc.x as i128) * (ray.y as i128) - (seg.start.y as i128) * (ray.x as i128);
    let d_pos: i128 = if den < 0 {
        -den
    } else {
        den
    };
    let sn: i128 = if den >= 0 {
        snum
    } else {
        -snum
    };
    proof {
        assert(d_pos as int == rc_t_den(*seg, ray));
        assert(sn as int == rc_s_num(*seg, loc, ray));
        assert(d_pos > 0);
        lemma_hit_span(*seg, loc, ray);
        lemma_abs_mul_le(run as int, sn as int, RAY_BOUND as int, 4_000_000_000_000);
        lemma_abs_mul_le(rise as int, sn as int, RAY_BOUND as int, 4_000_000_000_000);
    }
    let dx: i128 = floor_div((run as i128) * sn, d_pos);
    let dy: i128 = floor_div((rise as i128) * sn, d_pos);
    proof {
        lemma_div_is_ordered((run as i128) * sn, HIT_SPAN * d_pos, d_pos as int);
        lemma_div_is_ordered(-(HIT_SPAN * d_pos), (run as i128) * sn, d_pos as int);
        lemma_div_is_ordered((rise as i128) * sn, HIT_SPAN * d_pos, d_pos as int);
        lemma_div_is_ordered(-(HIT_SPAN * d_pos), (rise as i128) * sn, d_pos as int);
        lemma_div_multiples_vanish(HIT_SPAN as int, d_pos as int);
        lemma_div_multiples_vanish(-(HIT_SPAN as int), d_pos as int);
    }
    Point { x: seg.start.x + (dx as i64), y: seg.start.y + (dy as i64) }
}

/// The candidate ray list always holds at least the two wedge bounds.
proof fn lemma_candidates_len(loc: Point, lower: Point, upper: Point, segs: Seq<Segment>)
    ensures
        candidate_rays(loc, lower, upper, segs).len() >= 2,
    decreases segs.len(),
{
    if segs.len() > 0 {
        lemma_candidates_len(loc, lower, upper, segs.drop_last());
    }
}

impl Cone {
    /// An empty visible region.
    pub fn new() -> (c: Cone)
        ensures
            c.field@.len() == 0,
    {
        Cone { field: Vec::new() }
    }
}

/// Computes the observer's visible region for this tick: collects the rays
/// toward wall corners inside the wedge, sorts them angularly from `lower`,
/// and emits one fan sector per adjacent pair, cut off at the nearest wall
/// struck along both rays or left unbounded when none is. A zero-width wedge
/// yields an empty fan; an observer standing exactly on a wall corner is a
/// malformed scene, excluded ahead of time.
pub fn compute(observer: &Observer, walls: &Walls) -> (cone: Cone)
    requires
        observer.wf(),
        segments_ok(walls.segments@),
        forall|i: int|
            0 <= i < walls.segments@.len() ==> (#[trigger] walls.segments@[i]).start
                != observer.location,
    ensures
        cone_ok(cone.field@),
        wedge_degenerate(observer.lower, observer.upper) ==> cone.field@.len() == 0,
        !wedge_degenerate(observer.lower, observer.upper) ==> exists|rs: Seq<Point>|
            #[trigger] sorted_from(observer.lower, rs) && rs.to_multiset() == candidate_rays(
                observer.location,
                observer.lower,
                observer.upper,
                walls.segments@,
            ).to_multiset() && fan_of(cone.field@, walls.segments@, observer.location, rs),
        !wedge_degenerate(observer.lower, observer.upper) && walls.segments@.len() == 0 ==> {
            &&& cone.field@.len() == 1
            &&& cone.field@[0].far is None
            &&& cone.field@[0].apex == observer.location
        },
{
    broadcast use vstd::seq_lib::group_to_multiset_ensures;

    let loc = observer.location;
    let lower = observer.lower;
    let upper = observer.upper;
    let ghost segs = walls.segments@;
    proof {
        lemma_abs_mul_le(lower.x as int, upper.y as int, RAY_BOUND as int, RAY_BOUND as int);
        lemma_abs_mul_le(lower.y as int, upper.x as int, RAY_BOUND as int, RAY_BOUND as int);
    }
    let cr: i128 = (lower.x as i128) * (upper.y as i128) - (lower.y as i128) * (upper.x as i128);
    if cr == 0 {
        return Cone::new();
    }
    let mut rays: Vec<Point> = Vec::new();
    rays.push(lower);
    rays.push(upper);
    let mut k: usize = 0;
    while k < walls.segments.len()
        invariant
            observer.wf(),
            loc == observer.location,
            lower == observer.lower,
            upper == observer.upper,
            segs == walls.segments@,
            segments_ok(segs),
            forall|i: int| 0 <= i < segs.len() ==> (#[trigger] segs[i]).start != loc,
            k <= segs.len(),
            rays@ == candidate_rays(loc, lower, upper, segs.subrange(0, k as int)),
            all_rays_ok(rays@),
        decreases segs.len() - k,
    {
        let seg = walls.segments[k];
        let ray = seg.start.sub(loc);
        if ray.ray_between(&lower, &upper) {
            rays.push(ray);
        }
        proof {
            assert(segs.subrange(0, k as int + 1).drop_last() =~= segs.subrange(0, k as int));
            assert(segs.subrange(0, k as int + 1).last() == segs[k as int]);
            assert(ray == seg_ray(loc, segs[k as int]));
        }
        k = k + 1;
    }
    proof {
        assert(segs.subrange(0, segs.len() as int) =~= segs);
    }
    let ghost candidates = rays@;
    Point::sort_from_angle(&mut rays, lower);
    let ghost rs = rays@;
    proof {
        lemma_candidates_len(loc, lower, upper, segs);
        assert(candidates.len() >= 2);
        assert(rs.len() == candidates.len());
    }
    let mut field: Vec<ConeTriangle> = Vec::new();
    let n: usize = rays.len();
    let mut i: usize = 0;
    while i + 1 < n
        invariant
            observer.wf(),
            loc == observer.location,
            segs == walls.segments@,
            segments_ok(segs),
            rays@ == rs,
            all_rays_ok(rs),
            rs.len() >= 2,
            n == rs.len(),
            i + 1 <= n,
            field@.len() == i,
            forall|j: int|
                0 <= j < i ==> #[trigger] field@[j] == pair_triangle(segs, loc, rs[j], rs[j + 1]),
            cone_ok(field@),
        decreases rs.len() - i,
    {
        let r1 = rays[i];
        let r2 = rays[i + 1];
        let mut best: Option<(Ratio, Segment)> = None;
        let mut k: usize = 0;
        while k < walls.segments.len()
            invariant
                observer.wf(),
                loc == observer.location,
                segs == walls.segments@,
                segments_ok(segs),
                all_rays_ok(rs),
                rs.len() >= 2,
                i + 1 < rs.len(),
                r1 == rs[i as int],
                r2 == rs[i as int + 1],
                k <= segs.len(),
                best is Some <==> scan_pair(segs.subrange(0, k as int), loc, r1, r2) is Some,
                best matches Some(b) ==> {
                    &&& scan_pair(segs.subrange(0, k as int), loc, r1, r2) == Some(b.1)
                    &&& rc_hit(b.1, loc, r1)
                    &&& rc_hit(b.1, loc, r2)
                    &&& b.0 == t_ratio(b.1, loc, r1)
                    &&& b.0.wf()
                    &&& b.1.wf()
                    &&& b.1.in_bounds()
                },
            decreases segs.len() - k,
        {
            let seg = walls.segments[k];
            let cast_current = seg.raycast(loc, r1);
            let cast_next = seg.raycast(loc, r2);
            match (cast_current, cast_next) {
                (Some(t1), Some(_)) => {
                    let take = match &best {
                        Option::None => true,
                        Option::Some(b) => t1.lt(&b.0),
                    };
                    if take {
                        best = Some((t1, seg));
                    }
                },
                _ => {},
            }
            proof {
                assert(segs.subrange(0, k as int + 1).drop_last() =~= segs.subrange(0, k as int));
                assert(segs.subrange(0, k as int + 1).last() == segs[k as int]);
            }
            k = k + 1;
        }
        proof {
            assert(segs.subrange(0, segs.len() as int) =~= segs);
        }
        let tri = match best {
            Option::None => ConeTriangle { apex: loc, ray_a: r1, ray_b: r2, far: None },
            Option::Some((_, seg)) => {
                let p1 = hit_point(&seg, loc, r1);
                let p2 = hit_point(&seg, loc, r2);
                ConeTriangle { apex: loc, ray_a: r1, ray_b: r2, far: Some((p1, p2)) }
            },
        };
        field.push(tri);
        proof {
            assert(field@[i as int] == pair_triangle(segs, loc, rs[i as int], rs[i as int + 1]));
        }
        i = i + 1;
    }
    let cone = Cone { field };
    proof {
        assert(sorted_from(observer.lower, rs));
        assert(rs.to_multiset() == candidate_rays(
            observer.location,
            observer.lower,
            observer.upper,
            walls.segments@,
        ).to_multiset());
        assert(fan_of(cone.field@, walls.segments@, observer.location, rs));
        if segs.len() == 0 {
            assert(candidates == seq![lower, upper]);
            assert(rs.len() == 2);
            assert(cone.field@[0] == pair_triangle(segs, loc, rs[0], rs[1]));
        }
    }
    cone
}

} // verus!
