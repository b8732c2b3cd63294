//! Convex shapes and the separating-axis intersection test: rectangles,
//! triangles, and polygons in vertex-delta form.

use vstd::prelude::*;

verus! {

use crate::geometry::{Point, pt_in_range, in_range, MAX_COORD, lemma_abs_mul_le};

/// Bound for the absolute vertices of a polygon handed to the projection and
/// separating-axis routines. It covers level rectangles and visibility-fan
/// vertices alike.
pub const POLY_BOUND: i64 = 4_000_000;

/// Bound for the coordinates of a projection axis (a polygon edge normal).
pub const AXIS_BOUND: i64 = 8_000_000;

/// Bound for the vertices of a visibility-fan triangle.
pub const VERT_BOUND: i64 = 3_000_000;

/// A point from ghost coordinates known to be in `i64` range.
pub open spec fn pt(x: int, y: int) -> Point {
    Point { x: x as i64, y: y as i64 }
}

/// An axis-aligned rectangle: top-left corner plus extent.
#[derive(Clone, Copy, Debug, PartialEq, Eq, Structural)]
pub struct Rect {
    pub x: i64,
    pub y: i64,
    pub width: i64,
    pub height: i64,
}

impl Rect {
    /// A rectangle is well-formed when it has positive extent and all four
    /// corners lie within the coordinate bound.
    pub open spec fn wf(self) -> bool {
        &&& self.width > 0
        &&& self.height > 0
        &&& in_range(self.x as int, MAX_COORD as int)
        &&& in_range(self.y as int, MAX_COORD as int)
        &&& in_range(self.x + self.width, MAX_COORD as int)
        &&& in_range(self.y + self.height, MAX_COORD as int)
    }

    /// Moves the rectangle by a velocity vector.
    pub fn translate(&mut self, v: (i64, i64))
        requires
            in_range(old(self).x + v.0, i64::MAX as int),
            in_range(old(self).y + v.1, i64::MAX as int),
        ensures
            final(self).x == old(self).x + v.0,
            final(self).y == old(self).y + v.1,
            final(self).width == old(self).width,
            final(self).height == old(self).height,
    {
        let (vx, vy) = v;
        self.x = self.x + vx;
        self.y = self.y + vy;
    }

    /// The x coordinate of the right edge.
    pub fn right(&self) -> (r: i64)
        requires
            in_range(self.x + self.width, i64::MAX as int),
        ensures
            r == self.x + self.width,
    {
        self.x + self.width
    }

    /// The y coordinate of the bottom edge.
    pub fn bottom(&self) -> (r: i64)
        requires
            in_range(self.y + self.height, i64::MAX as int),
        ensures
            r == self.y + self.height,
    {
        self.y + self.height
    }

    /// Axis-aligned overlap test: true exactly when the interiors meet.
    pub fn intersects(r1: &Rect, r2: &Rect) -> (r: bool)
        requires
            r1.wf(),
            r2.wf(),
        ensures
            r == rects_overlap(*r1, *r2),
    {
        if r1.x >= r2.right() {
            return false;
        }
        if r1.right() <= r2.x {
            return false;
        }
        if r1.y >= r2.bottom() {
            return false;
        }
        if r1.bottom() <= r2.y {
            return false;
        }
        true
    }

    /// The rectangle as a polygon in vertex-delta form: the top-left corner
    /// followed by the four edge vectors around it.
    pub fn to_polygon(&self) -> (r: Polygon)
        requires
            self.wf(),
        ensures
            r.vertices@ =~= rect_deltas(*self),
    {
        let mut vertices: Vec<Point> = Vec::new();
        vertices.push(Point { x: self.x, y: self.y });
        vertices.push(Point { x: self.width, y: 0 });
        vertices.push(Point { x: 0, y: self.height });
        vertices.push(Point { x: -self.width, y: 0 });
        vertices.push(Point { x: 0, y: -self.height });
        Polygon { vertices }
    }
}

/// Interiors of two well-formed rectangles overlap.
pub open spec fn rects_overlap(a: Rect, b: Rect) -> bool {
    &&& a.x < b.x + b.width
    &&& a.x + a.width > b.x
    &&& a.y < b.y + b.height
    &&& a.y + a.height > b.y
}

/// The delta-form vertex list of a rectangle.
pub open spec fn rect_deltas(r: Rect) -> Seq<Point> {
    seq![
        pt(r.x as int, r.y as int),
        pt(r.width as int, 0),
        pt(0, r.height as int),
        pt(-(r.width as int), 0),
        pt(0, -(r.height as int)),
    ]
}

/// A triangle given by its three corners; ephemeral hit-test geometry.
#[derive(Clone, Copy, Debug)]
pub struct Triangle {
    pub vertices: [Point; 3],
}

/// The delta-form vertex list of a triangle over three corners.
pub open spec fn corner_deltas(a: Point, b: Point, c: Point) -> Seq<Point> {
    seq![
        a,
        pt(b.x - a.x, b.y - a.y),
        pt(c.x - b.x, c.y - b.y),
        pt(a.x - c.x, a.y - c.y),
    ]
}

/// The delta-form vertex list of a triangle.
pub open spec fn tri_deltas(t: Triangle) -> Seq<Point> {
    corner_deltas(t.vertices[0], t.vertices[1], t.vertices[2])
}

impl Triangle {
    /// All three corners lie within the fan-vertex bound.
    pub open spec fn wf(self) -> bool {
        &&& pt_in_range(self.vertices[0], VERT_BOUND as int)
        &&& pt_in_range(self.vertices[1], VERT_BOUND as int)
        &&& pt_in_range(self.vertices[2], VERT_BOUND as int)
    }

    pub fn new(a: Point, b: Point, c: Point) -> (r: Triangle)
        ensures
            r.vertices[0] == a,
            r.vertices[1] == b,
            r.vertices[2] == c,
    {
        Triangle { vertices: [a, b, c] }
    }

    /// The triangle as a polygon in vertex-delta form.
    fn to_polygon(&self) -> (r: Polygon)
        requires
            self.wf(),
        ensures
            r.vertices@ =~= tri_deltas(*self),
    {
        let mut vertices: Vec<Point> = Vec::new();
        vertices.push(self.vertices[0]);
        vertices.push(self.vertices[1].sub(self.vertices[0]));
        vertices.push(self.vertices[2].sub(self.vertices[1]));
        vertices.push(self.vertices[0].sub(self.vertices[2]));
        Polygon { vertices }
    }

    /// Separating-axis test of this triangle against a rectangle.
    pub fn intersects_rectangle(&self, rectangle: &Rect) -> (r: bool)
        requires
            self.wf(),
            rectangle.wf(),
        ensures
            r == spec_sat(tri_deltas(*self), rect_deltas(*rectangle)),
    {
        let triangle = self.to_polygon();
        let rect = rectangle.to_polygon();
        proof {
            lemma_tri_deltas_ok(*self);
            lemma_rect_deltas_ok(*rectangle);
        }
        Polygon::sat(&triangle, &rect)
    }
}

/// A polygon in vertex-delta form: the first entry is an absolute position,
/// each following entry is the vector to the next vertex; `n + 1` entries
/// for an `n`-gon, the last delta closing the loop.
pub struct Polygon {
    pub vertices: Vec<Point>,
}

/// The absolute position of vertex `i`: the head plus the leading deltas.
pub open spec fn poly_vertex(vs: Seq<Point>, i: int) -> (int, int)
    decreases i,
{
    if i <= 0 {
        (vs[0].x as int, vs[0].y as int)
    } else {
        let p = poly_vertex(vs, i - 1);
        (p.0 + vs[i].x, p.1 + vs[i].y)
    }
}

/// The projection of vertex `i` on an axis.
pub open spec fn proj_at(vs: Seq<Point>, ax: (int, int), i: int) -> int {
    let v = poly_vertex(vs, i);
    ax.0 * v.0 + ax.1 * v.1
}

/// Minimum and maximum projection over vertices `0..=n`.
pub open spec fn spec_project_upto(vs: Seq<Point>, ax: (int, int), n: int) -> (int, int)
    decreases n,
{
    if n <= 0 {
        let p0 = proj_at(vs, ax, 0);
        (p0, p0)
    } else {
        let mm = spec_project_upto(vs, ax, n - 1);
        let p = proj_at(vs, ax, n);
        if p < mm.0 {
            (p, mm.1)
        } else if p > mm.1 {
            (mm.0, p)
        } else {
            mm
        }
    }
}

/// The projection interval of a delta-form polygon: its distinct vertices
/// are entries `0 ..= len - 2`, the final delta only closing the loop.
pub open spec fn spec_project(vs: Seq<Point>, ax: (int, int)) -> (int, int) {
    spec_project_upto(vs, ax, vs.len() - 2)
}

/// The left normal of an edge vector, as ghost coordinates.
pub open spec fn normal_spec(v: Point) -> (int, int) {
    (-(v.y as int), v.x as int)
}

/// The projections of the two polygons onto the axis are separated.
pub open spec fn proj_gap(ax: (int, int), vs1: Seq<Point>, vs2: Seq<Point>) -> bool {
    let m1 = spec_project(vs1, ax);
    let m2 = spec_project(vs2, ax);
    m1.0 >= m2.1 || m2.0 >= m1.1
}

/// The separating-axis outcome: the polygons count as intersecting exactly
/// when no edge normal of either polygon separates their projections.
pub open spec fn spec_sat(vs1: Seq<Point>, vs2: Seq<Point>) -> bool {
    &&& forall|i: int| 1 <= i < vs1.len() ==> !proj_gap(normal_spec(#[trigger] vs1[i]), vs1, vs2)
    &&& forall|i: int| 1 <= i < vs2.len() ==> !proj_gap(normal_spec(#[trigger] vs2[i]), vs1, vs2)
}

/// The absolute vertex `i` lies within the polygon vertex bound.
pub open spec fn vertex_ok(vs: Seq<Point>, i: int) -> bool {
    in_range(poly_vertex(vs, i).0, POLY_BOUND as int) && in_range(
        poly_vertex(vs, i).1,
        POLY_BOUND as int,
    )
}

/// Every delta and every absolute vertex of the polygon is in range.
pub open spec fn poly_ok(vs: Seq<Point>) -> bool {
    &&& 1 <= vs.len()
    &&& forall|i: int| 0 <= i < vs.len() ==> pt_in_range(#[trigger] vs[i], AXIS_BOUND as int)
    &&& forall|i: int| 0 <= i < vs.len() ==> #[trigger] vertex_ok(vs, i)
}

/// A rectangle's delta form is in range for the separating-axis routines.
pub proof fn lemma_rect_deltas_ok(r: Rect)
    requires
        r.wf(),
    ensures
        poly_ok(rect_deltas(r)),
{
    let vs = rect_deltas(r);
    assert(poly_vertex(vs, 0) == (r.x as int, r.y as int));
    assert(poly_vertex(vs, 1) == (r.x + r.width, r.y as int));
    assert(poly_vertex(vs, 2) == (r.x + r.width, r.y + r.height));
    assert(poly_vertex(vs, 3) == (r.x as int, r.y + r.height));
    assert(poly_vertex(vs, 4) == (r.x as int, r.y as int));
}

/// A well-formed triangle's delta form is in range for the separating-axis
/// routines.
pub proof fn lemma_tri_deltas_ok(t: Triangle)
    requires
        t.wf(),
    ensures
        poly_ok(tri_deltas(t)),
{
    let vs = tri_deltas(t);
    assert(poly_vertex(vs, 0) == (t.vertices[0].x as int, t.vertices[0].y as int));
    assert(poly_vertex(vs, 1) == (t.vertices[1].x as int, t.vertices[1].y as int));
    assert(poly_vertex(vs, 2) == (t.vertices[2].x as int, t.vertices[2].y as int));
    assert(poly_vertex(vs, 3) == (t.vertices[0].x as int, t.vertices[0].y as int));
}

impl Polygon {
    /// Projects the polygon onto an axis and returns the extent of the
    /// projection as `(min, max)`.
    pub fn project(&self, vector: Point) -> (r: (i64, i64))
        requires
            poly_ok(self.vertices@),
            pt_in_range(vector, AXIS_BOUND as int),
        ensures
            r.0 == spec_project(self.vertices@, (vector.x as int, vector.y as int)).0,
            r.1 == spec_project(self.vertices@, (vector.x as int, vector.y as int)).1,
            r.0 <= r.1,
    {
        let ghost vs = self.vertices@;
        let ghost ax = (vector.x as int, vector.y as int);
        let mut vertex: Point = self.vertices[0];
        proof {
            assert((vertex.x as int, vertex.y as int) == poly_vertex(vs, 0));
            assert(vertex_ok(vs, 0));
            lemma_abs_mul_le(vector.x as int, vertex.x as int, AXIS_BOUND as int, POLY_BOUND as int);
            lemma_abs_mul_le(vector.y as int, vertex.y as int, AXIS_BOUND as int, POLY_BOUND as int);
        }
        let mut min: i64 = vector.x * vertex.x + vector.y * vertex.y;
        let mut max: i64 = min;
        let mut i: usize = 1;
        while i < self.vertices.len() - 1
            invariant
                vs == self.vertices@,
                ax == (vector.x as int, vector.y as int),
                poly_ok(vs),
                pt_in_range(vector, AXIS_BOUND as int),
                1 <= i <= vs.len(),
                vs.len() >= 2 ==> i <= vs.len() - 1,
                (vertex.x as int, vertex.y as int) == poly_vertex(vs, i - 1),
                (min as int, max as int) == spec_project_upto(vs, ax, i - 1),
                min <= max,
            decreases vs.len() - i,
        {
            proof {
                assert(vertex_ok(vs, i - 1));
            }
            vertex = vertex.add(self.vertices[i]);
            proof {
                assert(vertex_ok(vs, i as int));
                assert((vertex.x as int, vertex.y as int) == poly_vertex(vs, i as int));
                lemma_abs_mul_le(
                    vector.x as int,
                    vertex.x as int,
                    AXIS_BOUND as int,
                    POLY_BOUND as int,
                );
                lemma_abs_mul_le(
                    vector.y as int,
                    vertex.y as int,
                    AXIS_BOUND as int,
                    POLY_BOUND as int,
                );
            }
            let projection: i64 = vector.x * vertex.x + vector.y * vertex.y;
            if projection < min {
                min = projection;
            } else if projection > max {
                max = projection;
            }
            i = i + 1;
        }
        (min, max)
    }

    /// True when the projections of the two polygons onto the left normal of
    /// `v` are separated.
    fn axis_gap(p1: &Polygon, p2: &Polygon, v: Point) -> (r: bool)
        requires
            poly_ok(p1.vertices@),
            poly_ok(p2.vertices@),
            pt_in_range(v, AXIS_BOUND as int),
        ensures
            r == proj_gap(normal_spec(v), p1.vertices@, p2.vertices@),
    {
        let normal = Point { x: -v.y, y: v.x };
        let m1 = p1.project(normal);
        let m2 = p2.project(normal);
        m1.0 >= m2.1 || m2.0 >= m1.1
    }

    /// Separating-axis test over two convex polygons in delta form: true
    /// exactly when no edge normal of either polygon shows a gap. Convexity
    /// and closure of the delta loop are the caller's precondition.
    pub fn sat(p1: &Polygon, p2: &Polygon) -> (r: bool)
        requires
            poly_ok(p1.vertices@),
            poly_ok(p2.vertices@),
        ensures
            r == spec_sat(p1.vertices@, p2.vertices@),
    {
        let ghost vs1 = p1.vertices@;
        let ghost vs2 = p2.vertices@;
        let mut i: usize = 1;
        while i < p1.vertices.len()
            invariant
                vs1 == p1.vertices@,
                vs2 == p2.vertices@,
                poly_ok(vs1),
                poly_ok(vs2),
                1 <= i <= vs1.len(),
                forall|k: int| 1 <= k < i ==> !proj_gap(normal_spec(#[trigger] vs1[k]), vs1, vs2),
            decreases vs1.len() - i,
        {
            if Polygon::axis_gap(p1, p2, p1.vertices[i]) {
                return false;
            }
            i = i + 1;
        }
        let mut j: usize = 1;
        while j < p2.vertices.len()
            invariant
                vs1 == p1.vertices@,
                vs2 == p2.vertices@,
                poly_ok(vs1),
                poly_ok(vs2),
                1 <= j <= vs2.len(),
                forall|k: int| 1 <= k < vs1.len() ==> !proj_gap(normal_spec(#[trigger] vs1[k]), vs1, vs2),
                forall|k: int| 1 <= k < j ==> !proj_gap(normal_spec(#[trigger] vs2[k]), vs1, vs2),
            decreases vs2.len() - j,
        {
            if Polygon::axis_gap(p1, p2, p2.vertices[j]) {
                return false;
            }
            j = j + 1;
        }
        true
    }
}

/// Projection gap between an unbounded sector and a polygon. The sector
/// `{apex + s*ra + t*rb, s >= 0, t >= 0}` projects onto the axis as a
/// half-line out of `apex`'s projection: its maximum is finite only when
/// neither ray projects upward, its minimum only when neither projects
/// downward. A gap needs the finite end of one interval past the other.
pub open spec fn wedge_gap(ax: (int, int), apex: Point, ra: Point, rb: Point, vs2: Seq<Point>)
    -> bool {
    let base = ax.0 * apex.x + ax.1 * apex.y;
    let da = ax.0 * ra.x + ax.1 * ra.y;
    let db = ax.0 * rb.x + ax.1 * rb.y;
    let m2 = spec_project(vs2, ax);
    ||| (da >= 0 && db >= 0 && base >= m2.1)
    ||| (da <= 0 && db <= 0 && m2.0 >= base)
}

/// Separating-axis outcome between an unbounded sector and a polygon: the
/// axes checked are the normals of the two rays and of the polygon's edges.
pub open spec fn wedge_rect_sat(apex: Point, ra: Point, rb: Point, vs2: Seq<Point>) -> bool {
    &&& !wedge_gap(normal_spec(ra), apex, ra, rb, vs2)
    &&& !wedge_gap(normal_spec(rb), apex, ra, rb, vs2)
    &&& forall|i: int| 1 <= i < vs2.len() ==> !wedge_gap(normal_spec(#[trigger] vs2[i]), apex, ra, rb, vs2)
}

/// Decides one axis of the sector test.
fn wedge_axis_gap(apex: Point, ra: Point, rb: Point, rect_poly: &Polygon, v: Point) -> (r: bool)
    requires
        pt_in_range(apex, POLY_BOUND as int),
        pt_in_range(ra, crate::geometry::RAY_BOUND as int),
        pt_in_range(rb, crate::geometry::RAY_BOUND as int),
        poly_ok(rect_poly.vertices@),
        pt_in_range(v, AXIS_BOUND as int),
    ensures
        r == wedge_gap(normal_spec(v), apex, ra, rb, rect_poly.vertices@),
{
    let normal = Point { x: -v.y, y: v.x };
    proof {
        lemma_abs_mul_le(normal.x as int, apex.x as int, AXIS_BOUND as int, POLY_BOUND as int);
        lemma_abs_mul_le(normal.y as int, apex.y as int, AXIS_BOUND as int, POLY_BOUND as int);
        lemma_abs_mul_le(normal.x as int, ra.x as int, AXIS_BOUND as int, POLY_BOUND as int);
        lemma_abs_mul_le(normal.y as int, ra.y as int, AXIS_BOUND as int, POLY_BOUND as int);
        lemma_abs_mul_le(normal.x as int, rb.x as int, AXIS_BOUND as int, POLY_BOUND as int);
        lemma_abs_mul_le(normal.y as int, rb.y as int, AXIS_BOUND as int, POLY_BOUND as int);
    }
    let base: i128 = (normal.x as i128) * (apex.x as i128) + (normal.y as i128) * (apex.y as i128);
    let da: i128 = (normal.x as i128) * (ra.x as i128) + (normal.y as i128) * (ra.y as i128);
    let db: i128 = (normal.x as i128) * (rb.x as i128) + (normal.y as i128) * (rb.y as i128);
    let m2 = rect_poly.project(normal);
    (da >= 0 && db >= 0 && base >= m2.1 as i128) || (da <= 0 && db <= 0 && m2.0 as i128 >= base)
}

/// Separating-axis test of an unbounded visibility sector against a
/// rectangle: the sector counts as intersecting exactly when no checked
/// axis shows a gap.
pub fn wedge_intersects_rect(apex: Point, ra: Point, rb: Point, rect: &Rect) -> (r: bool)
    requires
        pt_in_range(apex, POLY_BOUND as int),
        pt_in_range(ra, crate::geometry::RAY_BOUND as int),
        pt_in_range(rb, crate::geometry::RAY_BOUND as int),
        rect.wf(),
    ensures
        r == wedge_rect_sat(apex, ra, rb, rect_deltas(*rect)),
{
    let rect_poly = rect.to_polygon();
    proof {
        lemma_rect_deltas_ok(*rect);
    }
    let ghost vs2 = rect_poly.vertices@;
    if wedge_axis_gap(apex, ra, rb, &rect_poly, ra) {
        return false;
    }
    if wedge_axis_gap(apex, ra, rb, &rect_poly, rb) {
        return false;
    }
    let mut i: usize = 1;
    while i < rect_poly.vertices.len()
        invariant
            vs2 == rect_poly.vertices@,
            vs2 == rect_deltas(*rect),
            pt_in_range(apex, POLY_BOUND as int),
            pt_in_range(ra, crate::geometry::RAY_BOUND as int),
            pt_in_range(rb, crate::geometry::RAY_BOUND as int),
            poly_ok(vs2),
            1 <= i <= vs2.len(),
            !wedge_gap(normal_spec(ra), apex, ra, rb, vs2),
            !wedge_gap(normal_spec(rb), apex, ra, rb, vs2),
            forall|k: int| 1 <= k < i ==> !wedge_gap(normal_spec(#[trigger] vs2[k]), apex, ra, rb, vs2),
        decreases vs2.len() - i,
    {
        if wedge_axis_gap(apex, ra, rb, &rect_poly, rect_poly.vertices[i]) {
            return false;
        }
        i = i + 1;
    }
    true
}

/// Twice the signed area spanned by `a -> b` and `a -> p`: positive when
/// `p` lies counterclockwise of the edge from `a` to `b`.
pub open spec fn edge_side(a: Point, b: Point, p: Point) -> int {
    (b.x - a.x) * (p.y - a.y) - (b.y - a.y) * (p.x - a.x)
}

/// Twice the signed area of the triangle `(a, b, c)`.
pub open spec fn tri_area2(a: Point, b: Point, c: Point) -> int {
    edge_side(a, b, c)
}

/// `p` lies in the closed triangle `(a, b, c)`, the corners given
/// counterclockwise: on the inner side of each edge.
pub open spec fn point_in_triangle(p: Point, a: Point, b: Point, c: Point) -> bool {
    edge_side(a, b, p) >= 0 && edge_side(b, c, p) >= 0 && edge_side(c, a, p) >= 0
}

/// Corner `k` of a rectangle, in the winding the delta form uses.
pub open spec fn rect_corner(r: Rect, k: int) -> Point {
    if k == 0 {
        pt(r.x as int, r.y as int)
    } else if k == 1 {
        pt(r.x + r.width, r.y as int)
    } else if k == 2 {
        pt(r.x + r.width, r.y + r.height)
    } else {
        pt(r.x as int, r.y + r.height)
    }
}

/// The three edge-side values of a point against a triangle are barycentric
/// weights: they sum to twice the triangle's area, and weigh the corners
/// back to the point itself.
/// The three relative cross products sum to the relative area term.
proof fn lemma_cross_sum(x1: int, y1: int, x2: int, y2: int, x3: int, y3: int)
    by (nonlinear_arith)
    ensures
        (x2 * y3 - y2 * x3) + (x3 * y1 - y3 * x1) + (x1 * y2 - y1 * x2) == (x2 - x1) * (y3 - y1) - (
        y2 - y1) * (x3 - x1),
{
}

/// An edge-side value is the cross product of the two corners taken
/// relative to the tested point.
proof fn lemma_edge_side_relative(u: Point, w: Point, q: Point)
    by (nonlinear_arith)
    ensures
        edge_side(u, w, q) == (u.x - q.x) * (w.y - q.y) - (u.y - q.y) * (w.x - q.x),
{
}

/// Cyclic cross-product identity: the three relative cross products weigh
/// the relative x coordinates to zero.
#[verifier::rlimit(30)]
proof fn lemma_cross_cycle_x(x1: int, y1: int, x2: int, y2: int, x3: int, y3: int)
    by (nonlinear_arith)
    ensures
        (x2 * y3 - y2 * x3) * x1 + (x3 * y1 - y3 * x1) * x2 + (x1 * y2 - y1 * x2) * x3 == 0,
{
}

/// The same cyclic identity on the relative y coordinates.
#[verifier::rlimit(30)]
proof fn lemma_cross_cycle_y(x1: int, y1: int, x2: int, y2: int, x3: int, y3: int)
    by (nonlinear_arith)
    ensures
        (x2 * y3 - y2 * x3) * y1 + (x3 * y1 - y3 * x1) * y2 + (x1 * y2 - y1 * x2) * y3 == 0,
{
}

proof fn lemma_barycentric(a: Point, b: Point, c: Point, q: Point)
    ensures
        edge_side(b, c, q) + edge_side(c, a, q) + edge_side(a, b, q) == tri_area2(a, b, c),
        edge_side(b, c, q) * a.x + edge_side(c, a, q) * b.x + edge_side(a, b, q) * c.x
            == tri_area2(a, b, c) * q.x,
        edge_side(b, c, q) * a.y + edge_side(c, a, q) * b.y + edge_side(a, b, q) * c.y
            == tri_area2(a, b, c) * q.y,
{
    let al = edge_side(b, c, q);
    let be = edge_side(c, a, q);
    let ga = edge_side(a, b, q);
    let s = tri_area2(a, b, c);
    let x1 = a.x - q.x;
    let y1 = a.y - q.y;
    let x2 = b.x - q.x;
    let y2 = b.y - q.y;
    let x3 = c.x - q.x;
    let y3 = c.y - q.y;
    lemma_edge_side_relative(b, c, q);
    lemma_edge_side_relative(c, a, q);
    lemma_edge_side_relative(a, b, q);
    assert(al == x2 * y3 - y2 * x3);
    assert(be == x3 * y1 - y3 * x1);
    assert(ga == x1 * y2 - y1 * x2);
    lemma_cross_sum(x1, y1, x2, y2, x3, y3);
    assert(s == (x2 - x1) * (y3 - y1) - (y2 - y1) * (x3 - x1));
    assert(al + be + ga == s);
    lemma_cross_cycle_x(x1, y1, x2, y2, x3, y3);
    lemma_cross_cycle_y(x1, y1, x2, y2, x3, y3);
    assert(al * x1 + be * x2 + ga * x3 == 0);
    assert(al * y1 + be * y2 + ga * y3 == 0);
    assert(al * a.x == al * x1 + al * q.x) by (nonlinear_arith)
        requires
            x1 == a.x - q.x,
    ;
    assert(be * b.x == be * x2 + be * q.x) by (nonlinear_arith)
        requires
            x2 == b.x - q.x,
    ;
    assert(ga * c.x == ga * x3 + ga * q.x) by (nonlinear_arith)
        requires
            x3 == c.x - q.x,
    ;
    assert(al * q.x + be * q.x + ga * q.x == s * q.x) by (nonlinear_arith)
        requires
            al + be + ga == s,
    ;
    assert(al * a.y == al * y1 + al * q.y) by (nonlinear_arith)
        requires
            y1 == a.y - q.y,
    ;
    assert(be * b.y == be * y2 + be * q.y) by (nonlinear_arith)
        requires
            y2 == b.y - q.y,
    ;
    assert(ga * c.y == ga * y3 + ga * q.y) by (nonlinear_arith)
        requires
            y3 == c.y - q.y,
    ;
    assert(al * q.y + be * q.y + ga * q.y == s * q.y) by (nonlinear_arith)
        requires
            al + be + ga == s,
    ;
}

/// Weighing the corner projections back to the point's projection: the
/// barycentric combination carries over to any axis.
proof fn lemma_barycentric_proj(a: Point, b: Point, c: Point, q: Point, u: int, v: int)
    ensures
        edge_side(b, c, q) * (u * a.x + v * a.y) + edge_side(c, a, q) * (u * b.x + v * b.y)
            + edge_side(a, b, q) * (u * c.x + v * c.y) == tri_area2(a, b, c) * (u * q.x + v * q.y),
{
    lemma_barycentric(a, b, c, q);
    let al = edge_side(b, c, q);
    let be = edge_side(c, a, q);
    let ga = edge_side(a, b, q);
    let s = tri_area2(a, b, c);
    let ex = al * a.x + be * b.x + ga * c.x;
    let ey = al * a.y + be * b.y + ga * c.y;
    assert(u * ex == u * (s * q.x));
    assert(v * ey == v * (s * q.y));
    assert(u * ex == al * (u * a.x) + be * (u * b.x) + ga * (u * c.x)) by (nonlinear_arith)
        requires
            ex == al * a.x + be * b.x + ga * c.x,
    ;
    assert(v * ey == al * (v * a.y) + be * (v * b.y) + ga * (v * c.y)) by (nonlinear_arith)
        requires
            ey == al * a.y + be * b.y + ga * c.y,
    ;
    assert(u * (s * q.x) == s * (u * q.x)) by (nonlinear_arith);
    assert(v * (s * q.y) == s * (v * q.y)) by (nonlinear_arith);
    assert(al * (u * a.x + v * a.y) == al * (u * a.x) + al * (v * a.y)) by (nonlinear_arith);
    assert(be * (u * b.x + v * b.y) == be * (u * b.x) + be * (v * b.y)) by (nonlinear_arith);
    assert(ga * (u * c.x + v * c.y) == ga * (u * c.x) + ga * (v * c.y)) by (nonlinear_arith);
    assert(s * (u * q.x + v * q.y) == s * (u * q.x) + s * (v * q.y)) by (nonlinear_arith);
}

/// A weighted average with nonnegative weights stays between the least and
/// the greatest of the averaged values.
proof fn lemma_weighted_average(al: int, be: int, ga: int, pa: int, pb: int, pc: int, pq: int, s: int)
    by (nonlinear_arith)
    requires
        al >= 0,
        be >= 0,
        ga >= 0,
        al + be + ga == s,
        s > 0,
        al * pa + be * pb + ga * pc == s * pq,
    ensures
        pq >= pa || pq >= pb || pq >= pc,
        pq <= pa || pq <= pb || pq <= pc,
{
}

/// The projection of a point in the triangle lies between the projections
/// of the triangle's corners, on every axis.
proof fn lemma_proj_in_triangle(a: Point, b: Point, c: Point, q: Point, u: int, v: int)
    requires
        tri_area2(a, b, c) > 0,
        point_in_triangle(q, a, b, c),
    ensures
        u * q.x + v * q.y >= u * a.x + v * a.y || u * q.x + v * q.y >= u * b.x + v * b.y || u * q.x
            + v * q.y >= u * c.x + v * c.y,
        u * q.x + v * q.y <= u * a.x + v * a.y || u * q.x + v * q.y <= u * b.x + v * b.y || u * q.x
            + v * q.y <= u * c.x + v * c.y,
{
    lemma_barycentric(a, b, c, q);
    lemma_barycentric_proj(a, b, c, q, u, v);
    lemma_weighted_average(
        edge_side(b, c, q),
        edge_side(c, a, q),
        edge_side(a, b, q),
        u * a.x + v * a.y,
        u * b.x + v * b.y,
        u * c.x + v * c.y,
        u * q.x + v * q.y,
        tri_area2(a, b, c),
    );
}

/// The projection interval of a triangle's delta form is the least and
/// greatest of its three corner projections.
proof fn lemma_tri_project(a: Point, b: Point, c: Point, u: int, v: int)
    requires
        pt_in_range(a, VERT_BOUND as int),
        pt_in_range(b, VERT_BOUND as int),
        pt_in_range(c, VERT_BOUND as int),
    ensures
        ({
            let m = spec_project(corner_deltas(a, b, c), (u, v));
            &&& m.0 <= u * a.x + v * a.y
            &&& m.0 <= u * b.x + v * b.y
            &&& m.0 <= u * c.x + v * c.y
            &&& m.1 >= u * a.x + v * a.y
            &&& m.1 >= u * b.x + v * b.y
            &&& m.1 >= u * c.x + v * c.y
            &&& (m.0 == u * a.x + v * a.y || m.0 == u * b.x + v * b.y || m.0 == u * c.x + v * c.y)
            &&& (m.1 == u * a.x + v * a.y || m.1 == u * b.x + v * b.y || m.1 == u * c.x + v * c.y)
        }),
{
    let vs = corner_deltas(a, b, c);
    let ax = (u, v);
    assert(poly_vertex(vs, 0) == (a.x as int, a.y as int));
    assert(poly_vertex(vs, 1) == (b.x as int, b.y as int));
    assert(poly_vertex(vs, 2) == (c.x as int, c.y as int));
    let l0 = spec_project_upto(vs, ax, 0);
    let l1 = spec_project_upto(vs, ax, 1);
    let l2 = spec_project_upto(vs, ax, 2);
    assert(l0 == (proj_at(vs, ax, 0), proj_at(vs, ax, 0)));
    assert(l1.0 == if proj_at(vs, ax, 1) < l0.0 { proj_at(vs, ax, 1) } else { l0.0 });
    assert(l2.0 == if proj_at(vs, ax, 2) < l1.0 { proj_at(vs, ax, 2) } else { l1.0 });
    assert(spec_project(vs, ax) == l2);
}

/// The projection interval of a rectangle's delta form is the least and
/// greatest of its four corner projections.
proof fn lemma_rect_project(r: Rect, u: int, v: int)
    requires
        r.wf(),
    ensures
        ({
            let m = spec_project(rect_deltas(r), (u, v));
            &&& forall|k: int|
                0 <= k < 4 ==> m.0 <= u * (#[trigger] rect_corner(r, k)).x + v * rect_corner(
                    r,
                    k,
                ).y && m.1 >= u * rect_corner(r, k).x + v * rect_corner(r, k).y
            &&& exists|k: int|
                0 <= k < 4 && m.0 == u * (#[trigger] rect_corner(r, k)).x + v * rect_corner(
                    r,
                    k,
                ).y
            &&& exists|k: int|
                0 <= k < 4 && m.1 == u * (#[trigger] rect_corner(r, k)).x + v * rect_corner(
                    r,
                    k,
                ).y
        }),
{
    let vs = rect_deltas(r);
    let ax = (u, v);
    assert(poly_vertex(vs, 0) == (r.x as int, r.y as int));
    assert(poly_vertex(vs, 1) == (r.x + r.width, r.y as int));
    assert(poly_vertex(vs, 2) == (r.x + r.width, r.y + r.height));
    assert(poly_vertex(vs, 3) == (r.x as int, r.y + r.height));
    assert(rect_corner(r, 0).x == r.x && rect_corner(r, 0).y == r.y);
    assert(rect_corner(r, 1).x == r.x + r.width && rect_corner(r, 1).y == r.y);
    assert(rect_corner(r, 2).x == r.x + r.width && rect_corner(r, 2).y == r.y + r.height);
    assert(rect_corner(r, 3).x == r.x && rect_corner(r, 3).y == r.y + r.height);
    let l0 = spec_project_upto(vs, ax, 0);
    let l1 = spec_project_upto(vs, ax, 1);
    let l2 = spec_project_upto(vs, ax, 2);
    let l3 = spec_project_upto(vs, ax, 3);
    assert(l0 == (proj_at(vs, ax, 0), proj_at(vs, ax, 0)));
    assert(l1.0 == if proj_at(vs, ax, 1) < l0.0 { proj_at(vs, ax, 1) } else { l0.0 });
    assert(l2.0 == if proj_at(vs, ax, 2) < l1.0 { proj_at(vs, ax, 2) } else { l1.0 });
    assert(l3.0 == if proj_at(vs, ax, 3) < l2.0 { proj_at(vs, ax, 3) } else { l2.0 });
    assert(spec_project(vs, ax) == l3);
}

/// No axis separates a rectangle from a triangle that encloses all four of
/// its corners.
proof fn lemma_enclosed_no_gap(a: Point, b: Point, c: Point, r: Rect, u: int, v: int)
    requires
        pt_in_range(a, VERT_BOUND as int),
        pt_in_range(b, VERT_BOUND as int),
        pt_in_range(c, VERT_BOUND as int),
        r.wf(),
        tri_area2(a, b, c) > 0,
        forall|k: int| 0 <= k < 4 ==> point_in_triangle(#[trigger] rect_corner(r, k), a, b, c),
        !(u == 0 && v == 0),
    ensures
        !proj_gap((u, v), corner_deltas(a, b, c), rect_deltas(r)),
{
    lemma_tri_project(a, b, c, u, v);
    lemma_rect_project(r, u, v);
    let mt = spec_project(corner_deltas(a, b, c), (u, v));
    let mr = spec_project(rect_deltas(r), (u, v));
    assert forall|k: int| 0 <= k < 4 implies mt.0 <= u * (#[trigger] rect_corner(r, k)).x + v
        * rect_corner(r, k).y <= mt.1 by {
        lemma_proj_in_triangle(a, b, c, rect_corner(r, k), u, v);
    }
    // The rectangle's projection has positive width on every nonzero axis:
    // adjacent corners differ by `u * width` or `v * height`.
    let p0 = u * rect_corner(r, 0).x + v * rect_corner(r, 0).y;
    let p1 = u * rect_corner(r, 1).x + v * rect_corner(r, 1).y;
    let p3 = u * rect_corner(r, 3).x + v * rect_corner(r, 3).y;
    assert(p1 - p0 == u * r.width) by (nonlinear_arith)
        requires
            p0 == u * (r.x as int) + v * (r.y as int),
            p1 == u * (r.x + r.width) + v * (r.y as int),
    ;
    assert(p3 - p0 == v * r.height) by (nonlinear_arith)
        requires
            p0 == u * (r.x as int) + v * (r.y as int),
            p3 == u * (r.x as int) + v * (r.y + r.height),
    ;
    if u != 0 {
        assert(u * r.width != 0) by (nonlinear_arith)
            requires
                u != 0,
                r.width > 0,
        ;
        assert(p1 != p0);
    } else {
        assert(v * r.height != 0) by (nonlinear_arith)
            requires
                v != 0,
                r.height > 0,
        ;
        assert(p3 != p0);
    }
    if mt.0 >= mr.1 {
        assert(mr.1 >= p0 && mr.1 >= p1 && mr.1 >= p3);
        assert(p0 == mt.0 && p1 == mt.0 && p3 == mt.0);
        assert(false);
    }
    if mr.0 >= mt.1 {
        assert(mr.0 <= p0 && mr.0 <= p1 && mr.0 <= p3);
        assert(p0 == mt.1 && p1 == mt.1 && p3 == mt.1);
        assert(false);
    }
}

/// A rectangle whose four corners all lie inside a positively oriented
/// triangle passes the separating-axis test against it: full enclosure is
/// intersection. Together with the detector's contract, a suspicious
/// rectangle fully enclosed by one bounded fan sector latches the observer's
/// code in a single detection pass.
pub proof fn lemma_enclosed_rect_intersects(a: Point, b: Point, c: Point, r: Rect)
    requires
        pt_in_range(a, VERT_BOUND as int),
        pt_in_range(b, VERT_BOUND as int),
        pt_in_range(c, VERT_BOUND as int),
        r.wf(),
        tri_area2(a, b, c) > 0,
        point_in_triangle(rect_corner(r, 0), a, b, c),
        point_in_triangle(rect_corner(r, 1), a, b, c),
        point_in_triangle(rect_corner(r, 2), a, b, c),
        point_in_triangle(rect_corner(r, 3), a, b, c),
    ensures
        spec_sat(corner_deltas(a, b, c), rect_deltas(r)),
{
    let vs1 = corner_deltas(a, b, c);
    let vs2 = rect_deltas(r);
    assert(b.x - a.x != 0 || b.y - a.y != 0) by (nonlinear_arith)
        requires
            (b.x - a.x) * (c.y - a.y) - (b.y - a.y) * (c.x - a.x) > 0,
    ;
    assert(c.x - b.x != 0 || c.y - b.y != 0) by (nonlinear_arith)
        requires
            (b.x - a.x) * (c.y - a.y) - (b.y - a.y) * (c.x - a.x) > 0,
    ;
    assert(a.x - c.x != 0 || a.y - c.y != 0) by (nonlinear_arith)
        requires
            (b.x - a.x) * (c.y - a.y) - (b.y - a.y) * (c.x - a.x) > 0,
    ;
    assert forall|i: int| 1 <= i < vs1.len() implies !proj_gap(
        normal_spec(#[trigger] vs1[i]),
        vs1,
        vs2,
    ) by {
        if i == 1 {
            lemma_enclosed_no_gap(a, b, c, r, -(b.y - a.y), b.x - a.x);
        } else if i == 2 {
            lemma_enclosed_no_gap(a, b, c, r, -(c.y - b.y), c.x - b.x);
        } else {
            lemma_enclosed_no_gap(a, b, c, r, -(a.y - c.y), a.x - c.x);
        }
    }
    assert forall|i: int| 1 <= i < vs2.len() implies !proj_gap(
        normal_spec(#[trigger] vs2[i]),
        vs1,
        vs2,
    ) by {
        if i == 1 {
            lemma_enclosed_no_gap(a, b, c, r, 0, r.width as int);
        } else if i == 2 {
            lemma_enclosed_no_gap(a, b, c, r, -(r.height as int), 0);
        } else if i == 3 {
            lemma_enclosed_no_gap(a, b, c, r, 0, -(r.width as int));
        } else {
            lemma_enclosed_no_gap(a, b, c, r, r.height as int, 0);
        }
    }
}

/// The separating-axis outcome does not depend on the order of its two
/// arguments: `spec_sat(a, b) == spec_sat(b, a)`.
pub proof fn lemma_sat_symmetric(vs1: Seq<Point>, vs2: Seq<Point>)
    ensures
        spec_sat(vs1, vs2) == spec_sat(vs2, vs1),
{
    assert(forall|ax: (int, int)| proj_gap(ax, vs1, vs2) == proj_gap(ax, vs2, vs1));
}

} // verus!
