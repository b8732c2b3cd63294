//! Geometric primitives: points, segments, the arc-membership test and the
//! segment/ray intersection, all over fixed-point integer coordinates.

use vstd::prelude::*;

verus! {

/// Raw coordinate units per world unit. A coordinate `x: i64` stands for the
/// world value `x / SCALE`.
pub const SCALE: i64 = 10;

/// Numeric tolerance, as the exact rational `TOL_NUM / TOL_DEN` in world
/// units: comparisons against it are carried out on cross-multiplied
/// integers, never on rounded values.
pub const TOL_NUM: i64 = 1;

/// Denominator of the numeric tolerance.
pub const TOL_DEN: i64 = 10000;

/// Largest admissible magnitude of a position coordinate.
pub const MAX_COORD: i64 = 500_000;

/// Largest admissible magnitude of a ray or wedge-direction coordinate.
/// A ray between two in-bounds positions always satisfies it.
pub const RAY_BOUND: i64 = 1_000_000;

pub open spec fn in_range(v: int, bound: int) -> bool {
    -bound <= v <= bound
}

/// A position or direction in the plane, in raw fixed-point units.
#[derive(Clone, Copy, Debug, PartialEq, Eq, Structural)]
pub struct Point {
    pub x: i64,
    pub y: i64,
}

pub open spec fn pt_in_range(p: Point, bound: int) -> bool {
    in_range(p.x as int, bound) && in_range(p.y as int, bound)
}

/// Cross product `a.x * b.y - a.y * b.x`: positive when `b` lies
/// counterclockwise of `a`.
pub open spec fn cross(a: Point, b: Point) -> int {
    a.x * b.y - a.y * b.x
}

/// Dot product of two vectors.
pub open spec fn dot_val(a: Point, b: Point) -> int {
    a.x * b.x + a.y * b.y
}

/// `|a * b| <= aa * bb` whenever `|a| <= aa` and `|b| <= bb`.
pub proof fn lemma_abs_mul_le(a: int, b: int, aa: int, bb: int)
    by (nonlinear_arith)
    requires
        -aa <= a <= aa,
        -bb <= b <= bb,
    ensures
        -(aa * bb) <= a * b <= aa * bb,
{
}

/// A ray `r` lies in the wedge swept counterclockwise from `lower` to
/// `upper` exactly when both half-plane components stay within tolerance:
/// `r.y*upper.x - r.x*upper.y <= tol` and `r.x*lower.y - r.y*lower.x <= tol`.
/// The test is meaningful only when the wedge interior angle is below pi.
pub open spec fn ray_in_wedge(r: Point, lower: Point, upper: Point) -> bool {
    &&& TOL_DEN * (r.y * upper.x - r.x * upper.y) <= TOL_NUM * SCALE * SCALE
    &&& TOL_DEN * (r.x * lower.y - r.y * lower.x) <= TOL_NUM * SCALE * SCALE
}

impl Point {
    /// Vector sum.
    pub fn add(self, other: Point) -> (r: Point)
        requires
            in_range(self.x + other.x, i64::MAX as int),
            in_range(self.y + other.y, i64::MAX as int),
        ensures
            r.x == self.x + other.x,
            r.y == self.y + other.y,
    {
        Point { x: self.x + other.x, y: self.y + other.y }
    }

    /// Vector difference.
    pub fn sub(self, other: Point) -> (r: Point)
        requires
            in_range(self.x - other.x, i64::MAX as int),
            in_range(self.y - other.y, i64::MAX as int),
        ensures
            r.x == self.x - other.x,
            r.y == self.y - other.y,
    {
        Point { x: self.x - other.x, y: self.y - other.y }
    }

    /// Dot product with another vector.
    pub fn dot(&self, other: Point) -> (r: i64)
        requires
            pt_in_range(*self, RAY_BOUND as int),
            pt_in_range(other, RAY_BOUND as int),
        ensures
            r == dot_val(*self, other),
    {
        proof {
            lemma_abs_mul_le(self.x as int, other.x as int, RAY_BOUND as int, RAY_BOUND as int);
            lemma_abs_mul_le(self.y as int, other.y as int, RAY_BOUND as int, RAY_BOUND as int);
        }
        self.x * other.x + self.y * other.y
    }

    /// Uniform scaling by an integer factor.
    pub fn scale(&self, s: i64) -> (r: Point)
        requires
            pt_in_range(*self, RAY_BOUND as int),
            in_range(s as int, MAX_COORD as int),
        ensures
            r.x == self.x * s,
            r.y == self.y * s,
    {
        proof {
            lemma_abs_mul_le(self.x as int, s as int, RAY_BOUND as int, MAX_COORD as int);
            lemma_abs_mul_le(self.y as int, s as int, RAY_BOUND as int, MAX_COORD as int);
        }
        Point { x: self.x * s, y: self.y * s }
    }

    /// Two-sided half-plane arc-membership test: true exactly when the ray
    /// lies between `lower` and `upper`, within tolerance. Correct only
    /// under the wedge precondition (interior angle below pi), which the
    /// caller is assumed to maintain.
    pub fn ray_between(&self, lower: &Point, upper: &Point) -> (r: bool)
        requires
            pt_in_range(*self, RAY_BOUND as int),
            pt_in_range(*lower, RAY_BOUND as int),
            pt_in_range(*upper, RAY_BOUND as int),
        ensures
            r == ray_in_wedge(*self, *lower, *upper),
    {
        proof {
            lemma_abs_mul_le(self.y as int, upper.x as int, RAY_BOUND as int, RAY_BOUND as int);
            lemma_abs_mul_le(self.x as int, upper.y as int, RAY_BOUND as int, RAY_BOUND as int);
            lemma_abs_mul_le(self.x as int, lower.y as int, RAY_BOUND as int, RAY_BOUND as int);
            lemma_abs_mul_le(self.y as int, lower.x as int, RAY_BOUND as int, RAY_BOUND as int);
        }
        let upper_component: i128 = (self.y as i128) * (upper.x as i128)
            - (self.x as i128) * (upper.y as i128);
        proof {
            lemma_abs_mul_le(
                TOL_DEN as int,
                upper_component as int,
                TOL_DEN as int,
                2 * RAY_BOUND * RAY_BOUND,
            );
        }
        if (TOL_DEN as i128) * upper_component > 100i128 {
            return false;
        }
        let lower_component: i128 = (self.x as i128) * (lower.y as i128)
            - (self.y as i128) * (lower.x as i128);
        proof {
            lemma_abs_mul_le(
                TOL_DEN as int,
                lower_component as int,
                TOL_DEN as int,
                2 * RAY_BOUND * RAY_BOUND,
            );
            assert(100 == TOL_NUM * SCALE * SCALE);
        }
        if (TOL_DEN as i128) * lower_component > 100i128 {
            return false;
        }
        true
    }
}

/// An exact rational scalar with positive denominator: the parameter along a
/// ray at which a segment is struck. Kept exact so that distance comparisons
/// never round.
#[derive(Clone, Copy, Debug, PartialEq, Eq, Structural)]
pub struct Ratio {
    pub num: i64,
    pub den: i64,
}

/// The product of two `i64` values always fits in an `i128`.
pub proof fn lemma_i64_prod_fits(a: int, b: int)
    requires
        i64::MIN <= a <= i64::MAX,
        i64::MIN <= b <= i64::MAX,
    ensures
        i128::MIN <= a * b <= i128::MAX,
{
    lemma_abs_mul_le(a, b, 0x8000_0000_0000_0000, 0x8000_0000_0000_0000);
}

/// `a <= b` as rational values, for positive denominators.
pub open spec fn ratio_le(a: Ratio, b: Ratio) -> bool {
    a.num * b.den <= b.num * a.den
}

/// `a < b` as rational values, for positive denominators.
pub open spec fn ratio_lt(a: Ratio, b: Ratio) -> bool {
    a.num * b.den < b.num * a.den
}

impl Ratio {
    pub open spec fn wf(self) -> bool {
        self.den > 0
    }

    pub fn new(num: i64, den: i64) -> (r: Ratio)
        requires
            den > 0,
        ensures
            r.num == num,
            r.den == den,
            r.wf(),
    {
        Ratio { num, den }
    }

    /// Strict value comparison by cross-multiplication.
    pub fn lt(&self, other: &Ratio) -> (r: bool)
        requires
            self.wf(),
            other.wf(),
        ensures
            r == ratio_lt(*self, *other),
    {
        proof {
            lemma_i64_prod_fits(self.num as int, other.den as int);
            lemma_i64_prod_fits(other.num as int, self.den as int);
        }
        (self.num as i128) * (other.den as i128) < (other.num as i128) * (self.den as i128)
    }

    /// Value equality by cross-multiplication: `num/den == other.num/other.den`.
    pub fn value_eq(&self, other: &Ratio) -> (r: bool)
        requires
            self.wf(),
            other.wf(),
        ensures
            r == (self.num * other.den == other.num * self.den),
    {
        proof {
            lemma_i64_prod_fits(self.num as int, other.den as int);
            lemma_i64_prod_fits(other.num as int, self.den as int);
        }
        (self.num as i128) * (other.den as i128) == (other.num as i128) * (self.den as i128)
    }
}

/// A wall segment between two distinct points.
#[derive(Clone, Copy, Debug, PartialEq, Eq, Structural)]
pub struct Segment {
    pub start: Point,
    pub end: Point,
}

/// Denominator of the ray/segment linear system: zero exactly when the ray
/// and the segment are parallel.
pub open spec fn rc_den(seg: Segment, ray: Point) -> int {
    (seg.end.y - seg.start.y) * ray.x - (seg.end.x - seg.start.x) * ray.y
}

/// Numerator of the segment parameter `s` (the solution is `s = rc_snum / rc_den`).
pub open spec fn rc_snum(seg: Segment, location: Point, ray: Point) -> int {
    location.y * ray.x + seg.start.x * ray.y - location.x * ray.y - seg.start.y * ray.x
}

/// Numerator of the ray parameter `t` (the solution is `t = rc_tnum / rc_den`).
pub open spec fn rc_tnum(seg: Segment, location: Point, ray: Point) -> int {
    (seg.start.x - location.x) * (seg.end.y - seg.start.y)
        - (seg.start.y - location.y) * (seg.end.x - seg.start.x)
}

/// The ray and segment count as parallel when the denominator is within
/// tolerance of zero.
pub open spec fn abs_i(v: int) -> int {
    if v < 0 {
        -v
    } else {
        v
    }
}

pub open spec fn rc_parallel(seg: Segment, ray: Point) -> bool {
    TOL_DEN * abs_i(rc_den(seg, ray)) < TOL_NUM * SCALE * SCALE
}

/// Denominator of the returned ray parameter, normalized positive.
pub open spec fn rc_t_den(seg: Segment, ray: Point) -> int {
    abs_i(rc_den(seg, ray))
}

/// Numerator of the returned ray parameter, sign-adjusted to the normalized
/// denominator.
pub open spec fn rc_t_num(seg: Segment, location: Point, ray: Point) -> int {
    if rc_den(seg, ray) >= 0 {
        rc_tnum(seg, location, ray)
    } else {
        -rc_tnum(seg, location, ray)
    }
}

/// Sign-adjusted numerator of the segment parameter.
pub open spec fn rc_s_num(seg: Segment, location: Point, ray: Point) -> int {
    if rc_den(seg, ray) >= 0 {
        rc_snum(seg, location, ray)
    } else {
        -rc_snum(seg, location, ray)
    }
}

/// The ray strikes the segment: not parallel, the segment parameter lies in
/// `[0, 1]` within tolerance, and the ray parameter is nonnegative within
/// tolerance.
pub open spec fn rc_hit(seg: Segment, location: Point, ray: Point) -> bool {
    &&& !rc_parallel(seg, ray)
    &&& TOL_DEN * rc_s_num(seg, location, ray) >= -TOL_NUM * rc_t_den(seg, ray)
    &&& TOL_DEN * rc_s_num(seg, location, ray) <= (TOL_DEN + TOL_NUM) * rc_t_den(seg, ray)
    &&& TOL_DEN * rc_t_num(seg, location, ray) >= -TOL_NUM * rc_t_den(seg, ray)
}

impl Segment {
    /// A segment is well-formed when its endpoints differ.
    pub open spec fn wf(self) -> bool {
        self.start != self.end
    }

    /// Both endpoints lie within the position bound.
    pub open spec fn in_bounds(self) -> bool {
        pt_in_range(self.start, MAX_COORD as int) && pt_in_range(self.end, MAX_COORD as int)
    }

    /// Constructs a segment; a coincident start and end is a malformed-input
    /// error reported to the caller, never a panic.
    pub fn new(start: Point, end: Point) -> (r: Option<Segment>)
        ensures
            r is Some <==> start != end,
            r matches Some(s) ==> s.start == start && s.end == end && s.wf(),
    {
        if start.x == end.x && start.y == end.y {
            assert(start == end);
            None
        } else {
            Some(Segment { start, end })
        }
    }

    /// Casts `ray` from `location` against this segment, solving the 2x2
    /// linear system exactly. Returns the ray parameter of the intersection
    /// as an exact rational, or `None` when the ray and segment are parallel,
    /// the crossing falls outside the segment, or it lies behind the origin —
    /// each decided against the fixed tolerance.
    pub fn raycast(&self, location: Point, ray: Point) -> (r: Option<Ratio>)
        requires
            self.wf(),
            self.in_bounds(),
            pt_in_range(location, MAX_COORD as int),
            pt_in_range(ray, RAY_BOUND as int),
            !(ray.x == 0 && ray.y == 0),
        ensures
            r is Some <==> rc_hit(*self, location, ray),
            r matches Some(t) ==> t.wf() && t.num == rc_t_num(*self, location, ray) && t.den
                == rc_t_den(*self, ray),
    {
        let rise: i64 = self.end.y - self.start.y;
        let run: i64 = self.end.x - self.start.x;
        proof {
            lemma_abs_mul_le(rise as int, ray.x as int, RAY_BOUND as int, RAY_BOUND as int);
            lemma_abs_mul_le(run as int, ray.y as int, RAY_BOUND as int, RAY_BOUND as int);
        }
        let den: i128 = (rise as i128) * (ray.x as i128) - (run as i128) * (ray.y as i128);
        let dabs: i128 = if den < 0 {
            -den
        } else {
            den
        };
        proof {
            lemma_abs_mul_le(TOL_DEN as int, dabs as int, TOL_DEN as int, 2 * RAY_BOUND * RAY_BOUND);
        }
        if (TOL_DEN as i128) * dabs < 100i128 {
            proof {
                assert(100 == TOL_NUM * SCALE * SCALE);
            }
            return None;
        }
        proof {
            lemma_abs_mul_le(location.y as int, ray.x as int, MAX_COORD as int, RAY_BOUND as int);
            lemma_abs_mul_le(self.start.x as int, ray.y as int, MAX_COORD as int, RAY_BOUND as int);
            lemma_abs_mul_le(location.x as int, ray.y as int, MAX_COORD as int, RAY_BOUND as int);
            lemma_abs_mul_le(self.start.y as int, ray.x as int, MAX_COORD as int, RAY_BOUND as int);
        }
        let snum: i128 = (location.y as i128) * (ray.x as i128) + (self.start.x as i128) * (ray.y
            as i128) - (location.x as i128) * (ray.y as i128) - (self.start.y as i128) * (ray.x
            as i128);
        let d_pos: i128 = dabs;
        let sn: i128 = if den >= 0 {
            snum
        } else {
            -snum
        };
        proof {
            lemma_abs_mul_le(TOL_DEN as int, sn as int, TOL_DEN as int, 4 * RAY_BOUND * RAY_BOUND);
            lemma_abs_mul_le(TOL_NUM as int, d_pos as int, TOL_NUM as int, 2 * RAY_BOUND * RAY_BOUND);
            lemma_abs_mul_le(
                (TOL_DEN + TOL_NUM) as int,
                d_pos as int,
                (TOL_DEN + TOL_NUM) as int,
                2 * RAY_BOUND * RAY_BOUND,
            );
        }
        if (TOL_DEN as i128) * sn < -(TOL_NUM as i128) * d_pos {
            return None;
        }
        if (TOL_DEN as i128) * sn > ((TOL_DEN + TOL_NUM) as i128) * d_pos {
            return None;
        }
        proof {
            lemma_abs_mul_le(
                (self.start.x - location.x) as int,
                rise as int,
                RAY_BOUND as int,
                RAY_BOUND as int,
            );
            lemma_abs_mul_le(
                (self.start.y - location.y) as int,
                run as int,
                RAY_BOUND as int,
                RAY_BOUND as int,
            );
        }
        let tnum: i128 = ((self.start.x - location.x) as i128) * (rise as i128) - ((self.start.y
            - location.y) as i128) * (run as i128);
        let tn: i128 = if den >= 0 {
            tnum
        } else {
            -tnum
        };
        proof {
            lemma_abs_mul_le(TOL_DEN as int, tn as int, TOL_DEN as int, 4 * RAY_BOUND * RAY_BOUND);
        }
        if (TOL_DEN as i128) * tn < -(TOL_NUM as i128) * d_pos {
            return None;
        }
        Some(Ratio { num: tn as i64, den: d_pos as i64 })
    }
}

} // verus!
