//! The non-trigonometric angle order on rays, and the angular sort used to
//! arrange candidate rays from a wedge's lower bound to its upper bound.

use vstd::prelude::*;

verus! {

use crate::geometry::{Point, pt_in_range, dot_val, cross, abs_i, RAY_BOUND, lemma_abs_mul_le};

broadcast use vstd::seq_lib::group_to_multiset_ensures;

/// Squared Euclidean length of a vector.
pub open spec fn norm2(v: Point) -> int {
    v.x * v.x + v.y * v.y
}

/// Signed square of the projection of `v` on `from`:
/// `sign(v . from) * (v . from)^2`.
pub open spec fn key_num(from: Point, v: Point) -> int {
    dot_val(from, v) * abs_i(dot_val(from, v))
}

/// The algebraic angle order: `a` is angularly no farther from `from` than
/// `b`. It compares normalized projections on `from` without square roots:
/// `a` comes first when `sign(a.from)*(a.from)^2*|b|^2 >= sign(b.from)*(b.from)^2*|a|^2`.
/// This reproduces the angular order for rays within half a turn of `from`.
pub open spec fn angle_le(from: Point, a: Point, b: Point) -> bool {
    key_num(from, a) * norm2(b) >= key_num(from, b) * norm2(a)
}

/// The sequence is ordered from `from` outward under the algebraic angle
/// order.
pub open spec fn sorted_from(from: Point, s: Seq<Point>) -> bool {
    forall|i: int, j: int| 0 <= i < j < s.len() ==> angle_le(from, s[i], s[j])
}

/// Every entry is a nonzero vector within the ray coordinate bound.
pub open spec fn all_rays_ok(s: Seq<Point>) -> bool {
    forall|i: int|
        0 <= i < s.len() ==> pt_in_range(#[trigger] s[i], RAY_BOUND as int) && !(s[i].x == 0
            && s[i].y == 0)
}

/// A nonzero vector has positive squared length.
pub proof fn lemma_norm2_pos(v: Point)
    by (nonlinear_arith)
    requires
        !(v.x == 0 && v.y == 0),
    ensures
        norm2(v) > 0,
{
}

/// Transitivity of comparing fractions `a1/n1 >= a2/n2 >= a3/n3` by
/// cross-multiplication, with positive middle denominator.
proof fn lemma_key_trans(a1: int, n1: int, a2: int, n2: int, a3: int, n3: int)
    by (nonlinear_arith)
    requires
        n1 >= 0,
        n2 > 0,
        n3 >= 0,
        a1 * n2 >= a2 * n1,
        a2 * n3 >= a3 * n2,
    ensures
        a1 * n3 >= a3 * n1,
{
}

/// The algebraic angle order is transitive over nonzero vectors.
pub proof fn lemma_angle_le_trans(from: Point, a: Point, b: Point, c: Point)
    requires
        !(b.x == 0 && b.y == 0),
        angle_le(from, a, b),
        angle_le(from, b, c),
    ensures
        angle_le(from, a, c),
{
    lemma_norm2_pos(b);
    assert(norm2(a) >= 0) by (nonlinear_arith);
    assert(norm2(c) >= 0) by (nonlinear_arith);
    lemma_key_trans(key_num(from, a), norm2(a), key_num(from, b), norm2(b), key_num(from, c), norm2(c));
}

/// Lagrange identity in the plane: `|v|^2 |f|^2 == (f.v)^2 + (f x v)^2`.
proof fn lemma_lagrange(fx: int, fy: int, vx: int, vy: int)
    ensures
        (vx * vx + vy * vy) * (fx * fx + fy * fy) == (fx * vx + fy * vy) * (fx * vx + fy * vy) + (
        fx * vy - fy * vx) * (fx * vy - fy * vx),
{
    broadcast use vstd::arithmetic::mul::group_mul_properties;

}

/// The cross product of two rays, scaled by `|f|^2`, in terms of their
/// projections on `f` and their cross products with `f`.
proof fn lemma_cross_expand(fx: int, fy: int, ax: int, ay: int, bx: int, by: int)
    ensures
        (ax * by - ay * bx) * (fx * fx + fy * fy) == (fx * ax + fy * ay) * (fx * by - fy * bx) - (
        fx * bx + fy * by) * (fx * ay - fy * ax),
{
    broadcast use vstd::arithmetic::mul::group_mul_properties;

}

/// The dot product of two rays, scaled by `|f|^2`, in the same terms.
proof fn lemma_dot_expand(fx: int, fy: int, ax: int, ay: int, bx: int, by: int)
    ensures
        (ax * bx + ay * by) * (fx * fx + fy * fy) == (fx * ax + fy * ay) * (fx * bx + fy * by) + (
        fx * ay - fy * ax) * (fx * by - fy * bx),
{
    broadcast use vstd::arithmetic::mul::group_mul_properties;

}

/// Core of the order proof, over projection/cross coordinates: a strictly
/// counterclockwise pair (positive relative cross) compares strictly under
/// the signed-square key.
proof fn lemma_key_strict(da: int, ca: int, db: int, cb: int)
    requires
        ca >= 0,
        cb >= 0,
        da * da + ca * ca > 0,
        db * db + cb * cb > 0,
        da * cb - db * ca > 0,
    ensures
        da * abs_i(da) * (db * db + cb * cb) > db * abs_i(db) * (da * da + ca * ca),
{
    if da >= 0 && db < 0 {
        assert(da * abs_i(da) * (db * db + cb * cb) >= 0 > db * abs_i(db) * (da * da + ca * ca))
            by (nonlinear_arith)
            requires
                da >= 0,
                db < 0,
                abs_i(da) == da,
                abs_i(db) == -db,
                da * da + ca * ca > 0,
                db * db + cb * cb >= 0,
        ;
    } else if da < 0 && db >= 0 {
        assert(da * cb - db * ca <= 0) by (nonlinear_arith)
            requires
                da < 0,
                db >= 0,
                ca >= 0,
                cb >= 0,
        ;
    } else if da >= 0 && db >= 0 {
        assert(da * abs_i(da) * (db * db + cb * cb) > db * abs_i(db) * (da * da + ca * ca))
            by (nonlinear_arith)
            requires
                da >= 0,
                db >= 0,
                ca >= 0,
                cb >= 0,
                abs_i(da) == da,
                abs_i(db) == db,
                da * cb - db * ca > 0,
        ;
    } else {
        assert(da * abs_i(da) * (db * db + cb * cb) > db * abs_i(db) * (da * da + ca * ca))
            by (nonlinear_arith)
            requires
                da < 0,
                db < 0,
                ca >= 0,
                cb >= 0,
                abs_i(da) == -da,
                abs_i(db) == -db,
                da * cb - db * ca > 0,
        ;
    }
}

/// Core of the equality proof: parallel same-direction rays carry equal
/// signed-square keys.
proof fn lemma_key_equal(da: int, ca: int, db: int, cb: int)
    requires
        ca >= 0,
        cb >= 0,
        da * da + ca * ca > 0,
        db * db + cb * cb > 0,
        da * cb - db * ca == 0,
        da * db + ca * cb > 0,
    ensures
        da * abs_i(da) * (db * db + cb * cb) == db * abs_i(db) * (da * da + ca * ca),
{
    assert((da >= 0 && db >= 0) || (da <= 0 && db <= 0)) by (nonlinear_arith)
        requires
            ca >= 0,
            cb >= 0,
            da * cb - db * ca == 0,
            da * db + ca * cb > 0,
    ;
    if da >= 0 && db >= 0 {
        assert(da * abs_i(da) * (db * db + cb * cb) == db * abs_i(db) * (da * da + ca * ca))
            by (nonlinear_arith)
            requires
                da >= 0,
                db >= 0,
                abs_i(da) == da,
                abs_i(db) == db,
                da * cb - db * ca == 0,
                da * db + ca * cb > 0,
        ;
    } else {
        assert(da * abs_i(da) * (db * db + cb * cb) == db * abs_i(db) * (da * da + ca * ca))
            by (nonlinear_arith)
            requires
                da <= 0,
                db <= 0,
                abs_i(da) == -da,
                abs_i(db) == -db,
                da * cb - db * ca == 0,
                da * db + ca * cb > 0,
        ;
    }
}

/// Cancels a shared positive factor inside a strict product comparison.
proof fn lemma_cancel_factor_strict(x: int, u: int, y: int, v: int, f: int)
    by (nonlinear_arith)
    requires
        f > 0,
        x * (u * f) > y * (v * f),
    ensures
        x * u > y * v,
{
}

/// Cancels a shared positive factor inside a product equality.
proof fn lemma_cancel_factor_equal(x: int, u: int, y: int, v: int, f: int)
    by (nonlinear_arith)
    requires
        f > 0,
        x * (u * f) == y * (v * f),
    ensures
        x * u == y * v,
{
}

/// The algebraic comparator reproduces the angular order exactly, stated
/// without trigonometry: for nonzero rays within the closed half-turn
/// counterclockwise of `from`, a strictly counterclockwise pair (their own
/// cross product positive) is strictly ordered, and a parallel
/// same-direction pair is tied. `atan2`-sorting rays in such a wedge orders
/// them by exactly these cross-product signs, so the comparator sorts as the
/// reference would.
pub proof fn lemma_comparator_orders_by_angle(from: Point, a: Point, b: Point)
    requires
        !(from.x == 0 && from.y == 0),
        !(a.x == 0 && a.y == 0),
        !(b.x == 0 && b.y == 0),
        cross(from, a) >= 0,
        cross(from, b) >= 0,
    ensures
        cross(a, b) > 0 ==> angle_le(from, a, b) && !angle_le(from, b, a),
        cross(a, b) == 0 && dot_val(a, b) > 0 ==> angle_le(from, a, b) && angle_le(from, b, a),
{
    let nf = norm2(from);
    let na = norm2(a);
    let nb = norm2(b);
    let da = dot_val(from, a);
    let ca = cross(from, a);
    let db = dot_val(from, b);
    let cb = cross(from, b);
    lemma_norm2_pos(from);
    lemma_norm2_pos(a);
    lemma_norm2_pos(b);
    lemma_lagrange(from.x as int, from.y as int, a.x as int, a.y as int);
    lemma_lagrange(from.x as int, from.y as int, b.x as int, b.y as int);
    assert(na * nf == da * da + ca * ca);
    assert(nb * nf == db * db + cb * cb);
    assert(da * da + ca * ca > 0) by (nonlinear_arith)
        requires
            na > 0,
            nf > 0,
            na * nf == da * da + ca * ca,
    ;
    assert(db * db + cb * cb > 0) by (nonlinear_arith)
        requires
            nb > 0,
            nf > 0,
            nb * nf == db * db + cb * cb,
    ;
    lemma_cross_expand(from.x as int, from.y as int, a.x as int, a.y as int, b.x as int, b.y as int);
    assert(cross(a, b) * nf == da * cb - db * ca);
    if cross(a, b) > 0 {
        assert(da * cb - db * ca > 0) by (nonlinear_arith)
            requires
                cross(a, b) > 0,
                nf > 0,
                cross(a, b) * nf == da * cb - db * ca,
        ;
        lemma_key_strict(da, ca, db, cb);
        assert(key_num(from, a) * (nb * nf) > key_num(from, b) * (na * nf));
        lemma_cancel_factor_strict(key_num(from, a), nb, key_num(from, b), na, nf);
    }
    if cross(a, b) == 0 && dot_val(a, b) > 0 {
        lemma_dot_expand(from.x as int, from.y as int, a.x as int, a.y as int, b.x as int, b.y as int);
        assert(dot_val(a, b) * nf == da * db + ca * cb);
        assert(da * cb - db * ca == 0) by (nonlinear_arith)
            requires
                cross(a, b) == 0,
                cross(a, b) * nf == da * cb - db * ca,
        ;
        assert(da * db + ca * cb > 0) by (nonlinear_arith)
            requires
                dot_val(a, b) > 0,
                nf > 0,
                dot_val(a, b) * nf == da * db + ca * cb,
        ;
        lemma_key_equal(da, ca, db, cb);
        assert(key_num(from, a) * (nb * nf) == key_num(from, b) * (na * nf));
        lemma_cancel_factor_equal(key_num(from, a), nb, key_num(from, b), na, nf);
    }
}

/// Decides the algebraic angle order exactly, in wide integers.
pub fn angle_le_exec(from: Point, a: Point, b: Point) -> (r: bool)
    requires
        pt_in_range(from, RAY_BOUND as int),
        pt_in_range(a, RAY_BOUND as int),
        pt_in_range(b, RAY_BOUND as int),
    ensures
        r == angle_le(from, a, b),
{
    proof {
        lemma_abs_mul_le(from.x as int, a.x as int, RAY_BOUND as int, RAY_BOUND as int);
        lemma_abs_mul_le(from.y as int, a.y as int, RAY_BOUND as int, RAY_BOUND as int);
        lemma_abs_mul_le(from.x as int, b.x as int, RAY_BOUND as int, RAY_BOUND as int);
        lemma_abs_mul_le(from.y as int, b.y as int, RAY_BOUND as int, RAY_BOUND as int);
        lemma_abs_mul_le(a.x as int, a.x as int, RAY_BOUND as int, RAY_BOUND as int);
        lemma_abs_mul_le(a.y as int, a.y as int, RAY_BOUND as int, RAY_BOUND as int);
        lemma_abs_mul_le(b.x as int, b.x as int, RAY_BOUND as int, RAY_BOUND as int);
        lemma_abs_mul_le(b.y as int, b.y as int, RAY_BOUND as int, RAY_BOUND as int);
    }
    let a_dot_f: i128 = (from.x as i128) * (a.x as i128) + (from.y as i128) * (a.y as i128);
    let b_dot_f: i128 = (from.x as i128) * (b.x as i128) + (from.y as i128) * (b.y as i128);
    let norm_a: i128 = (a.x as i128) * (a.x as i128) + (a.y as i128) * (a.y as i128);
    let norm_b: i128 = (b.x as i128) * (b.x as i128) + (b.y as i128) * (b.y as i128);
    let a_abs: i128 = if a_dot_f < 0 {
        -a_dot_f
    } else {
        a_dot_f
    };
    let b_abs: i128 = if b_dot_f < 0 {
        -b_dot_f
    } else {
        b_dot_f
    };
    proof {
        lemma_abs_mul_le(a_dot_f as int, a_abs as int, 2_000_000_000_000, 2_000_000_000_000);
        lemma_abs_mul_le(b_dot_f as int, b_abs as int, 2_000_000_000_000, 2_000_000_000_000);
    }
    let key_a: i128 = a_dot_f * a_abs;
    let key_b: i128 = b_dot_f * b_abs;
    proof {
        lemma_abs_mul_le(
            key_a as int,
            norm_b as int,
            4_000_000_000_000_000_000_000_000,
            2_000_000_000_000,
        );
        lemma_abs_mul_le(
            key_b as int,
            norm_a as int,
            4_000_000_000_000_000_000_000_000,
            2_000_000_000_000,
        );
    }
    key_a * norm_b >= key_b * norm_a
}

/// Sorted insertion keeps a sequence sorted when the new element sits after
/// everything before its slot and before everything from its slot on.
proof fn lemma_sorted_insert(from: Point, s: Seq<Point>, p: int, x: Point)
    requires
        sorted_from(from, s),
        0 <= p <= s.len(),
        forall|q: int| 0 <= q < p ==> angle_le(from, #[trigger] s[q], x),
        forall|q: int| p <= q < s.len() ==> angle_le(from, x, #[trigger] s[q]),
    ensures
        sorted_from(from, s.insert(p, x)),
{
    let t = s.insert(p, x);
    assert forall|i: int, j: int| 0 <= i < j < t.len() implies angle_le(from, t[i], t[j]) by {
        assert(t.len() == s.len() + 1);
        assert(forall|k: int| 0 <= k < p ==> t[k] == s[k]);
        assert(t[p] == x);
        assert(forall|k: int| p < k < t.len() ==> t[k] == s[k - 1]);
        if i < p && j < p {
        } else if i < p && j == p {
        } else if i < p && j > p {
        } else if i == p {
        } else {
        }
    }
}

/// Inserting an element into a sequence adds it to the sequence's multiset.
proof fn lemma_insert_to_multiset(s: Seq<Point>, p: int, x: Point)
    requires
        0 <= p <= s.len(),
    ensures
        s.insert(p, x).to_multiset() == s.to_multiset().insert(x),
{
    let t = s.insert(p, x);
    assert(t.remove(p) =~= s);
    assert(t[p] == x);
    assert(t.remove(p).to_multiset() =~= t.to_multiset().remove(t[p]));
    assert(t.to_multiset().contains(x));
    assert(t.to_multiset().remove(x).insert(x) =~= t.to_multiset());
    assert(s.to_multiset().insert(x) =~= t.to_multiset());
}

impl Point {
    /// Sorts the rays in place by angle away from `from`, using the
    /// algebraic comparator: no square roots, no trigonometry. Valid for
    /// rays within half a turn of `from`; ties keep an arbitrary order.
    pub fn sort_from_angle(rays: &mut Vec<Point>, from: Point)
        requires
            pt_in_range(from, RAY_BOUND as int),
            all_rays_ok(old(rays)@),
        ensures
            final(rays)@.len() == old(rays)@.len(),
            final(rays)@.to_multiset() == old(rays)@.to_multiset(),
            sorted_from(from, final(rays)@),
            all_rays_ok(final(rays)@),
    {
        let ghost orig = rays@;
        let mut out: Vec<Point> = Vec::new();
        let mut k: usize = 0;
        while k < rays.len()
            invariant
                rays@ == orig,
                all_rays_ok(orig),
                pt_in_range(from, RAY_BOUND as int),
                k <= orig.len(),
                out@.len() == k,
                out@.to_multiset() == orig.subrange(0, k as int).to_multiset(),
                sorted_from(from, out@),
                all_rays_ok(out@),
            decreases orig.len() - k,
        {
            let x = rays[k];
            let mut p: usize = 0;
            while p < out.len() && angle_le_exec(from, out[p], x)
                invariant
                    pt_in_range(from, RAY_BOUND as int),
                    pt_in_range(x, RAY_BOUND as int),
                    all_rays_ok(out@),
                    p <= out@.len(),
                    forall|q: int| 0 <= q < p ==> angle_le(from, #[trigger] out@[q], x),
                decreases out@.len() - p,
            {
                p = p + 1;
            }
            proof {
                if p < out@.len() {
                    assert(!angle_le(from, out@[p as int], x));
                    assert(angle_le(from, x, out@[p as int]));
                    assert forall|q: int| p <= q < out@.len() implies angle_le(
                        from,
                        x,
                        #[trigger] out@[q],
                    ) by {
                        if q > p {
                            lemma_angle_le_trans(from, x, out@[p as int], out@[q]);
                        }
                    }
                }
                lemma_sorted_insert(from, out@, p as int, x);
                lemma_insert_to_multiset(out@, p as int, x);
                assert(orig.subrange(0, k as int + 1) =~= orig.subrange(0, k as int).push(orig[k as int]));
            }
            out.insert(p, x);
            proof {
                assert(out@.to_multiset() == orig.subrange(0, k as int).to_multiset().insert(
                    orig[k as int],
                ));
                assert(orig.subrange(0, k as int + 1).to_multiset() == orig.subrange(
                    0,
                    k as int,
                ).push(orig[k as int]).to_multiset());
                assert(orig.subrange(0, k as int).push(orig[k as int]).to_multiset()
                    =~= orig.subrange(0, k as int).to_multiset().insert(orig[k as int]));
            }
            k = k + 1;
        }
        proof {
            assert(orig.subrange(0, orig.len() as int) =~= orig);
        }
        *rays = out;
    }
}

} // verus!
