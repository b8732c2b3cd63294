//! Observers, suspicious bodies, and the alarm detector that latches an
//! observer's code when a suspicious rectangle enters its visible region.

use vstd::prelude::*;

verus! {

use crate::geometry::{Point, pt_in_range, in_range, cross, dot_val, MAX_COORD, RAY_BOUND};
use crate::shape::{pt, Rect};
use crate::codes::Codes;
use crate::visibility::{Cone, ConeTriangle, cone_ok, sector_hits_rect};

/// Both wedge bounds are usable direction vectors and the wedge swept
/// counterclockwise from `lower` to `upper` is narrower than half a turn
/// (possibly zero-width).
pub open spec fn wedge_ok(lower: Point, upper: Point) -> bool {
    &&& pt_in_range(lower, RAY_BOUND as int)
    &&& pt_in_range(upper, RAY_BOUND as int)
    &&& !(lower.x == 0 && lower.y == 0)
    &&& !(upper.x == 0 && upper.y == 0)
    &&& (cross(lower, upper) > 0 || (cross(lower, upper) == 0 && dot_val(lower, upper) > 0))
}

/// The wedge has zero width: its two boundary rays point the same way.
pub open spec fn wedge_degenerate(lower: Point, upper: Point) -> bool {
    cross(lower, upper) == 0 && dot_val(lower, upper) > 0
}

/// A watching entity: an anchored position with a fixed local offset, a
/// wedge of sight between the `lower` and `upper` direction vectors, and the
/// alarm code it latches on detection.
#[derive(Clone, Copy, Debug)]
pub struct Observer {
    pub location: Point,
    pub offset: Point,
    pub upper: Point,
    pub lower: Point,
    pub code: u128,
}

impl Observer {
    /// The observer stands in bounds and its wedge is valid.
    pub open spec fn wf(self) -> bool {
        pt_in_range(self.location, MAX_COORD as int) && wedge_ok(self.lower, self.upper)
    }

    /// Places an observer at `location + offset` watching the wedge from
    /// `lower` counterclockwise to `upper`, owning alarm code `code`.
    pub fn new(location: Point, offset: Point, upper: Point, lower: Point, code: u128) -> (r:
        Observer)
        requires
            in_range(location.x + offset.x, MAX_COORD as int),
            in_range(location.y + offset.y, MAX_COORD as int),
            wedge_ok(lower, upper),
        ensures
            r.wf(),
            r.location == pt(location.x + offset.x, location.y + offset.y),
            r.offset == offset,
            r.upper == upper,
            r.lower == lower,
            r.code == code,
    {
        Observer { location: location.add(offset), offset, upper, lower, code }
    }

    /// Re-anchors the observer: its position becomes `location + offset`,
    /// with the stored offset applied anew.
    pub fn shift(&mut self, location: Point)
        requires
            old(self).wf(),
            in_range(location.x + old(self).offset.x, MAX_COORD as int),
            in_range(location.y + old(self).offset.y, MAX_COORD as int),
        ensures
            final(self).wf(),
            final(self).location == pt(
                location.x + old(self).offset.x,
                location.y + old(self).offset.y,
            ),
            final(self).offset == old(self).offset,
            final(self).upper == old(self).upper,
            final(self).lower == old(self).lower,
            final(self).code == old(self).code,
    {
        self.location = location.add(self.offset);
    }
}

/// The marker making a tracked body eligible for detection, carrying the
/// code that its detection reports against.
#[derive(Clone, Copy, Debug)]
pub struct Suspicious {
    pub code: u128,
}

/// The compatibility predicate between a suspicious body's code (passive)
/// and an observer's code (active). Detection consults it before any
/// geometry; swapping the policy never changes the detection algorithm.
pub trait CodePolicy {
    /// What the policy accepts.
    spec fn interacts(passive: u128, active: u128) -> bool;

    /// Decides the predicate.
    fn codes_interact(passive: u128, active: u128) -> (r: bool)
        ensures
            r == Self::interacts(passive, active),
    ;
}

/// The default policy: every pair of codes interacts.
pub struct AlwaysInteracts;

impl CodePolicy for AlwaysInteracts {
    open spec fn interacts(passive: u128, active: u128) -> bool {
        true
    }

    fn codes_interact(passive: u128, active: u128) -> (r: bool) {
        true
    }
}

/// The blocking policy: no pair of codes interacts, so detection never
/// latches whatever the geometry shows.
pub struct NeverInteracts;

impl CodePolicy for NeverInteracts {
    open spec fn interacts(passive: u128, active: u128) -> bool {
        false
    }

    fn codes_interact(passive: u128, active: u128) -> (r: bool) {
        false
    }
}

/// Some sector of the cone intersects the rectangle.
pub open spec fn cone_sees(cone: Seq<ConeTriangle>, r: Rect) -> bool {
    exists|i: int| 0 <= i < cone.len() && sector_hits_rect(#[trigger] cone[i], r)
}

/// Some suspicious body both interacts with the observer's code under the
/// policy and lies in the visible region.
pub open spec fn detect_hit<P: CodePolicy>(
    cone: Seq<ConeTriangle>,
    bodies: Seq<(Rect, Suspicious)>,
    active_code: u128,
) -> bool {
    exists|b: int|
        0 <= b < bodies.len() && P::interacts((#[trigger] bodies[b]).1.code, active_code)
            && cone_sees(cone, bodies[b].0)
}

/// The latched set after one detection pass: untouched when the observer's
/// code is already latched, the code latched when some interacting body is
/// seen, untouched otherwise.
pub open spec fn detect_post<P: CodePolicy>(
    active: Set<u128>,
    cone: Seq<ConeTriangle>,
    bodies: Seq<(Rect, Suspicious)>,
    code: u128,
) -> Set<u128> {
    if active.contains(code) {
        active
    } else if detect_hit::<P>(cone, bodies, code) {
        active.insert(code)
    } else {
        active
    }
}

/// One detection pass for one observer: skipped outright when the code is
/// already latched; otherwise each interacting suspicious body is tested
/// against every sector of the cone, and the first intersection latches the
/// observer's code and stops the pass. At most one latch per pass, never a
/// removal; the name registry is untouched.
pub fn detect<P: CodePolicy>(
    observer: &Observer,
    cone: &Cone,
    bodies: &Vec<(Rect, Suspicious)>,
    codes: &mut Codes,
)
    requires
        old(codes).wf(),
        cone_ok(cone.field@),
        forall|i: int| 0 <= i < bodies@.len() ==> (#[trigger] bodies@[i]).0.wf(),
    ensures
        final(codes).wf(),
        final(codes).listing_map() == old(codes).listing_map(),
        final(codes).next_code() == old(codes).next_code(),
        final(codes).active_set() == detect_post::<P>(
            old(codes).active_set(),
            cone.field@,
            bodies@,
            observer.code,
        ),
{
    let code = observer.code;
    if codes.contains(code) {
        return ;
    }
    let mut b: usize = 0;
    while b < bodies.len()
        invariant
            codes.wf(),
            *codes == *old(codes),
            !codes.active_set().contains(code),
            code == observer.code,
            cone_ok(cone.field@),
            forall|i: int| 0 <= i < bodies@.len() ==> (#[trigger] bodies@[i]).0.wf(),
            b <= bodies@.len(),
            forall|j: int|
                0 <= j < b ==> !(P::interacts((#[trigger] bodies@[j]).1.code, code) && cone_sees(
                    cone.field@,
                    bodies@[j].0,
                )),
        decreases bodies@.len() - b,
    {
        let body_rect = bodies[b].0;
        if P::codes_interact(bodies[b].1.code, code) {
            let mut t: usize = 0;
            while t < cone.field.len()
                invariant
                    codes.wf(),
                    *codes == *old(codes),
                    cone_ok(cone.field@),
                    b < bodies@.len(),
                    body_rect == bodies@[b as int].0,
                    body_rect.wf(),
                    P::interacts(bodies@[b as int].1.code, code),
                    !codes.active_set().contains(code),
                    code == observer.code,
                    t <= cone.field@.len(),
                    forall|j: int|
                        0 <= j < t ==> !sector_hits_rect(#[trigger] cone.field@[j], body_rect),
                decreases cone.field@.len() - t,
            {
                if cone.field[t].intersects_rectangle(&body_rect) {
                    codes.insert(code);
                    proof {
                        assert(sector_hits_rect(cone.field@[t as int], bodies@[b as int].0));
                        assert(cone_sees(cone.field@, bodies@[b as int].0));
                        assert(detect_hit::<P>(cone.field@, bodies@, code));
                    }
                    return ;
                }
                t = t + 1;
            }
            proof {
                assert(!cone_sees(cone.field@, bodies@[b as int].0));
            }
        }
        b = b + 1;
    }
    proof {
        assert(!detect_hit::<P>(cone.field@, bodies@, code));
    }
}

/// Once an interacting suspicious body stands in the visible region, one
/// detection pass leaves the observer's code latched.
pub proof fn lemma_detection_latches<P: CodePolicy>(
    active: Set<u128>,
    cone: Seq<ConeTriangle>,
    bodies: Seq<(Rect, Suspicious)>,
    code: u128,
)
    requires
        detect_hit::<P>(cone, bodies, code),
    ensures
        detect_post::<P>(active, cone, bodies, code).contains(code),
{
}

/// The latched set after any number of detection passes.
pub open spec fn detect_iter<P: CodePolicy>(
    active: Set<u128>,
    cone: Seq<ConeTriangle>,
    bodies: Seq<(Rect, Suspicious)>,
    code: u128,
    n: nat,
) -> Set<u128>
    decreases n,
{
    if n == 0 {
        active
    } else {
        detect_post::<P>(detect_iter::<P>(active, cone, bodies, code, (n - 1) as nat), cone, bodies, code)
    }
}

/// A body configuration that detection does not see latches nothing,
/// however many passes run over it.
pub proof fn lemma_unseen_never_latches<P: CodePolicy>(
    active: Set<u128>,
    cone: Seq<ConeTriangle>,
    bodies: Seq<(Rect, Suspicious)>,
    code: u128,
    n: nat,
)
    requires
        !detect_hit::<P>(cone, bodies, code),
    ensures
        detect_iter::<P>(active, cone, bodies, code, n) == active,
    decreases n,
{
    if n > 0 {
        lemma_unseen_never_latches::<P>(active, cone, bodies, code, (n - 1) as nat);
    }
}

/// When the policy rejects every (passive, active) pair on offer, a
/// detection pass changes nothing, whatever the geometry shows.
pub proof fn lemma_gating_blocks_detection<P: CodePolicy>(
    active: Set<u128>,
    cone: Seq<ConeTriangle>,
    bodies: Seq<(Rect, Suspicious)>,
    code: u128,
)
    requires
        forall|b: int|
            0 <= b < bodies.len() ==> !P::interacts((#[trigger] bodies[b]).1.code, code),
    ensures
        detect_post::<P>(active, cone, bodies, code) == active,
{
    assert(!detect_hit::<P>(cone, bodies, code));
}

} // verus!
