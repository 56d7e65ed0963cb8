//! The slab test for an axis-aligned box: where a ray enters and leaves the
//! box, given for each axis where it meets the two planes that bound the box
//! on that axis.

use vstd::prelude::*;
use crate::interval::Interval;

verus! {

/// What one axis contributes.
#[derive(Clone, Copy, Debug)]
pub enum Slab {
    /// The ray runs along the two planes and meets neither. It stays at
    /// `origin` on this axis; the box reaches from `lo` to `hi`.
    Parallel { origin: i64, lo: i64, hi: i64 },
    /// The ray meets the plane at the low side of the box at `t1` and the
    /// plane at the high side at `t2`.
    Crossing { t1: i64, t2: i64 },
}

/// A side of the box: the axis it is square to, and on which end of that
/// axis it lies (`1` for the high side, `-1` for the low side).
#[derive(Clone, Copy, Debug, PartialEq, Eq, Structural)]
pub struct Face {
    pub axis: usize,
    pub sign: i8,
}

/// A hit on the box: the distance, and the side through which the ray
/// enters the box.
#[derive(Clone, Copy, Debug, PartialEq, Eq, Structural)]
pub struct SlabHit {
    pub t: i64,
    pub face: Face,
}

impl Slab {
    /// Where the ray gets between the two planes.
    pub open spec fn lower(self) -> i64
        recommends
            self is Crossing,
    {
        if self->t1 > self->t2 {
            self->t2
        } else {
            self->t1
        }
    }

    /// Where the ray leaves the space between the two planes.
    pub open spec fn upper(self) -> i64
        recommends
            self is Crossing,
    {
        if self->t1 > self->t2 {
            self->t1
        } else {
            self->t2
        }
    }

    /// The plane met first: the high side where the ray runs down the axis
    /// (it then meets the high plane before the low one), else the low side.
    pub open spec fn near_sign(self) -> i8
        recommends
            self is Crossing,
    {
        if self->t1 > self->t2 {
            1i8
        } else {
            -1i8
        }
    }

    /// A ray along the planes passes the box by unless it runs between them.
    pub open spec fn passes_by(self) -> bool {
        self matches Slab::Parallel { origin, lo, hi } && (origin < lo || origin > hi)
    }
}

/// The distance at which the ray has got between the planes of every axis it
/// crosses: the greatest `lower` among the first `n` slabs, or the least
/// rank where none of them is crossed.
pub open spec fn entry(slabs: Seq<Slab>, n: int) -> i64
    decreases n,
{
    if n <= 0 {
        i64::MIN
    } else {
        let rest = entry(slabs, n - 1);
        if slabs[n - 1] is Crossing && slabs[n - 1].lower() > rest {
            slabs[n - 1].lower()
        } else {
            rest
        }
    }
}

/// The distance at which the ray first leaves the planes of an axis it
/// crosses: the least `upper` among the first `n` slabs, or the greatest
/// rank where none of them is crossed.
pub open spec fn exit(slabs: Seq<Slab>, n: int) -> i64
    decreases n,
{
    if n <= 0 {
        i64::MAX
    } else {
        let rest = exit(slabs, n - 1);
        if slabs[n - 1] is Crossing && slabs[n - 1].upper() < rest {
            slabs[n - 1].upper()
        } else {
            rest
        }
    }
}

/// The last of the first `n` axes that is crossed with `lower` equal to `e`.
pub open spec fn last_reaching(slabs: Seq<Slab>, n: int, e: i64) -> Option<int>
    decreases n,
{
    if n <= 0 {
        None
    } else if slabs[n - 1] is Crossing && slabs[n - 1].lower() == e {
        Some(n - 1)
    } else {
        last_reaching(slabs, n - 1, e)
    }
}

/// The axis whose plane the ray passes as it enters the box: the last one
/// that is crossed at the entry distance.
pub open spec fn entering_axis(slabs: Seq<Slab>) -> Option<int> {
    last_reaching(slabs, slabs.len() as int, entry(slabs, slabs.len() as int))
}

/// The side of the box at the near plane of axis `k`.
pub open spec fn face_at(slabs: Seq<Slab>, k: int) -> Face {
    Face { axis: k as usize, sign: slabs[k].near_sign() }
}

/// Whether some axis rules the box out at once.
pub open spec fn passed_by(slabs: Seq<Slab>) -> bool {
    exists|k: int| 0 <= k < slabs.len() && (#[trigger] slabs[k]).passes_by()
}

/// The hit of the slab test within `ray_t`.
///
/// The box is missed where the ray runs along an axis outside the box, or
/// leaves the planes of one axis before it has got between those of
/// another. Else it is inside the box from `entry` to `exit`, and the hit
/// is at `entry` if that lies strictly inside `ray_t`, else at `exit` if
/// that does, else there is none. Either way the face is the one passed on
/// entry.
pub open spec fn spec_hit(slabs: Seq<Slab>, ray_t: Interval) -> Option<SlabHit> {
    let n = slabs.len() as int;
    if passed_by(slabs) || entry(slabs, n) > exit(slabs, n) {
        None
    } else {
        let face = face_at(slabs, entering_axis(slabs).unwrap());
        if ray_t.spec_surrounds(entry(slabs, n)) {
            Some(SlabHit { t: entry(slabs, n), face })
        } else if ray_t.spec_surrounds(exit(slabs, n)) {
            Some(SlabHit { t: exit(slabs, n), face })
        } else {
            None
        }
    }
}

/// The outward normal of a side, by components: `sign` on its axis, zero
/// on the others.
pub open spec fn spec_outward_normal(face: Face) -> (i8, i8, i8) {
    if face.axis == 0 {
        (face.sign, 0i8, 0i8)
    } else if face.axis == 1 {
        (0i8, face.sign, 0i8)
    } else {
        (0i8, 0i8, face.sign)
    }
}

/// A side as the slab test reports it.
pub open spec fn is_side(face: Face) -> bool {
    face.axis < 3 && (face.sign == 1 || face.sign == -1)
}

/// The squared length of a vector of small whole components.
pub open spec fn length_squared(v: (i8, i8, i8)) -> int {
    v.0 * v.0 + v.1 * v.1 + v.2 * v.2
}

/// `entry` only grows, and `exit` only shrinks, as more axes are taken in.
pub proof fn lemma_bounds_tighten(slabs: Seq<Slab>, m: int, n: int)
    requires
        m <= n,
    ensures
        entry(slabs, m) <= entry(slabs, n),
        exit(slabs, n) <= exit(slabs, m),
    decreases n - m,
{
    if m < n {
        lemma_bounds_tighten(slabs, m, n - 1);
    }
}

/// `entry` is at or above the `lower` of every crossed axis, and `exit` at
/// or below every `upper`.
pub proof fn lemma_bounds_hold(slabs: Seq<Slab>, n: int, k: int)
    requires
        0 <= k < n,
        slabs[k] is Crossing,
    ensures
        slabs[k].lower() <= entry(slabs, n),
        exit(slabs, n) <= slabs[k].upper(),
    decreases n,
{
    if k < n - 1 {
        lemma_bounds_hold(slabs, n - 1, k);
    }
}

/// A hit lies between the two planes of every axis that the ray crosses,
/// planes included: at its distance the ray is in the box.
pub proof fn lemma_hit_is_inside(slabs: Seq<Slab>, ray_t: Interval, k: int)
    requires
        spec_hit(slabs, ray_t) is Some,
        0 <= k < slabs.len(),
        slabs[k] is Crossing,
    ensures
        slabs[k].lower() <= spec_hit(slabs, ray_t).unwrap().t <= slabs[k].upper(),
{
    lemma_bounds_hold(slabs, slabs.len() as int, k);
}

/// What `last_reaching` finds is the last axis crossed with `lower` equal
/// to `e`; it finds one wherever there is one.
pub proof fn lemma_last_reaching(slabs: Seq<Slab>, n: int, e: i64)
    ensures
        match last_reaching(slabs, n, e) {
            Some(k) => {
                &&& 0 <= k < n
                &&& slabs[k] is Crossing
                &&& slabs[k].lower() == e
                &&& forall|j: int|
                    k < j < n ==> !((#[trigger] slabs[j]) is Crossing && slabs[j].lower() == e)
            },
            None => forall|j: int|
                0 <= j < n ==> !((#[trigger] slabs[j]) is Crossing && slabs[j].lower() == e),
        },
    decreases n,
{
    if n > 0 {
        lemma_last_reaching(slabs, n - 1, e);
    }
}

/// An entry distance above the least rank is the `lower` of a crossed axis.
pub proof fn lemma_entry_reached(slabs: Seq<Slab>, n: int)
    ensures
        entry(slabs, n) > i64::MIN ==> last_reaching(slabs, n, entry(slabs, n)) is Some,
    decreases n,
{
    if n > 0 {
        lemma_entry_reached(slabs, n - 1);
    }
}

/// Where any axis is crossed, the entry distance is the `lower` of one of
/// them, so the side through which the ray enters is known.
pub proof fn lemma_crossed_has_side(slabs: Seq<Slab>, n: int, k: int)
    requires
        0 <= k < n,
        slabs[k] is Crossing,
    ensures
        last_reaching(slabs, n, entry(slabs, n)) is Some,
{
    lemma_entry_reached(slabs, n);
    lemma_bounds_hold(slabs, n, k);
    lemma_last_reaching(slabs, n, entry(slabs, n));
}

/// The slab test on the three axes of space.
///
/// A hit lies strictly inside `ray_t` and between the entry and the exit
/// distance, and its face is a side of the box: the state in which no axis
/// has set the face cannot be reached with a hit.
pub fn hit(slabs: &[Slab; 3], ray_t: &Interval) -> (rec: Option<SlabHit>)
    ensures
        rec == spec_hit(slabs@, *ray_t),
        rec matches Some(h) ==> {
            &&& ray_t.spec_surrounds(h.t)
            &&& entry(slabs@, 3) <= h.t <= exit(slabs@, 3)
            &&& entering_axis(slabs@) == Some(h.face.axis as int)
            &&& is_side(h.face)
        },
{
    let mut t_min: i64 = i64::MIN;
    let mut t_max: i64 = i64::MAX;
    let mut face: Option<Face> = None;
    let mut i: usize = 0;
    while i < 3
        invariant
            i <= 3,
            slabs@.len() == 3,
            t_min == entry(slabs@, i as int),
            t_max == exit(slabs@, i as int),
            t_min <= t_max,
            forall|k: int| 0 <= k < i ==> !(#[trigger] slabs@[k]).passes_by(),
            face is None ==> t_min == i64::MIN && t_max == i64::MAX,
            face matches Some(f) ==> {
                &&& last_reaching(slabs@, i as int, t_min) == Some(f.axis as int)
                &&& f == face_at(slabs@, f.axis as int)
                &&& is_side(f)
            },
        decreases 3 - i,
    {
        match slabs[i] {
            Slab::Parallel { origin, lo, hi } => {
                if origin < lo || origin > hi {
                    assert(slabs@[i as int].passes_by());
                    return None;
                }
            },
            Slab::Crossing { t1, t2 } => {
                let swapped = t1 > t2;
                let near = if swapped { t2 } else { t1 };
                let far = if swapped { t1 } else { t2 };
                if near >= t_min {
                    t_min = near;
                    face = Some(Face { axis: i, sign: if swapped { 1 } else { -1 } });
                }
                if far < t_max {
                    t_max = far;
                }
                if t_min > t_max {
                    proof {
                        lemma_bounds_tighten(slabs@, i + 1, 3);
                    }
                    return None;
                }
            },
        }
        i += 1;
    }
    let t = if ray_t.surrounds(t_min) {
        t_min
    } else if ray_t.surrounds(t_max) {
        t_max
    } else {
        return None;
    };
    assert(!passed_by(slabs@));
    match face {
        Some(f) => Some(SlabHit { t, face: f }),
        None => None,
    }
}

/// The outward normal of a side, component by component. It has length one
/// exactly: one component is `1` or `-1`, the others are zero.
pub fn outward_normal(face: &Face) -> (n: (i8, i8, i8))
    ensures
        n == spec_outward_normal(*face),
        is_side(*face) ==> length_squared(n) == 1,
{
    proof {
        if face.sign == 1 {
            assert(face.sign * face.sign == 1);
        } else if face.sign == -1 {
            assert(face.sign * face.sign == 1);
        }
    }
    if face.axis == 0 {
        (face.sign, 0, 0)
    } else if face.axis == 1 {
        (0, face.sign, 0)
    } else {
        (0, 0, face.sign)
    }
}

} // verus!
