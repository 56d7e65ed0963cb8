//! What a ray can hit, and what a hit reports.

use vstd::prelude::*;
use crate::interval::Interval;

verus! {

/// One intersection: the rank of its distance along the ray, and whatever
/// the surface has to say about the place (point, normal, material).
pub struct HitRecord<S> {
    pub t: i64,
    pub surface: S,
}

/// Anything a ray can hit.
///
/// `hit` answers for one ray and one range of distances: the intersection
/// it reports, or none. Nothing is asked of an implementation. In
/// particular it is not trusted to keep its report inside the range:
/// whoever calls `hit` checks.
pub trait Hittable {
    type Ray;

    type Surface;

    fn hit(&self, r: &Self::Ray, ray_t: &Interval) -> Option<HitRecord<Self::Surface>>;
}

} // verus!
