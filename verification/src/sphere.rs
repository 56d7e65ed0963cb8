//! Which of the two places where a ray meets a sphere counts as the hit.

use vstd::prelude::*;
use crate::interval::Interval;

verus! {

/// The nearer place where it lies strictly inside `ray_t`, else the
/// farther one where that does, else none.
pub open spec fn spec_nearest_root(ray_t: Interval, near: i64, far: i64) -> Option<i64> {
    if ray_t.spec_surrounds(near) {
        Some(near)
    } else if ray_t.spec_surrounds(far) {
        Some(far)
    } else {
        None
    }
}

/// Picks the hit among the two roots of the intersection equation, `near`
/// being the one at the smaller distance. A ray that starts inside the
/// sphere has `near` behind it and hits at `far`.
pub fn nearest_root(ray_t: &Interval, near: i64, far: i64) -> (root: Option<i64>)
    ensures
        root == spec_nearest_root(*ray_t, near, far),
        root matches Some(t) ==> ray_t.spec_surrounds(t) && (t == near || t == far),
        root is None <==> !ray_t.spec_surrounds(near) && !ray_t.spec_surrounds(far),
{
    if ray_t.surrounds(near) {
        Some(near)
    } else if ray_t.surrounds(far) {
        Some(far)
    } else {
        None
    }
}

} // verus!
