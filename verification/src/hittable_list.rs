//! A scene: objects in the order they were added, searched one by one for
//! the hit nearest to the ray's origin.

use vstd::prelude::*;
use crate::hittable::{HitRecord, Hittable};
use crate::interval::Interval;

verus! {

pub struct HittableList<T> {
    pub objects: Vec<T>,
}

/// The range left to search once `found` is known: nothing at or beyond
/// the hit already found counts.
pub open spec fn spec_window<S>(ray_t: Interval, found: Option<HitRecord<S>>) -> Interval {
    Interval {
        min: ray_t.min,
        max: match found {
            Some(h) => h.t,
            None => ray_t.max,
        },
    }
}

/// `candidate` where it is a hit strictly inside the range left, else `found`.
pub open spec fn spec_nearer<S>(
    ray_t: Interval,
    found: Option<HitRecord<S>>,
    candidate: Option<HitRecord<S>>,
) -> Option<HitRecord<S>> {
    match candidate {
        Some(h) => if spec_window(ray_t, found).spec_surrounds(h.t) {
            candidate
        } else {
            found
        },
        None => found,
    }
}

/// The hit held after the reports have come in, in order.
pub open spec fn nearest<S>(ray_t: Interval, reports: Seq<Option<HitRecord<S>>>) -> Option<
    HitRecord<S>,
>
    decreases reports.len(),
{
    if reports.len() == 0 {
        None
    } else {
        spec_nearer(ray_t, nearest(ray_t, reports.drop_last()), reports.last())
    }
}

/// Where in `reports` the hit held at the end came from, if any is held.
pub open spec fn nearest_index<S>(ray_t: Interval, reports: Seq<Option<HitRecord<S>>>) -> Option<
    int,
>
    decreases reports.len(),
{
    if reports.len() == 0 {
        None
    } else {
        let found = nearest(ray_t, reports.drop_last());
        match reports.last() {
            Some(h) => if spec_window(ray_t, found).spec_surrounds(h.t) {
                Some(reports.len() - 1)
            } else {
                nearest_index(ray_t, reports.drop_last())
            },
            None => nearest_index(ray_t, reports.drop_last()),
        }
    }
}

/// Whether the report at `j` is a hit strictly inside `ray_t`.
pub open spec fn counts<S>(ray_t: Interval, reports: Seq<Option<HitRecord<S>>>, j: int) -> bool {
    0 <= j < reports.len() && reports[j] is Some && ray_t.spec_surrounds(reports[j].unwrap().t)
}

/// The hit held at the end is the nearest report that counts, and among
/// reports equally near the first: it lies strictly inside `ray_t`, no
/// report that counts is nearer, and none before it is as near. No hit is
/// held only where no report counts.
pub proof fn lemma_nearest_is_least<S>(ray_t: Interval, reports: Seq<Option<HitRecord<S>>>)
    ensures
        match nearest_index(ray_t, reports) {
            Some(k) => {
                &&& counts(ray_t, reports, k)
                &&& nearest(ray_t, reports) == reports[k]
                &&& forall|j: int| #[trigger]
                    counts(ray_t, reports, j) ==> reports[k].unwrap().t <= reports[j].unwrap().t
                &&& forall|j: int| #[trigger]
                    counts(ray_t, reports, j) && j < k ==> reports[k].unwrap().t
                        < reports[j].unwrap().t
            },
            None => {
                &&& nearest(ray_t, reports) is None
                &&& forall|j: int| !#[trigger] counts(ray_t, reports, j)
            },
        },
    decreases reports.len(),
{
    if reports.len() > 0 {
        let before = reports.drop_last();
        lemma_nearest_is_least(ray_t, before);
        assert forall|j: int| #[trigger] counts(ray_t, reports, j) && j < reports.len() - 1 implies counts(
            ray_t,
            before,
            j,
        ) by {}
        assert forall|j: int| #[trigger] counts(ray_t, before, j) implies counts(ray_t, reports, j) by {}
    }
}

/// Of two surfaces that the ray meets at different distances inside
/// `ray_t`, the nearer is the hit returned, whichever was added first. The
/// second may report its hit or, where that lies beyond what the first has
/// left, nothing.
pub proof fn lemma_nearer_of_two<S>(
    ray_t: Interval,
    first: HitRecord<S>,
    second: HitRecord<S>,
    reports: Seq<Option<HitRecord<S>>>,
)
    requires
        ray_t.spec_surrounds(first.t),
        ray_t.spec_surrounds(second.t),
        first.t != second.t,
        reports.len() == 2,
        reports[0] == Some(first),
        reports[1] == Some(second) || (reports[1] is None && second.t > first.t),
    ensures
        nearest(ray_t, reports) == Some(
            if first.t < second.t {
                first
            } else {
                second
            },
        ),
{
    let head = reports.drop_last();
    assert(head.len() == 1);
    assert(head.drop_last().len() == 0);
    assert(nearest(ray_t, head.drop_last()) == None::<HitRecord<S>>);
    assert(head.last() == Some(first));
    assert(nearest(ray_t, head) == Some(first));
}

/// `reports` is what a search of `objects` can have heard: one report from
/// each object, in order, each a possible answer of that object for the
/// range that the reports before it had left.
pub open spec fn heard<T: Hittable>(
    objects: Seq<T>,
    r: &T::Ray,
    ray_t: Interval,
    reports: Seq<Option<HitRecord<T::Surface>>>,
) -> bool {
    &&& reports.len() == objects.len()
    &&& forall|j: int|
        0 <= j < objects.len() ==> call_ensures(
            T::hit,
            (&objects[j], r, &spec_window(ray_t, nearest(ray_t, reports.take(j)))),
            #[trigger] reports[j],
        )
}

/// The range to hand to the next object.
pub fn window<S>(ray_t: &Interval, found: &Option<HitRecord<S>>) -> (w: Interval)
    ensures
        w == spec_window(*ray_t, *found),
{
    match found {
        Some(h) => Interval::from_values(ray_t.min, h.t),
        None => Interval::from_values(ray_t.min, ray_t.max),
    }
}

/// Settles between the hit held so far and what the next object reported.
/// A report counts only strictly inside the range left, so a tie goes to
/// the hit found first.
pub fn nearer<S>(
    ray_t: &Interval,
    found: Option<HitRecord<S>>,
    candidate: Option<HitRecord<S>>,
) -> (r: Option<HitRecord<S>>)
    ensures
        r == spec_nearer(*ray_t, found, candidate),
{
    match candidate {
        Some(h) => {
            if window(ray_t, &found).surrounds(h.t) {
                Some(h)
            } else {
                found
            }
        },
        None => found,
    }
}

impl<T: Hittable> HittableList<T> {
    pub fn new() -> (list: Self)
        ensures
            list.objects@ == Seq::<T>::empty(),
    {
        HittableList { objects: Vec::new() }
    }

    pub fn from_hittable(object: T) -> (list: Self)
        ensures
            list.objects@ == seq![object],
    {
        let mut objects = Vec::new();
        objects.push(object);
        HittableList { objects }
    }

    pub fn clear(&mut self)
        ensures
            final(self).objects@ == Seq::<T>::empty(),
    {
        self.objects.clear();
    }

    pub fn add(&mut self, object: T)
        ensures
            final(self).objects@ == old(self).objects@.push(object),
    {
        self.objects.push(object);
    }
}

impl<T: Hittable> Hittable for HittableList<T> {
    type Ray = T::Ray;

    type Surface = T::Surface;

    /// Asks every object in turn, each for the range that the nearest hit
    /// so far has left, and returns the nearest hit of all.
    fn hit(&self, r: &Self::Ray, ray_t: &Interval) -> (rec: Option<HitRecord<Self::Surface>>)
        ensures
            exists|reports: Seq<Option<HitRecord<T::Surface>>>|
                #[trigger] heard(self.objects@, r, *ray_t, reports) && rec == nearest(
                    *ray_t,
                    reports,
                ),
            rec matches Some(h) ==> ray_t.spec_surrounds(h.t),
            self.objects@.len() == 0 ==> rec is None,
    {
        let mut found: Option<HitRecord<T::Surface>> = None;
        let ghost mut reports: Seq<Option<HitRecord<T::Surface>>> = Seq::empty();
        let mut i: usize = 0;
        while i < self.objects.len()
            invariant
                i <= self.objects@.len(),
                heard(self.objects@.take(i as int), r, *ray_t, reports),
                found == nearest(*ray_t, reports),
            decreases self.objects@.len() - i,
        {
            let w = window(ray_t, &found);
            let candidate = self.objects[i].hit(r, &w);
            proof {
                let longer = reports.push(candidate);
                assert(longer.drop_last() == reports);
                assert(longer.take(i as int) == reports);
                assert forall|j: int| 0 <= j < i implies longer.take(j) == reports.take(j) by {}
                reports = longer;
            }
            found = nearer(ray_t, found, candidate);
            i += 1;
        }
        proof {
            assert(self.objects@.take(i as int) == self.objects@);
            lemma_nearest_is_least(*ray_t, reports);
        }
        found
    }
}

} // verus!
