use pathtracer::hittable::{HitRecord, Hittable};
use pathtracer::hittable_list::{nearer, window, HittableList};
use pathtracer::interval::Interval;

/// A surface that every ray meets at one fixed distance.
struct Plate {
    t: i64,
    name: &'static str,
}

impl Hittable for Plate {
    type Ray = ();
    type Surface = &'static str;

    fn hit(&self, _r: &(), ray_t: &Interval) -> Option<HitRecord<&'static str>> {
        if ray_t.surrounds(self.t) {
            Some(HitRecord { t: self.t, surface: self.name })
        } else {
            None
        }
    }
}

/// A surface that reports a hit whatever range it is asked about.
struct Liar {
    t: i64,
}

impl Hittable for Liar {
    type Ray = ();
    type Surface = &'static str;

    fn hit(&self, _r: &(), _ray_t: &Interval) -> Option<HitRecord<&'static str>> {
        Some(HitRecord { t: self.t, surface: "liar" })
    }
}

fn plate(t: i64, name: &'static str) -> Plate {
    Plate { t, name }
}

#[test]
fn empty_scene_hits_nothing() {
    let world: HittableList<Plate> = HittableList::new();
    assert!(world.hit(&(), &Interval::universe()).is_none());
}

#[test]
fn nearer_of_two_wins_in_either_order() {
    let mut world = HittableList::new();
    world.add(plate(50, "far"));
    world.add(plate(20, "near"));
    let h = world.hit(&(), &Interval::from_values(1, i64::MAX)).unwrap();
    assert_eq!((h.t, h.surface), (20, "near"));

    let mut world = HittableList::from_hittable(plate(20, "near"));
    world.add(plate(50, "far"));
    let h = world.hit(&(), &Interval::from_values(1, i64::MAX)).unwrap();
    assert_eq!((h.t, h.surface), (20, "near"));
}

#[test]
fn tie_goes_to_the_first_added() {
    let mut world = HittableList::new();
    world.add(plate(30, "first"));
    world.add(plate(30, "second"));
    world.add(plate(40, "third"));
    let h = world.hit(&(), &Interval::from_values(0, 100)).unwrap();
    assert_eq!((h.t, h.surface), (30, "first"));
}

#[test]
fn ends_of_the_range_do_not_count() {
    let mut world = HittableList::new();
    world.add(plate(1, "at min"));
    world.add(plate(100, "at max"));
    assert!(world.hit(&(), &Interval::from_values(1, 100)).is_none());
    world.add(plate(99, "inside"));
    let h = world.hit(&(), &Interval::from_values(1, 100)).unwrap();
    assert_eq!((h.t, h.surface), (99, "inside"));
}

#[test]
fn clear_forgets_every_object() {
    let mut world = HittableList::from_hittable(plate(5, "only"));
    assert_eq!(world.objects.len(), 1);
    assert!(world.hit(&(), &Interval::universe()).is_some());
    world.clear();
    assert_eq!(world.objects.len(), 0);
    assert!(world.hit(&(), &Interval::universe()).is_none());
}

#[test]
fn a_report_outside_the_range_is_passed_over() {
    let mut world = HittableList::new();
    world.add(Liar { t: 500 });
    assert!(world.hit(&(), &Interval::from_values(0, 100)).is_none());
    let h = world.hit(&(), &Interval::from_values(0, 501)).unwrap();
    assert_eq!(h.t, 500);
}

#[test]
fn a_list_of_lists_is_searched_through() {
    let mut left = HittableList::new();
    left.add(plate(70, "a"));
    left.add(plate(60, "b"));
    let mut right = HittableList::new();
    right.add(plate(65, "c"));
    right.add(plate(55, "d"));
    let mut world = HittableList::new();
    world.add(left);
    world.add(right);
    let h = world.hit(&(), &Interval::from_values(0, 1000)).unwrap();
    assert_eq!((h.t, h.surface), (55, "d"));
}

#[test]
fn window_shrinks_to_the_hit_found() {
    let ray_t = Interval::from_values(3, 90);
    let none: Option<HitRecord<u8>> = None;
    let w = window(&ray_t, &none);
    assert_eq!((w.min, w.max), (3, 90));
    let w = window(&ray_t, &Some(HitRecord { t: 17, surface: 0u8 }));
    assert_eq!((w.min, w.max), (3, 17));
}

#[test]
fn nearer_keeps_or_replaces() {
    let ray_t = Interval::from_values(0, 100);
    let held = || Some(HitRecord { t: 40, surface: 'h' });
    let r = nearer(&ray_t, held(), Some(HitRecord { t: 39, surface: 'c' })).unwrap();
    assert_eq!((r.t, r.surface), (39, 'c'));
    let r = nearer(&ray_t, held(), Some(HitRecord { t: 40, surface: 'c' })).unwrap();
    assert_eq!((r.t, r.surface), (40, 'h'));
    let r = nearer(&ray_t, held(), Some(HitRecord { t: 0, surface: 'c' })).unwrap();
    assert_eq!((r.t, r.surface), (40, 'h'));
    let r = nearer(&ray_t, held(), None).unwrap();
    assert_eq!((r.t, r.surface), (40, 'h'));
    let r = nearer(&ray_t, None, Some(HitRecord { t: 100, surface: 'c' }));
    assert!(r.is_none());
    let r = nearer(&ray_t, None, Some(HitRecord { t: 99, surface: 'c' })).unwrap();
    assert_eq!((r.t, r.surface), (99, 'c'));
}
