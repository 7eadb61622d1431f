use raytracer::hittable::hittable_list::HittableList;
use raytracer::hittable::sphere::{first_root, Root};
use raytracer::hittable::{HitRecord, Hittable};

/// A surface that every ray crosses once, at `t`.
struct Plate {
    t: i64,
    name: char,
}

impl Hittable<(), char> for Plate {
    fn struck(&self, _r: &(), t_min: i64) -> Option<HitRecord<char>> {
        if t_min < self.t {
            Some(HitRecord { t: self.t, detail: self.name })
        } else {
            None
        }
    }

    fn hit(&self, r: &(), t_min: i64, t_max: i64) -> Option<HitRecord<char>> {
        self.struck(r, t_min).filter(|h| h.t < t_max)
    }
}

fn world_of(plates: &[(i64, char)]) -> HittableList<Plate> {
    let mut world = HittableList::new();
    for &(t, name) in plates {
        world.add(Plate { t, name });
    }
    world
}

#[test]
fn nearest_of_two_is_returned() {
    let world = world_of(&[(2, 'A'), (5, 'B')]);
    let hit = world.hit(&(), 0, i64::MAX).unwrap();
    assert_eq!(hit.t, 2);
    assert_eq!(hit.detail, 'A');
}

#[test]
fn nearest_does_not_depend_on_the_order() {
    let world = world_of(&[(5, 'B'), (2, 'A'), (9, 'C')]);
    let hit = world.hit(&(), 0, i64::MAX).unwrap();
    assert_eq!(hit.t, 2);
    assert_eq!(hit.detail, 'A');
}

#[test]
fn nothing_before_the_upper_bound() {
    let world = world_of(&[(2, 'A'), (5, 'B')]);
    assert!(world.hit(&(), 0, 1).is_none());
}

#[test]
fn bounds_are_strict() {
    let world = world_of(&[(2, 'A'), (5, 'B')]);
    assert!(world.hit(&(), 0, 2).is_none());
    assert_eq!(world.hit(&(), 2, 9).unwrap().detail, 'B');
    assert!(world.hit(&(), 5, 9).is_none());
}

#[test]
fn crossings_behind_the_lower_bound_are_skipped() {
    let world = world_of(&[(-3, 'A'), (5, 'B')]);
    let hit = world.hit(&(), 0, i64::MAX).unwrap();
    assert_eq!(hit.detail, 'B');
}

#[test]
fn first_of_equally_near_wins() {
    let world = world_of(&[(7, 'A'), (4, 'B'), (4, 'C')]);
    let hit = world.hit(&(), 0, 100).unwrap();
    assert_eq!(hit.t, 4);
    assert_eq!(hit.detail, 'B');
}

#[test]
fn empty_list_is_never_hit() {
    let world: HittableList<Plate> = HittableList::new();
    assert!(world.hit(&(), i64::MIN, i64::MAX).is_none());
}

#[test]
fn list_of_lists_finds_the_nearest() {
    let mut outer = HittableList::new();
    outer.add(world_of(&[(8, 'A'), (6, 'B')]));
    outer.add(world_of(&[(3, 'C')]));
    outer.add(world_of(&[]));
    let hit = outer.hit(&(), 0, 100).unwrap();
    assert_eq!(hit.t, 3);
    assert_eq!(hit.detail, 'C');
}

#[test]
fn near_root_is_preferred() {
    assert_eq!(first_root(3, 7, 0, 100), Some(Root::Near));
}

#[test]
fn far_root_when_the_ray_starts_inside() {
    assert_eq!(first_root(-3, 7, 0, 100), Some(Root::Far));
}

#[test]
fn no_root_outside_the_interval() {
    assert_eq!(first_root(-7, -3, 0, 100), None);
    assert_eq!(first_root(3, 7, 0, 3), None);
    assert_eq!(first_root(3, 7, 7, 100), None);
    assert_eq!(first_root(3, 7, 3, 7), None);
}
