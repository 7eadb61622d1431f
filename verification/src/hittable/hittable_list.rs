use vstd::prelude::*;
use crate::hittable::{HitRecord, Hittable, before};

verus! {

/// An ordered collection of objects that a ray can hit.
pub struct HittableList<H> {
    objects: Vec<H>,
}

/// The nearest of the first crossings that the objects of `objects` have with `r`
/// beyond `t_min`; among equally near ones, that of the earliest object.
pub open spec fn nearest<R, D, H: Hittable<R, D>>(objects: Seq<H>, r: &R, t_min: i64) -> Option<
    HitRecord<D>,
>
    decreases objects.len(),
{
    if objects.len() == 0 {
        None
    } else {
        let earlier = nearest(objects.drop_last(), r, t_min);
        let last = objects.last().struck(r, t_min);
        match (earlier, last) {
            (Some(e), Some(l)) => if l.t < e.t {
                Some(l)
            } else {
                Some(e)
            },
            (Some(e), None) => Some(e),
            (None, _) => last,
        }
    }
}

/// Whether `hit` is the nearest crossing that the objects have with `r` beyond
/// `t_min`: it is the first crossing of one of them, no object has a nearer
/// one, and no object before that one has one as near.
pub open spec fn is_nearest<R, D, H: Hittable<R, D>>(
    objects: Seq<H>,
    r: &R,
    t_min: i64,
    hit: HitRecord<D>,
) -> bool {
    exists|i: int|
        {
            &&& 0 <= i < objects.len()
            &&& #[trigger] objects[i].struck(r, t_min) == Some(hit)
            &&& forall|j: int|
                0 <= j < objects.len() ==> (#[trigger] objects[j].struck(r, t_min) matches Some(
                    other,
                ) ==> hit.t <= other.t)
            &&& forall|j: int|
                0 <= j < i ==> (#[trigger] objects[j].struck(r, t_min) matches Some(other)
                    ==> hit.t < other.t)
        }
}

/// [`nearest`] is the nearest crossing, and there is none where no object is crossed.
pub proof fn lemma_nearest_is_minimum<R, D, H: Hittable<R, D>>(objects: Seq<H>, r: &R, t_min: i64)
    ensures
        match nearest(objects, r, t_min) {
            Some(hit) => is_nearest(objects, r, t_min, hit),
            None => forall|j: int|
                0 <= j < objects.len() ==> (#[trigger] objects[j].struck(r, t_min)) is None,
        },
    decreases objects.len(),
{
    if objects.len() > 0 {
        let front = objects.drop_last();
        let last = objects.last().struck(r, t_min);
        lemma_nearest_is_minimum(front, r, t_min);
        assert forall|j: int| 0 <= j < front.len() implies front[j] == objects[j] by {}
        match nearest(front, r, t_min) {
            Some(e) => {
                let i = choose|i: int|
                    {
                        &&& 0 <= i < front.len()
                        &&& #[trigger] front[i].struck(r, t_min) == Some(e)
                        &&& forall|j: int|
                            0 <= j < front.len() ==> (#[trigger] front[j].struck(
                                r,
                                t_min,
                            ) matches Some(other) ==> e.t <= other.t)
                        &&& forall|j: int|
                            0 <= j < i ==> (#[trigger] front[j].struck(r, t_min) matches Some(
                                other,
                            ) ==> e.t < other.t)
                    };
                assert(front[i] == objects[i]);
                match last {
                    Some(l) if l.t < e.t => {
                        let k = objects.len() - 1;
                        assert(objects[k].struck(r, t_min) == Some(l));
                        assert forall|j: int| 0 <= j < k implies (#[trigger] objects[j].struck(
                            r,
                            t_min,
                        ) matches Some(other) ==> l.t < other.t) by {
                            assert(front[j] == objects[j]);
                        }
                        assert(is_nearest(objects, r, t_min, l));
                    },
                    _ => {
                        assert(objects[i].struck(r, t_min) == Some(e));
                        assert forall|j: int| 0 <= j < objects.len() implies (
                        #[trigger] objects[j].struck(r, t_min) matches Some(other) ==> e.t
                            <= other.t) by {
                            if j < front.len() {
                                assert(front[j] == objects[j]);
                            }
                        }
                        assert forall|j: int| 0 <= j < i implies (#[trigger] objects[j].struck(
                            r,
                            t_min,
                        ) matches Some(other) ==> e.t < other.t) by {
                            assert(front[j] == objects[j]);
                        }
                        assert(is_nearest(objects, r, t_min, e));
                    },
                }
            },
            None => {
                assert forall|j: int| 0 <= j < front.len() implies (#[trigger] objects[j].struck(
                    r,
                    t_min,
                )) is None by {
                    assert(front[j] == objects[j]);
                }
                match last {
                    Some(l) => {
                        let k = objects.len() - 1;
                        assert(objects[k].struck(r, t_min) == Some(l));
                        assert(is_nearest(objects, r, t_min, l));
                    },
                    None => {},
                }
            },
        }
    }
}

impl<H> HittableList<H> {
    /// The objects of the list, in the order in which they were added.
    pub closed spec fn view(&self) -> Seq<H> {
        self.objects@
    }

    /// An empty list.
    pub fn new() -> (list: HittableList<H>)
        ensures
            list@ == Seq::<H>::empty(),
    {
        HittableList { objects: Vec::new() }
    }

    /// Adds `object` behind the objects that the list holds.
    pub fn add(&mut self, object: H)
        ensures
            final(self)@ == old(self)@.push(object),
    {
        self.objects.push(object);
    }
}

impl<R, D, H: Hittable<R, D>> Hittable<R, D> for HittableList<H> {
    open spec fn struck(&self, r: &R, t_min: i64) -> Option<HitRecord<D>> {
        nearest(self@, r, t_min)
    }

    /// Tries to hit an object of the list: the record of the closest hit.
    fn hit(&self, r: &R, t_min: i64, t_max: i64) -> (res: Option<HitRecord<D>>)
        ensures
            res matches Some(hit) ==> is_nearest(self@, r, t_min, hit) && t_min < hit.t < t_max,
            res is None ==> forall|j: int|
                0 <= j < self@.len() ==> (#[trigger] self@[j].struck(r, t_min) matches Some(other)
                    ==> t_max <= other.t),
    {
        let mut record: Option<HitRecord<D>> = None;
        let mut closest_so_far = t_max;
        let n = self.objects.len();
        let mut i: usize = 0;
        while i < n
            invariant
                i <= n,
                n == self.objects@.len(),
                record == before(nearest(self.objects@.take(i as int), r, t_min), t_max),
                record matches Some(h) ==> t_min < h.t && closest_so_far == h.t,
                record is None ==> closest_so_far == t_max,
            decreases n - i,
        {
            proof {
                assert(self.objects@.take(i + 1).drop_last() =~= self.objects@.take(i as int));
            }
            if let Some(hit_record) = self.objects[i].hit(r, t_min, closest_so_far) {
                closest_so_far = hit_record.t;
                record = Some(hit_record);
            }
            i += 1;
        }
        proof {
            assert(self.objects@.take(n as int) =~= self.objects@);
            lemma_nearest_is_minimum(self@, r, t_min);
            if record is None {
                match nearest(self@, r, t_min) {
                    Some(hit) => {
                        assert(is_nearest(self@, r, t_min, hit));
                    },
                    None => {},
                }
            }
        }
        record
    }
}

} // verus!
