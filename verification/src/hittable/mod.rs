use vstd::prelude::*;

pub mod hittable_list;
pub mod sphere;

verus! {

/// One crossing of a ray with a surface.
///
/// Places along a ray are given on a scale of integers. The library compares
/// them and never computes with them, so any scale serves on which a place
/// further along the ray has the larger number.
pub struct HitRecord<D> {
    /// Where along the ray the crossing lies.
    pub t: i64,
    /// What the surface reports of the crossing.
    pub detail: D,
}

/// What is left of a crossing when only those before `t_max` count.
pub open spec fn before<D>(crossing: Option<HitRecord<D>>, t_max: i64) -> Option<HitRecord<D>> {
    match crossing {
        Some(h) if h.t < t_max => Some(h),
        _ => None,
    }
}

/// Object that can be hit by a ray of type `R`.
pub trait Hittable<R, D> {
    /// The first crossing of `r` with the object beyond `t_min`.
    spec fn struck(&self, r: &R, t_min: i64) -> Option<HitRecord<D>>;

    /// Tries to hit the object strictly between `t_min` and `t_max`.
    fn hit(&self, r: &R, t_min: i64, t_max: i64) -> (res: Option<HitRecord<D>>)
        ensures
            res == before(self.struck(r, t_min), t_max),
            res matches Some(h) ==> t_min < h.t;
}

} // verus!
