use vstd::prelude::*;

verus! {

/// One of the two places where a ray crosses a sphere.
#[derive(Clone, Copy, Debug, PartialEq, Eq, Structural)]
pub enum Root {
    /// Where the ray enters the sphere.
    Near,
    /// Where the ray leaves the sphere.
    Far,
}

/// Whether `t` lies strictly between `t_min` and `t_max`.
pub open spec fn within(t: i64, t_min: i64, t_max: i64) -> bool {
    t_min < t < t_max
}

/// The crossing that counts as the hit of a sphere which the ray enters at
/// `near` and leaves at `far`: the near one where it lies strictly between
/// `t_min` and `t_max`, else the far one where that does, else none.
pub fn first_root(near: i64, far: i64, t_min: i64, t_max: i64) -> (root: Option<Root>)
    ensures
        root == Some(Root::Near) <==> within(near, t_min, t_max),
        root == Some(Root::Far) <==> !within(near, t_min, t_max) && within(far, t_min, t_max),
        root is None <==> !within(near, t_min, t_max) && !within(far, t_min, t_max),
{
    if t_min < near && near < t_max {
        Some(Root::Near)
    } else if t_min < far && far < t_max {
        Some(Root::Far)
    } else {
        None
    }
}

} // verus!
