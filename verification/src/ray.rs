//! Rays: an origin, a direction (not necessarily unit length) and a time of
//! cast for motion blur.  The scene lives inside fixed coordinate ranges so
//! that every intersection computation stays exact in 128-bit integers.

use vstd::prelude::*;
use crate::fx::abs_spec;
use crate::vec3::{Vec3, Point3, plus_spec, scale_spec, lemma_scale_bound, VMAX};

verus! {

/// Bound on point coordinates, box corners and primitive parameters.
pub const CMAX: i64 = 0x1_0000_0000;

/// Bound on ray-direction components.
pub const DMAX: i64 = 0x400_0000;

/// The parametric "infinity": every reported hit parameter lies within it.
pub const T_INF: i64 = 0x2000_0000_0000;

#[derive(Clone, Copy, Debug, PartialEq, Eq, Structural)]
pub struct Ray {
    pub orig: Point3,
    pub dir: Vec3,
    pub tm: i64,
}

/// A ray whose components lie inside the scene ranges.
pub open spec fn ray_ok(r: Ray) -> bool {
    &&& r.orig.bounded(CMAX as int)
    &&& r.dir.bounded(DMAX as int)
    &&& -CMAX <= r.tm <= CMAX
}

/// A search window whose ends are representable parameters.
pub open spec fn window_ok(t_min: int, t_max: int) -> bool {
    &&& -T_INF <= t_min <= T_INF
    &&& -T_INF <= t_max <= T_INF
}

/// `FX_ONE` times the exact coordinate of the ray at parameter `t` on
/// axis `k`: the membership tests compare these scaled values exactly.
pub open spec fn ray_axis_s(r: Ray, t: int, k: int) -> int {
    crate::vec3::axis(r.orig, k) * (crate::fx::FX_ONE as int) + t * crate::vec3::axis(r.dir, k)
}

impl Ray {
    pub fn new(orig: Point3, dir: Vec3, tm: i64) -> (r: Ray)
        ensures
            r == (Ray { orig, dir, tm }),
    {
        Ray { orig, dir, tm }
    }

    pub fn origin(&self) -> (r: Point3)
        ensures
            r == self.orig,
    {
        self.orig
    }

    pub fn direction(&self) -> (r: Vec3)
        ensures
            r == self.dir,
    {
        self.dir
    }

    pub fn time(&self) -> (r: i64)
        ensures
            r == self.tm,
    {
        self.tm
    }

    /// The point reached at parameter `t`, rounded componentwise.
    pub fn at(&self, t: i64) -> (r: Point3)
        requires
            ray_ok(*self),
            -T_INF <= t <= T_INF,
        ensures
            r == at_spec(*self, t as int),
    {
        proof {
            lemma_scale_bound(t as int, self.dir, T_INF as int, DMAX as int);
        }
        self.orig.plus(&self.dir.scale(t))
    }

    /// Runtime check of [`ray_ok`].
    pub fn is_ok(&self) -> (r: bool)
        ensures
            r == ray_ok(*self),
    {
        self.orig.is_bounded(CMAX) && self.dir.is_bounded(DMAX) && -CMAX <= self.tm && self.tm
            <= CMAX
    }
}

/// The rounded point reached at parameter `t`.
pub open spec fn at_spec(r: Ray, t: int) -> Point3 {
    plus_spec(r.orig, scale_spec(t, r.dir))
}

/// The rounded point of a ray stays well inside the vector ranges.
pub proof fn lemma_at_bounded(r: Ray, t: int)
    requires
        ray_ok(r),
        -T_INF <= t <= T_INF,
    ensures
        at_spec(r, t).bounded(((T_INF as int) * (DMAX as int)) / (crate::fx::FX_ONE as int)
            + CMAX),
{
    lemma_scale_bound(t, r.dir, T_INF as int, DMAX as int);
    assert(abs_spec(t) <= T_INF as int);
}

} // verus!
