use vstd::prelude::*;

use crate::vector::{Point3i, Vec3, Vec3i};

verus! {

/// Largest magnitude of a scene coordinate, of a ray's direction component
/// and of a ray's interval bound: the largest for which a hit point, up to
/// `COORD_LIMIT + COORD_LIMIT²` from the origin, still has a normal that
/// vector products can compute (`PRODUCT_LIMIT`).
pub const COORD_LIMIT: i64 = 38000;

/// An instance of the simple geometric [Ray]: the points `o + d·t` for the
/// whole numbers `t` of the inclusive interval `[min_t, max_t]`.
#[derive(Clone, Copy, Debug)]
pub struct Ray {
    /// The origin
    pub o: Point3i,
    /// The direction, not necessarily of unit length
    pub d: Vec3i,
    /// The minimum t that is valid on the ray
    pub min_t: i64,
    /// The maximum t that is valid on the ray
    pub max_t: i64,
}

impl Ray {
    /// Every coordinate and bound lies within `COORD_LIMIT`.
    pub open spec fn wf(self) -> bool {
        &&& self.o.bounded(COORD_LIMIT as int)
        &&& self.d.bounded(COORD_LIMIT as int)
        &&& -COORD_LIMIT <= self.min_t <= COORD_LIMIT
        &&& -COORD_LIMIT <= self.max_t <= COORD_LIMIT
    }

    pub open spec fn contains(self, t: int) -> bool {
        self.min_t <= t <= self.max_t
    }

    /// The point at parameter `t`, if `t` lies in the interval.
    pub open spec fn at_spec(self, t: int) -> Option<Point3i> {
        if self.contains(t) {
            Some(
                Vec3 {
                    x: (self.o.x + self.d.x * t) as i64,
                    y: (self.o.y + self.d.y * t) as i64,
                    z: (self.o.z + self.d.z * t) as i64,
                },
            )
        } else {
            None
        }
    }

    pub fn new(o: Point3i, d: Vec3i, min_t: i64, max_t: i64) -> (r: Self)
        ensures
            r == (Ray { o, d, min_t, max_t }),
    {
        Ray { o, d, min_t, max_t }
    }

    /// `o + d·t` where `t` lies in the interval, else `None`.
    pub fn at(&self, t: i64) -> (r: Option<Point3i>)
        requires
            self.wf(),
        ensures
            r == self.at_spec(t as int),
            r is Some ==> r->0.bounded(COORD_LIMIT + COORD_LIMIT * COORD_LIMIT),
    {
        if t < self.min_t || t > self.max_t {
            return None;
        }
        proof {
            lemma_step_bound(self.d.x as int, t as int);
            lemma_step_bound(self.d.y as int, t as int);
            lemma_step_bound(self.d.z as int, t as int);
        }
        Some(self.o + self.d * t)
    }
}

pub proof fn lemma_step_bound(d: int, t: int)
    requires
        -COORD_LIMIT <= d <= COORD_LIMIT,
        -COORD_LIMIT <= t <= COORD_LIMIT,
    ensures
        -COORD_LIMIT * COORD_LIMIT <= d * t <= COORD_LIMIT * COORD_LIMIT,
{
    assert(-38000 * 38000 <= d * t <= 38000 * 38000) by (nonlinear_arith)
        requires
            -38000 <= d <= 38000,
            -38000 <= t <= 38000,
    ;
}

} // verus!
