use vstd::prelude::*;

use crate::vector::{Point3i, Vec3i};

verus! {

/// Represents the collision of light with some participating medium.
///
/// Interactions compare by their parameter `t` alone: two hits at different
/// points with equal `t` are equal, which is what closest-hit selection needs.
#[derive(Clone, Copy, Debug)]
pub struct Interaction {
    /// The location of the hit
    pub p: Point3i,
    /// The parameter of the hit along the ray
    pub t: i64,
    /// The normal of the surface at the hit location,
    /// absent for collisions with a medium
    pub n: Option<Vec3i>,
    /// The direction back toward the ray's origin
    pub wo: Vec3i,
}

impl Interaction {
    pub fn new_on_surface(p: Point3i, t: i64, n: Vec3i, wo: Vec3i) -> (r: Self)
        ensures
            r == (Interaction { p, t, n: Some(n), wo }),
    {
        Self { p, t, n: Some(n), wo }
    }

    pub fn new_in_media(p: Point3i, t: i64, wo: Vec3i) -> (r: Self)
        ensures
            r == (Interaction { p, t, n: None, wo }),
    {
        Self { p, t, n: None, wo }
    }
}

impl PartialEq for Interaction {
    fn eq(&self, other: &Self) -> (r: bool) {
        self.t == other.t
    }
}

impl vstd::std_specs::cmp::PartialEqSpecImpl for Interaction {
    open spec fn obeys_eq_spec() -> bool {
        true
    }

    open spec fn eq_spec(&self, other: &Self) -> bool {
        self.t == other.t
    }
}

impl PartialOrd for Interaction {
    fn partial_cmp(&self, other: &Self) -> (r: Option<std::cmp::Ordering>) {
        if self.t < other.t {
            Some(std::cmp::Ordering::Less)
        } else if self.t == other.t {
            Some(std::cmp::Ordering::Equal)
        } else {
            Some(std::cmp::Ordering::Greater)
        }
    }
}

impl vstd::std_specs::cmp::PartialOrdSpecImpl for Interaction {
    open spec fn obeys_partial_cmp_spec() -> bool {
        true
    }

    open spec fn partial_cmp_spec(&self, other: &Self) -> Option<std::cmp::Ordering> {
        if self.t < other.t {
            Some(std::cmp::Ordering::Less)
        } else if self.t == other.t {
            Some(std::cmp::Ordering::Equal)
        } else {
            Some(std::cmp::Ordering::Greater)
        }
    }
}

} // verus!
