use vstd::prelude::*;

use crate::vector::{Point3i, Vec3};

verus! {

/// An axis-aligned box, often used to represent the minimum enclosing space
/// of a primitive.
#[derive(Clone, Copy, Debug, PartialEq, Eq, Structural)]
pub struct Bounds3 {
    pub min: Point3i,
    pub max: Point3i,
}

pub open spec fn min_of(a: i64, b: i64) -> i64 {
    if a <= b {
        a
    } else {
        b
    }
}

pub open spec fn max_of(a: i64, b: i64) -> i64 {
    if a >= b {
        a
    } else {
        b
    }
}

fn smaller(a: i64, b: i64) -> (r: i64)
    ensures
        r == min_of(a, b),
{
    if a <= b {
        a
    } else {
        b
    }
}

fn larger(a: i64, b: i64) -> (r: i64)
    ensures
        r == max_of(a, b),
{
    if a >= b {
        a
    } else {
        b
    }
}

impl Bounds3 {
    pub fn new(min: Point3i, max: Point3i) -> (r: Self)
        ensures
            r == (Bounds3 { min, max }),
    {
        Self { min, max }
    }

    /// The smallest box that encloses both boxes: the componentwise minimum
    /// of the corners `min` and maximum of the corners `max`.
    pub fn union(&self, other: &Self) -> (r: Self)
        ensures
            r.min == (Vec3 {
                x: min_of(self.min.x, other.min.x),
                y: min_of(self.min.y, other.min.y),
                z: min_of(self.min.z, other.min.z),
            }),
            r.max == (Vec3 {
                x: max_of(self.max.x, other.max.x),
                y: max_of(self.max.y, other.max.y),
                z: max_of(self.max.z, other.max.z),
            }),
    {
        let min = Vec3::new(
            smaller(self.min.x, other.min.x),
            smaller(self.min.y, other.min.y),
            smaller(self.min.z, other.min.z),
        );
        let max = Vec3::new(
            larger(self.max.x, other.max.x),
            larger(self.max.y, other.max.y),
            larger(self.max.z, other.max.z),
        );
        Self::new(min, max)
    }
}

} // verus!
