use vstd::prelude::*;

use crate::interaction::Interaction;
use crate::ray::Ray;

verus! {

/// The core trait for geometry: a piece of the scene that a ray can be
/// tested against.
pub trait Primitive {
    /// The primitive's own invariant.
    spec fn wf(&self) -> bool;

    /// Where `ray` meets this primitive first within its interval, if at all.
    spec fn hit(&self, ray: Ray) -> Option<Interaction>;

    /// Tests a ray against this primitive.
    fn test(&self, ray: &Ray) -> (r: Option<Interaction>)
        requires
            self.wf(),
            ray.wf(),
        ensures
            r == self.hit(*ray),
    ;
}

} // verus!
