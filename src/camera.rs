use vstd::prelude::*;

use crate::ray::Ray;
use crate::sample::Sample;

verus! {

/// Responsible for generating outgoing rays to test.
pub trait Camera {
    /// The camera's own invariant.
    spec fn wf(&self) -> bool;

    /// `ray` is one of the rays that the camera may shoot through `sample`.
    spec fn shoots(&self, sample: Sample, ray: Ray) -> bool;

    /// Transforms a [Sample] into an outgoing [Ray].
    fn get_ray(&self, sample: &Sample) -> (r: Ray)
        requires
            self.wf(),
            sample.wf(),
        ensures
            r.wf(),
            self.shoots(*sample, r),
    ;
}

} // verus!
