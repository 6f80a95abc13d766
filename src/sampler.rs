use vstd::prelude::*;

use crate::sample::Sample;

verus! {

/// Responsible for generating screen-space positions to sample: a finite
/// sequence, pulled one position at a time.
pub trait Sampler: Sized {
    /// The sampler's own invariant.
    spec fn wf(&self) -> bool;

    /// How many samples are still to come.
    spec fn remaining(&self) -> nat;

    /// The state after one pull, and what that pull returns.
    spec fn next_spec(&self) -> (Self, Option<Sample>);

    fn next_sample(&mut self) -> (r: Option<Sample>)
        requires
            old(self).wf(),
        ensures
            final(self).wf(),
            (*final(self), r) == old(self).next_spec(),
            r is None <==> old(self).remaining() == 0,
            r is Some ==> final(self).remaining() + 1 == old(self).remaining(),
            r is None ==> final(self).remaining() == 0,
            r is Some ==> r->0.wf() && r->0.in_unit_square(),
    ;
}

} // verus!
