use vstd::prelude::*;

use crate::interaction::Interaction;
use crate::primitive::Primitive;
use crate::ray::Ray;

verus! {

/// `r` is a closest hit of `ray` among `primitives`: it is absent exactly
/// when no primitive is hit, and otherwise it is the hit of one of them with
/// a `t` no larger than that of any other hit. Which of several hits with the
/// same `t` it is, is left open.
pub open spec fn is_closest_hit<P: Primitive>(
    primitives: Seq<P>,
    ray: Ray,
    r: Option<Interaction>,
) -> bool {
    &&& r is None <==> forall|i: int| 0 <= i < primitives.len() ==> (#[trigger] primitives[i].hit(ray)) is None
    &&& r is Some ==> exists|i: int| 0 <= i < primitives.len() && #[trigger] primitives[i].hit(ray) == r
    &&& r is Some ==> forall|i: int|
        0 <= i < primitives.len() && (#[trigger] primitives[i].hit(ray)) is Some
            ==> r->0.t <= primitives[i].hit(ray)->0.t
}

/// Every primitive of the collection is well formed.
pub open spec fn all_wf<P: Primitive>(primitives: Seq<P>) -> bool {
    forall|i: int| 0 <= i < primitives.len() ==> #[trigger] primitives[i].wf()
}

/// Responsible for testing rays against a collection of [Primitive]s.
/// The most basic implementation tests every [Primitive] in the collection
/// and returns the closest hit.
pub trait Accelerator<'a, P: Primitive> {
    /// The collection that rays are tested against.
    spec fn primitives(&self) -> Seq<P>;

    /// Replaces the collection with `primitives`, borrowed from the caller.
    fn build(&mut self, primitives: &'a Vec<P>)
        ensures
            final(self).primitives() == primitives@,
    ;

    /// The closest hit of `ray` on the collection, if any.
    fn test(&self, ray: &Ray) -> (r: Option<Interaction>)
        requires
            ray.wf(),
            all_wf(self.primitives()),
        ensures
            is_closest_hit(self.primitives(), *ray, r),
    ;
}

/// Two closest hits of one ray on one collection are equal as interactions:
/// both absent, or both present with the same `t`. So testing after building
/// twice from the same collection gives the same answer as after building once.
pub proof fn lemma_closest_hit_determined<P: Primitive>(
    primitives: Seq<P>,
    ray: Ray,
    r1: Option<Interaction>,
    r2: Option<Interaction>,
)
    requires
        is_closest_hit(primitives, ray, r1),
        is_closest_hit(primitives, ray, r2),
    ensures
        r1 is None <==> r2 is None,
        r1 is Some ==> r1->0.t == r2->0.t,
{
    if r1 is Some {
        let i = choose|i: int| 0 <= i < primitives.len() && #[trigger] primitives[i].hit(ray) == r1;
        let j = choose|j: int| 0 <= j < primitives.len() && #[trigger] primitives[j].hit(ray) == r2;
        assert(primitives[i].hit(ray) is Some);
        assert(primitives[j].hit(ray) is Some);
    }
}

} // verus!
