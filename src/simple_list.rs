use vstd::prelude::*;

use crate::accelerator::{all_wf, is_closest_hit, Accelerator};
use crate::interaction::Interaction;
use crate::primitive::Primitive;
use crate::ray::Ray;

verus! {

/// An [Accelerator] that tests a ray against every primitive in turn.
pub struct SimpleList<'a, P> {
    primitives: &'a Vec<P>,
}

impl<'a, P: Primitive> SimpleList<'a, P> {
    pub fn new(primitives: &'a Vec<P>) -> (r: Self)
        ensures
            r.primitives() == primitives@,
    {
        Self { primitives }
    }
}

impl<'a, P: Primitive> Accelerator<'a, P> for SimpleList<'a, P> {
    closed spec fn primitives(&self) -> Seq<P> {
        self.primitives@
    }

    fn build(&mut self, primitives: &'a Vec<P>) {
        self.primitives = primitives;
    }

    fn test(&self, ray: &Ray) -> (r: Option<Interaction>) {
        let mut closest_interaction: Option<Interaction> = None;
        let n = self.primitives.len();
        let mut k: usize = 0;
        while k < n
            invariant
                n == self.primitives@.len(),
                0 <= k <= n,
                ray.wf(),
                all_wf(self.primitives@),
                is_closest_hit(self.primitives@.take(k as int), *ray, closest_interaction),
            decreases n - k,
        {
            let primitive = &self.primitives[k];
            let hit = primitive.test(ray);
            proof {
                let before = self.primitives@.take(k as int);
                let after = self.primitives@.take(k + 1);
                assert(after.drop_last() == before);
                assert(after[k as int] == self.primitives@[k as int]);
                assert forall|i: int| 0 <= i < k implies #[trigger] after[i] == before[i] by {}
            }
            if let Some(interaction) = hit {
                if closest_interaction.is_none() || interaction < closest_interaction.unwrap() {
                    closest_interaction = Some(interaction);
                }
            }
            k = k + 1;
        }
        assert(self.primitives@.take(n as int) == self.primitives@);
        closest_interaction
    }
}

} // verus!
