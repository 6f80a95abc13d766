use vstd::prelude::*;

use crate::accelerator::{all_wf, Accelerator};
use crate::camera::Camera;
use crate::film::{Film, FilmError, FilmView};
use crate::primitive::Primitive;
use crate::ray::Ray;
use crate::sample::{Sample, COLOR_ONE};
use crate::sampler::Sampler;
use crate::vector::{Color3i, Vec3};

verus! {

/// Some primitive of the collection is hit by `ray`.
pub open spec fn any_hit<P: Primitive>(primitives: Seq<P>, ray: Ray) -> bool {
    exists|i: int| 0 <= i < primitives.len() && (#[trigger] primitives[i].hit(ray)) is Some
}

/// The color of a ray: black where it hits the scene, white where it
/// escapes to the background.
pub open spec fn ray_color(hit: bool) -> Color3i {
    if hit {
        Vec3 { x: 0, y: 0, z: 0 }
    } else {
        Vec3 { x: COLOR_ONE, y: COLOR_ONE, z: COLOR_ONE }
    }
}

/// The sampler after `n` pulls, and the samples those pulls returned.
pub open spec fn pulled<S: Sampler>(s: S, n: nat) -> (S, Seq<Sample>)
    decreases n,
{
    if n == 0 {
        (s, Seq::empty())
    } else {
        let (t, out) = pulled(s, (n - 1) as nat);
        let (u, r) = t.next_spec();
        (
            u,
            match r {
                Some(x) => out.push(x),
                None => out,
            },
        )
    }
}

/// The samples, each colored by whether its ray hits the scene.
pub open spec fn colored<P: Primitive>(samples: Seq<Sample>, rays: Seq<Ray>, primitives: Seq<P>) -> Seq<
    Sample,
> {
    Seq::new(
        samples.len(),
        |k: int| Sample { color: ray_color(any_hit(primitives, rays[k])), ..samples[k] },
    )
}

/// The film after offering it the samples in order, stopping at the first
/// refusal, and the answer.
pub open spec fn add_all(film: FilmView, samples: Seq<Sample>) -> (FilmView, Result<(), FilmError>)
    decreases samples.len(),
{
    if samples.len() == 0 {
        (film, Ok(()))
    } else {
        let (f, r) = add_all(film, samples.drop_last());
        match r {
            Ok(_) => f.add_spec(samples.last()),
            Err(e) => (f, Err(e)),
        }
    }
}

/// `before` becomes `after` with the answer `answer` by rendering `samples`:
/// each sample goes through one ray that `camera` may shoot through it, and
/// is added in order, colored by whether that ray hits `primitives`.
pub open spec fn rendered<C: Camera, P: Primitive>(
    samples: Seq<Sample>,
    rays: Seq<Ray>,
    camera: C,
    primitives: Seq<P>,
    before: FilmView,
    after: FilmView,
    answer: Result<(), FilmError>,
) -> bool {
    &&& rays.len() == samples.len()
    &&& forall|k: int| 0 <= k < samples.len() ==> #[trigger] camera.shoots(samples[k], rays[k])
    &&& add_all(before, colored(samples, rays, primitives)) == (after, answer)
}

/// Responsible for aggregating light information: it drives the
/// sample → ray → intersection → color → film loop.
pub trait Integrator {
    /// The integrator's own invariant.
    spec fn wf(&self) -> bool;

    /// How many samples are still to be rendered.
    spec fn pending(&self) -> nat;

    /// The samples that the first `n` pulls of the schedule give.
    spec fn pulls(&self, n: nat) -> Seq<Sample>;

    /// The schedule gives nothing more after `n` pulls.
    spec fn exhausted_after(&self, n: nat) -> bool;

    /// Renders every scheduled sample into `film`, in order, and develops it
    /// once at the end. A sample that the film refuses stops the render with
    /// that error, after the samples before it were added.
    fn render<'a, P: Primitive, C: Camera, A: Accelerator<'a, P>, F: Film>(
        &mut self,
        camera: &C,
        accelerator: &A,
        film: &mut F,
    ) -> (r: Result<Vec<u8>, FilmError>)
        requires
            old(self).wf(),
            camera.wf(),
            all_wf(accelerator.primitives()),
            old(film).wf(),
        ensures
            final(self).wf(),
            final(film).wf(),
            r is Ok ==> final(self).pending() == 0,
            r is Ok ==> r->Ok_0@ == final(film)@.raster(),
            r is Ok ==> exists|n: nat, rays: Seq<Ray>|
                old(self).exhausted_after(n) && #[trigger] rendered(
                    old(self).pulls(n),
                    rays,
                    *camera,
                    accelerator.primitives(),
                    old(film)@,
                    final(film)@,
                    Ok(()),
                ),
            r is Err ==> exists|n: nat, rays: Seq<Ray>|
                #[trigger] rendered(
                    old(self).pulls(n),
                    rays,
                    *camera,
                    accelerator.primitives(),
                    old(film)@,
                    final(film)@,
                    Err(r->Err_0),
                ),
    ;
}

} // verus!
