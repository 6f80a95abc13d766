use vstd::prelude::*;

use crate::accelerator::{all_wf, Accelerator};
use crate::camera::Camera;
use crate::film::{Film, FilmError};
use crate::integrator::{any_hit, colored, pulled, ray_color, rendered, Integrator};
use crate::primitive::Primitive;
use crate::ray::Ray;
use crate::sample::{Sample, COLOR_ONE};
use crate::sampler::Sampler;
use crate::vector::{Color3i, Vec3};

verus! {

/// An [Integrator] that samples screen-space positions with the help of a
/// [Sampler] that it owns.
pub struct SamplerIntegrator<S> {
    sampler: S,
}

impl<S: Sampler> SamplerIntegrator<S> {
    pub closed spec fn sampler(&self) -> S {
        self.sampler
    }

    pub fn new(sampler: S) -> (r: Self)
        ensures
            r.sampler() == sampler,
    {
        Self { sampler }
    }

    /// The color of `ray`: a constant attenuation, darkened to black where
    /// the ray hits the scene.
    pub fn calculate_ray_color<'a, P: Primitive, A: Accelerator<'a, P>>(
        &self,
        accelerator: &A,
        ray: &Ray,
    ) -> (r: Color3i)
        requires
            ray.wf(),
            all_wf(accelerator.primitives()),
        ensures
            r == ray_color(any_hit(accelerator.primitives(), *ray)),
    {
        let mut attenuation = Vec3::new(COLOR_ONE, COLOR_ONE, COLOR_ONE);
        let hit = accelerator.test(ray);
        if hit.is_some() {
            attenuation = attenuation * Vec3::new(0, 0, 0);
        }
        proof {
            let prims = accelerator.primitives();
            if hit is None {
                assert forall|i: int| 0 <= i < prims.len() implies (#[trigger] prims[i].hit(*ray)) is None by {}
            }
        }
        attenuation
    }
}

impl<S: Sampler> Integrator for SamplerIntegrator<S> {
    closed spec fn wf(&self) -> bool {
        self.sampler.wf()
    }

    closed spec fn pending(&self) -> nat {
        self.sampler.remaining()
    }

    open spec fn pulls(&self, n: nat) -> Seq<Sample> {
        pulled(self.sampler(), n).1
    }

    open spec fn exhausted_after(&self, n: nat) -> bool {
        pulled(self.sampler(), n).0.next_spec().1 is None
    }

    fn render<'a, P: Primitive, C: Camera, A: Accelerator<'a, P>, F: Film>(
        &mut self,
        camera: &C,
        accelerator: &A,
        film: &mut F,
    ) -> (r: Result<Vec<u8>, FilmError>) {
        let ghost start = self.sampler;
        let ghost before = film@;
        let ghost prims = accelerator.primitives();
        let ghost mut samples: Seq<Sample> = Seq::empty();
        let ghost mut rays: Seq<Ray> = Seq::empty();
        loop
            invariant_except_break
                self.sampler.wf(),
                camera.wf(),
                all_wf(prims),
                prims == accelerator.primitives(),
                start == old(self).sampler,
                before == old(film)@,
                film.wf(),
                pulled(start, samples.len()) == (self.sampler, samples),
                rendered(samples, rays, *camera, prims, before, film@, Ok(())),
            ensures
                self.sampler.wf(),
                film.wf(),
                self.sampler.remaining() == 0,
                start == old(self).sampler,
                before == old(film)@,
                prims == accelerator.primitives(),
                pulled(start, samples.len()).1 == samples,
                pulled(start, samples.len()).0.next_spec().1 is None,
                rendered(samples, rays, *camera, prims, before, film@, Ok(())),
            decreases self.sampler.remaining(),
        {
            let ghost here = self.sampler;
            let next = self.sampler.next_sample();
            match next {
                None => {
                    break;
                },
                Some(sample) => {
                    let ray = camera.get_ray(&sample);
                    let color = self.calculate_ray_color(accelerator, &ray);
                    let mut colored_sample = sample;
                    colored_sample.color = color;
                    let ghost old_view = film@;
                    let answer = film.add_sample(&colored_sample);
                    proof {
                        let n = samples.len();
                        assert(pulled(start, n + 1) == (self.sampler, samples.push(sample)));
                        let ss = samples.push(sample);
                        let rs = rays.push(ray);
                        let cs = colored(ss, rs, prims);
                        assert(cs.drop_last() =~= colored(samples, rays, prims));
                        assert(cs.last() == colored_sample);
                        assert forall|k: int| 0 <= k < ss.len() implies #[trigger] camera.shoots(
                            ss[k],
                            rs[k],
                        ) by {
                            if k < n {
                                assert(ss[k] == samples[k] && rs[k] == rays[k]);
                            }
                        }
                        samples = ss;
                        rays = rs;
                    }
                    match answer {
                        Ok(()) => {},
                        Err(e) => {
                            proof {
                                assert(rendered(
                                    samples,
                                    rays,
                                    *camera,
                                    prims,
                                    before,
                                    film@,
                                    Err(e),
                                ));
                                assert(old(self).sampler == start);
                                assert(old(self).pulls(samples.len()) == samples);
                                assert(rendered(
                                    old(self).pulls(samples.len()),
                                    rays,
                                    *camera,
                                    accelerator.primitives(),
                                    old(film)@,
                                    film@,
                                    Err(e),
                                ));
                                assert(exists|n: nat, rays: Seq<Ray>|
                                    #[trigger] rendered(
                                        old(self).pulls(n),
                                        rays,
                                        *camera,
                                        accelerator.primitives(),
                                        old(film)@,
                                        film@,
                                        Err(e),
                                    ));
                            }
                            let result: Result<Vec<u8>, FilmError> = Err(e);
                            assert(result->Err_0 == e);
                            return result;
                        },
                    }
                },
            }
        }
        proof {
            assert(old(self).sampler == start);
            assert(old(self).sampler() == start);
            assert(old(self).pulls(samples.len()) == samples);
            assert(old(self).exhausted_after(samples.len()));
            assert(rendered(
                old(self).pulls(samples.len()),
                rays,
                *camera,
                accelerator.primitives(),
                old(film)@,
                film@,
                Ok(()),
            ));
        }
        let image = film.develop();
        Ok(image)
    }
}

} // verus!
