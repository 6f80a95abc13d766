use vstd::prelude::*;

use crate::accelerator::{all_wf, Accelerator};
use crate::camera::Camera;
use crate::film::{Film, FilmError};
use crate::integrator::{rendered, Integrator};
use crate::ray::Ray;
use crate::primitive::Primitive;

verus! {

/// The main runtime manager: it holds the parts of a render and runs it.
pub struct RusTrace<I, C, A, F> {
    integrator: I,
    camera: C,
    accelerator: A,
    film: F,
}

impl<I: Integrator, C: Camera, A, F: Film> RusTrace<I, C, A, F> {
    pub closed spec fn integrator(&self) -> I {
        self.integrator
    }

    pub closed spec fn camera(&self) -> C {
        self.camera
    }

    pub closed spec fn accelerator(&self) -> A {
        self.accelerator
    }

    pub closed spec fn film(&self) -> F {
        self.film
    }

    pub fn new(integrator: I, camera: C, accelerator: A, film: F) -> (r: Self)
        ensures
            r.integrator() == integrator,
            r.camera() == camera,
            r.accelerator() == accelerator,
            r.film() == film,
    {
        Self { integrator, accelerator, camera, film }
    }

    /// Builds the accelerator over `primitives`; the other parts stay.
    pub fn load_primitives<'a, P: Primitive>(&mut self, primitives: &'a Vec<P>)
        where
            A: Accelerator<'a, P>,
        ensures
            final(self).accelerator().primitives() == primitives@,
            final(self).integrator() == old(self).integrator(),
            final(self).camera() == old(self).camera(),
            final(self).film() == old(self).film(),
    {
        self.accelerator.build(primitives)
    }

    /// Renders the scene into the film and returns the developed image.
    pub fn render<'a, P: Primitive>(&mut self) -> (r: Result<Vec<u8>, FilmError>)
        where
            A: Accelerator<'a, P>,
        requires
            old(self).integrator().wf(),
            old(self).camera().wf(),
            all_wf(old(self).accelerator().primitives()),
            old(self).film().wf(),
        ensures
            final(self).integrator().wf(),
            final(self).film().wf(),
            r is Ok ==> final(self).integrator().pending() == 0,
            r is Ok ==> r->Ok_0@ == final(self).film()@.raster(),
            r is Ok ==> exists|n: nat, rays: Seq<Ray>|
                old(self).integrator().exhausted_after(n) && #[trigger] rendered(
                    old(self).integrator().pulls(n),
                    rays,
                    old(self).camera(),
                    old(self).accelerator().primitives(),
                    old(self).film()@,
                    final(self).film()@,
                    Ok(()),
                ),
            r is Err ==> exists|n: nat, rays: Seq<Ray>|
                #[trigger] rendered(
                    old(self).integrator().pulls(n),
                    rays,
                    old(self).camera(),
                    old(self).accelerator().primitives(),
                    old(self).film()@,
                    final(self).film()@,
                    Err(r->Err_0),
                ),
    {
        self.integrator.render(&self.camera, &self.accelerator, &mut self.film)
    }
}

} // verus!
