//! A small offline ray tracer on integer lattice geometry: rays are cast
//! through a scene of spheres, the closest hit along each ray decides a
//! sample's color, and a film averages the samples into an image.

pub mod math;
pub mod vector;
pub mod ray;
pub mod interaction;
pub mod material;
pub mod primitive;
pub mod sphere;
pub mod accelerator;
pub mod simple_list;
pub mod sample;
pub mod sampler;
pub mod perfect_square_sampler;
pub mod film;
pub mod png_film;
pub mod camera;
pub mod perspective_camera;
pub mod integrator;
pub mod sampler_integrator;
pub mod rustrace;
pub mod bounds;
