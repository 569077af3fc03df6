//! A recursive Monte Carlo path tracer for scenes of spheres, verified with
//! Verus.
//!
//! The tracer computes in fixed-point arithmetic, so that every operation
//! is total, exact to state and free of overflow.  The modules, from the
//! leaves up:
//!
//! - [`fixed`]: fixed-point scalars and the arithmetic on them;
//! - [`order`]: their order;
//! - [`vec3`]: vectors, their algebra and the random samplers;
//! - [`ray`]: rays;
//! - [`hittable`]: hit records, the surface trait and collections of
//!   surfaces, with the proof that a collection reports the nearest hit;
//! - [`sphere`]: the sphere;
//! - [`material`]: the diffuse, metallic and dielectric materials;
//! - [`camera`]: the thin-lens camera;
//! - [`render`]: the radiance integrator and the sampling of pixels;
//! - [`color`]: the encoding of colours as text;
//! - [`accuracy`]: bounds on the rounding error of normalisation,
//!   reflection and refraction.
//!
//! Randomness comes from the thread-local generator of the `rand` crate.
//! What is done with a drawn value is fixed by a companion that takes the
//! value as an argument and is an exact function of its inputs:
//!
//! | draws | companion |
//! |---|---|
//! | `vec3::random_f64` | `vec3::unit_sample` |
//! | `vec3::random_range` | `vec3::range_at` |
//! | `Vec3::random_in_unit_sphere`, `Vec3::random_in_unit_disk` | `Vec3::first_in_unit_ball` |
//! | `Lambertian::scatter`, `Metal::scatter`, `Dielectric::scatter`, `Material::scatter` | the `scatter_with` of each |
//! | `Camera::get_ray` | `Camera::get_ray_with` |
//! | `render::ray_color` | `render::ray_color_with` |
//!
//! The other functions that draw have none of their own.  `Vec3::random`,
//! `Vec3::random_range` and `Vec3::random_in_hemishpere` put three draws
//! into a vector.  `Vec3::random_unit_vector` normalises a sample of the
//! ball, and `on_unit_sphere` states that map.  `render::sample_pixel` and
//! `render::pixel_color` pass their draws to `image_coordinate`,
//! `get_ray_with` and `ray_color`, and state their outcomes over them.
pub mod accuracy;
pub mod camera;
pub mod color;
pub mod fixed;
pub mod hittable;
pub mod material;
pub mod order;
pub mod ray;
pub mod render;
pub mod sphere;
pub mod vec3;
