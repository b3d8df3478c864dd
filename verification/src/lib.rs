//! A Monte-Carlo path tracer in fixed-point arithmetic.
//!
//! A picture is made by sending rays from a [`camera::Camera`] into a scene
//! of spheres ([`hitable`]), letting them bounce off the spheres' materials
//! ([`material`]) until they leave for the sky or have bounced often enough
//! ([`tracer::color`]), and averaging several rays for each pixel
//! ([`tracer::render`]).
//!
//! Numbers are fixed-point ([`scalar::Real`]), so every result is exact and
//! reproducible, and random numbers come from a [`sampler::Sampler`], whose
//! draws are a function of its seed, stream and counter. A render is
//! therefore a function of its arguments. How far the rounding of
//! fixed-point arithmetic moves a hit from its sphere is bounded in
//! [`accuracy`].
pub mod accuracy;
pub mod camera;
pub mod hitable;
pub mod material;
pub mod ray;
pub mod sampler;
pub mod scalar;
pub mod scene;
pub mod tracer;
pub mod vec3;
