//! A small CPU path tracer over fixed-point scalars.
//!
//! The renderer works on a deterministic fixed-point number grid: a scalar
//! is an `i128` holding the underlying real value times `fx::SCALE`.  Every
//! arithmetic step (including square roots and divisions) is defined exactly
//! by a specification function, so the whole pipeline — camera ray
//! generation, ray–sphere intersection, material scattering, the recursive
//! integrator and the gamma/clamp output conversion — is proved to compute
//! exactly its mathematical model, and a render is a pure function of the
//! scene, the camera and the sampler seed.

pub mod camera;
pub mod color;
pub mod fx;
pub mod image;
pub mod interval;
pub mod material;
pub mod ray;
pub mod sampler;
pub mod util;
pub mod vec3;
