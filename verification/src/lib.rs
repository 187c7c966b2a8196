//! Exact core of a relativistic colour shift for RGBA rasters.
//!
//! The real-valued side of the simulation (spectra, quadrature sums, the
//! velocity-dependent matrix and the gamma curve) is carried out by the
//! caller and reaches this crate as a per-pixel kernel on 8-bit channels.
//! What is fixed and proved here is everything that is exact: which buffers
//! are accepted, which bytes a pass may touch and what each of them becomes,
//! at which wavelengths the spectra are sampled, and the digits of the sRGB
//! primaries together with how nearly they invert one another.
pub mod convert;
pub mod error;
pub mod pixels;
pub mod quadrature;
pub mod xyz;
