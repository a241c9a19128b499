//! Epicycle animation of closed planar boundary curves.
//!
//! A raw boundary polygon is resampled to a fixed-length closed sequence of
//! points, decomposed into its discrete Fourier spectrum, optionally reduced
//! to its highest-magnitude components, and replayed by a deterministic
//! per-frame engine as a chain of rotating vectors whose tip traces the
//! reconstructed curve.
//!
//! All coordinates are fixed-point integers (see [`complex`]); converting
//! floating-point data to and from units, trigonometry for rotation tables,
//! file formats and rendering belong to the host application.

pub mod complex;
pub mod engine;
pub mod error;
pub mod geo;
pub mod resample;
pub mod spectrum;

pub use complex::Complex;
pub use engine::{CircleDescriptor, EpicycleEngine};
pub use error::Error;
pub use spectrum::{FrequencyComponent, SpectralModel};
