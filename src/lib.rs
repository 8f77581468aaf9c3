//! Spatial filters over 2D scalar fields: padding, direct and Fourier-domain
//! convolution, and the radix-2 transform they rest on.
//!
//! Every routine is generic over the sample type: [`sample::Sample`] for real
//! samples and [`dft::Spectral`] for complex ones. The library implements
//! `Sample` for `i64` with wrapping arithmetic, and both traits for
//! [`residue::Residue`], integers modulo a prime on which the transform is
//! exact; a caller that works in floating point supplies its own sample types.

mod error;
pub mod field;
pub mod sample;
pub mod padding;
pub mod convolve;
pub mod dft;
pub mod pooling;
pub mod residue;
pub mod prelude;

pub use error::Error;
