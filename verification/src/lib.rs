//! A streaming pitch shifter built on overlapping windowed frames: samples are
//! collected into half-overlapping blocks, each block is taken to the frequency
//! domain, its bins are moved by the shift factor, and the result is brought
//! back and overlap-added into the output stream.
//!
//! Every value that stands for a real number is carried as its IEEE 754 bit
//! pattern: samples as single-precision bits in a `u32`, window weights and
//! spectrum components as double-precision bits in a `u64`. The library decides
//! where each value goes; the arithmetic on the values is supplied by the
//! caller through [`kernel::Arithmetic`].

use vstd::prelude::*;

pub mod bin;
pub mod error;
pub mod factor;
pub mod kernel;
pub mod model;
pub mod processor;
pub mod silence;

pub use bin::Bin;
pub use error::Error;
pub use factor::ShiftFactor;
pub use kernel::Arithmetic;
pub use processor::Processor;

verus! {

/// The number of samples in a frame, and of bins in a spectrum.
pub const FFT_SIZE: usize = 4096;

/// The index of the Nyquist bin, and the distance between two frames.
pub const HALF_SIZE: usize = 2048;

} // verus!
