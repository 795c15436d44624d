//! Sample-by-sample waveform synthesis helpers and a minimal PCM WAVE writer.
//!
//! Verified code cannot hold floating-point values, so every number that is
//! an `f32` to the outside world travels through this crate as a
//! [`Binary32`]: its IEEE 754 bit pattern, read as the exact rational it
//! denotes. [`Binary64`] does the same for an `f64`.
//!
//! - [`sample`] quantizes a sample to 8, 16 or 32-bit PCM.
//! - [`wave`] lays out the 44-byte header and whole files in a byte buffer.
//! - [`oscillator`] decides how many harmonics a band-limited waveform sums
//!   and which level a square wave takes.
//! - [`binary32`], [`binary64`] and [`ieee754`] read bit patterns as values.
//! - [`rounding`], [`dyadic`] and [`bytes`] hold the arithmetic underneath.
pub mod binary32;
pub mod binary64;
pub mod bytes;
pub mod dyadic;
pub mod ieee754;
pub mod oscillator;
pub mod rounding;
pub mod sample;
pub mod wave;

pub use binary32::Binary32;
pub use binary64::Binary64;
pub use ieee754::FloatComponent;
pub use sample::WaveComponent;
pub use wave::MinimalWaveHeader;
pub use wave::WaveError;
