//! Ordered (Bayer-matrix) dithering of RGBA images, with the viewport
//! geometry and input-handling rules of an interactive two-tone previewer.
//!
//! The library is pure and exact: it works on plain pixel buffers, keeps
//! every threshold as a rational held in integers, and states what each
//! step computes. Decoding, encoding and the window live outside it.
//!
//! - [`img`]: the RGBA image type and its buffer layout.
//! - [`bits`]: the bit permutations behind the threshold matrices.
//! - [`kernel`]: the 2x2, 4x4 and 8x8 Bayer matrices and their lookup.
//! - [`dither`]: the per-pixel thresholding engine and its laws.
//! - [`viewport`]: viewer state and input-to-state transitions.
//! - [`crop`]: zoom-driven crop geometry and nearest-neighbor resampling.
//! - [`frame`]: the per-frame crop, resample and dither pipeline.

pub mod bits;
pub mod crop;
pub mod dither;
pub mod frame;
pub mod img;
pub mod kernel;
pub mod viewport;
