//! Core of a thermochromic-liquid-crystal (TLC) heat-transfer reduction
//! pipeline: per-pixel green-intensity extraction from decoded video frames,
//! temporal filtering, peak detection, spatial interpolation of reference
//! thermocouple temperatures, and the bookkeeping around the per-pixel
//! inverse-conduction solve, together with the derived-data cache that
//! invalidates downstream results when configuration changes.
//!
//! Floating-point kernels (wavelet transform, the interpolation blend, the
//! Newton iterations themselves) run outside this crate; this crate decides
//! which values they combine and proves the integer and structural logic:
//! addressing, bracketing, windowing, invalidation, and the text codec.

pub mod codec;
pub mod config;
pub mod data;
pub mod error;
pub mod filter;
pub mod interp;
pub mod peak;
pub mod solve;
pub mod video;
pub mod matrix;
