//! Batch image-to-WebP conversion library.
//!
//! The verified core of a command-line utility that converts images to the
//! WebP format: path classification helpers, candidate discovery filtering,
//! batch planning, per-file conversion built around an external decoder, and
//! statistics accumulation.

pub mod converter;
pub mod error;
pub mod utils;
