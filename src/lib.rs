//! Core of an animated GIF encoder: frame preprocessing, inter-frame
//! analysis, palette clean-up, row trimming and frame timing.

pub mod alpha;
pub mod diff;
pub mod error;
pub mod ordqueue;
pub mod pixel;
pub mod quant;
pub mod remap;
pub mod settings;
pub mod timing;
