//! Rendering helpers that are plain text or byte logic.

pub mod svg_fragment;
pub mod skia;
