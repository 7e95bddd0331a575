//! Fixed-size EMF structures: `RECTL`, `SIZEL` and the `EMR_HEADER` fields.

use vstd::prelude::*;

verus! {

/// `RECTL`: a rectangle in logical units.
#[derive(Debug, Clone, Copy, PartialEq, Eq)]
pub struct RectL {
    pub left: i32,
    pub top: i32,
    pub right: i32,
    pub bottom: i32,
}

/// `SIZEL`: a width and height.
#[derive(Debug, Clone, Copy, PartialEq, Eq)]
pub struct SizeL {
    pub cx: i32,
    pub cy: i32,
}

/// `HeaderExtension1`: pixel format and OpenGL use.
#[derive(Debug, Clone, Copy, PartialEq, Eq)]
pub struct HeaderExt1 {
    pub cb_pixel_format: u32,
    pub off_pixel_format: u32,
    pub b_open_gl: u32,
}

/// `HeaderExtension2`: the reference device size in micrometers.
#[derive(Debug, Clone, Copy, PartialEq, Eq)]
pub struct HeaderExt2 {
    pub micrometers_x: u32,
    pub micrometers_y: u32,
}

/// The decoded `EMR_HEADER` record.
#[derive(Debug, Clone, Copy, PartialEq, Eq)]
pub struct Header {
    pub bounds: RectL,
    pub frame: RectL,
    pub signature: u32,
    pub version: u32,
    pub bytes: u32,
    pub records: u32,
    pub handles: u16,
    pub reserved: u16,
    pub n_description: u32,
    pub off_description: u32,
    pub n_pal_entries: u32,
    pub device: SizeL,
    pub millimeters: SizeL,
    pub ext1: Option<HeaderExt1>,
    pub ext2: Option<HeaderExt2>,
}

} // verus!
