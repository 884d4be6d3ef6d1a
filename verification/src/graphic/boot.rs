//! The frame buffer configuration in its plain form: the pixel format as its
//! number.

use vstd::prelude::*;

verus! {

/// The frame buffer: pixel format number, base address and geometry.
#[derive(Debug)]
pub struct FrameBufConf {
    pub pixel_format: u8,
    pub base: usize,
    pub width: usize,
    pub height: usize,
    pub stride: usize,
}

impl FrameBufConf {
    pub fn new(pixel_format: u8, base: usize, width: usize, height: usize, stride: usize) -> (c:
        FrameBufConf)
        ensures
            c.pixel_format == pixel_format,
            c.base == base,
            c.width == width,
            c.height == height,
            c.stride == stride,
    {
        FrameBufConf { pixel_format, base, width, height, stride }
    }
}

} // verus!
