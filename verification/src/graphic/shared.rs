//! The frame buffer configuration shared between the loader and the kernel.

use vstd::prelude::*;

verus! {

/// How the pixels of a frame buffer are laid out.
#[derive(Debug, PartialEq, Eq, Structural, Clone, Copy)]
pub enum PixelFormatConf {
    Rgb,
    Bgr,
    Bitmask,
    BltOnly,
}

/// The frame buffer handed to the kernel. `base` is the address of its first byte.
#[derive(Debug)]
pub struct FrameBufConf {
    pub pixel_format: PixelFormatConf,
    pub base: usize,
    pub size: usize,
    pub width: usize,
    pub height: usize,
    pub stride: usize,
}

impl FrameBufConf {
    pub fn new(
        pixel_format: PixelFormatConf,
        base: usize,
        size: usize,
        width: usize,
        height: usize,
        stride: usize,
    ) -> (c: FrameBufConf)
        ensures
            c.pixel_format == pixel_format,
            c.base == base,
            c.size == size,
            c.width == width,
            c.height == height,
            c.stride == stride,
    {
        FrameBufConf { pixel_format, size, base, width, height, stride }
    }
}

} // verus!
