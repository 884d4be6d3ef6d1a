//! Frame buffer configuration and drawing: the pixel formats the firmware
//! reports, the configuration handed from the loader to the kernel, and the
//! frame buffer that pixels are drawn into.

pub mod builder;
pub mod shared;
pub mod boot;

use vstd::prelude::*;

verus! {

/// How the pixels of a frame buffer are laid out.
#[derive(Debug, PartialEq, Eq, Structural, Clone, Copy)]
pub enum PixelFormat {
    Rgb,
    Bgr,
    Bitmask,
    BltOnly,
}

/// The frame buffer as the firmware describes it. `base` is the address of
/// its first byte.
#[derive(Debug)]
pub struct FrameBufConf {
    pub pixel_format: PixelFormat,
    pub base: usize,
    pub size: usize,
    pub width: usize,
    pub height: usize,
    pub stride: usize,
}

impl FrameBufConf {
    pub fn new(
        pixel_format: PixelFormat,
        base: usize,
        size: usize,
        width: usize,
        height: usize,
        stride: usize,
    ) -> (c: FrameBufConf)
        ensures
            c.pixel_format == pixel_format,
            c.base == base,
            c.size == size,
            c.width == width,
            c.height == height,
            c.stride == stride,
    {
        FrameBufConf { pixel_format, size, base, width, height, stride }
    }
}

/// A way of drawing pixels, named after its pixel format.
pub trait Draw {
    /// The name of the pixel format.
    spec fn format_name(&self) -> Seq<char>;

    /// The name of the pixel format.
    fn draw_type(&self) -> (t: &str)
        ensures
            t@ == self.format_name(),
    ;
}

/// Drawing for red-green-blue pixels.
pub struct Rgb;

/// Drawing for blue-green-red pixels.
pub struct Bgr;

/// Drawing for pixels described by bit masks.
pub struct Bitmask;

/// Drawing through block transfers only.
pub struct BltOnly;

impl Draw for Rgb {
    open spec fn format_name(&self) -> Seq<char> {
        "Rgb"@
    }

    fn draw_type(&self) -> (t: &str) {
        "Rgb"
    }
}

impl Draw for Bgr {
    open spec fn format_name(&self) -> Seq<char> {
        "Bgr"@
    }

    fn draw_type(&self) -> (t: &str) {
        "Bgr"
    }
}

impl Draw for Bitmask {
    open spec fn format_name(&self) -> Seq<char> {
        "Bitmask"@
    }

    fn draw_type(&self) -> (t: &str) {
        "Bitmask"
    }
}

impl Draw for BltOnly {
    open spec fn format_name(&self) -> Seq<char> {
        "BltOnly"@
    }

    fn draw_type(&self) -> (t: &str) {
        "BltOnly"
    }
}

/// A pixel position: column `x`, row `y`.
#[derive(Debug, PartialEq, Eq, Structural, Clone, Copy)]
pub struct Coord {
    pub x: usize,
    pub y: usize,
}

/// A pixel color.
#[derive(Debug, PartialEq, Eq, Structural, Clone, Copy)]
pub struct Color {
    pub red: u8,
    pub green: u8,
    pub blue: u8,
}

/// A marker type that selects the drawer of a frame buffer.
pub trait DrawMarker {
    type Drawer;
}

/// Where the bytes of a frame buffer are: the address of the first one and
/// their number.
#[derive(Debug, PartialEq, Eq, Structural, Clone, Copy)]
pub struct FrameMemory {
    pub base: usize,
    pub size: usize,
}

/// A frame buffer: the drawer of its pixel format, its memory and its geometry.
pub struct FrameBuffer<T: DrawMarker> {
    pub drawer: T::Drawer,
    pub buf: FrameMemory,
    pub width: usize,
    pub height: usize,
    pub stride: usize,
}

impl<T: DrawMarker> FrameBuffer<T> {
    /// The frame buffer that `conf` describes, drawn by `drawer`.
    pub fn new(drawer: T::Drawer, conf: FrameBufConf) -> (fb: FrameBuffer<T>)
        ensures
            fb.drawer == drawer,
            fb.buf == (FrameMemory { base: conf.base, size: conf.size }),
            fb.width == conf.width,
            fb.height == conf.height,
            fb.stride == conf.stride,
    {
        FrameBuffer {
            drawer,
            buf: FrameMemory { base: conf.base, size: conf.size },
            width: conf.width,
            height: conf.height,
            stride: conf.stride,
        }
    }

    /// Drawing a single pixel is not supported by this frame buffer: the call
    /// leaves everything as it is.
    pub fn put_pixel(coord: &Coord, color: &Color) {
    }
}

} // verus!
