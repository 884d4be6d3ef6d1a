//! A builder of frame buffers whose type records which parts are set, so that
//! only a builder with every part set can build.

use vstd::prelude::*;
use crate::graphic::{DrawMarker, FrameBuffer, FrameMemory};

verus! {

/// A part of the builder that is not set yet.
pub struct Empty;

/// A part of the builder that is set to the value it holds.
pub struct Assigned<T>(pub T);

/// Parts that can still be set to a `T`.
pub trait Assignable<T> {}

impl<T> Assignable<T> for Empty {}

/// Parts that hold a value.
pub trait HasValue {
    type ValueType;

    /// The value held.
    spec fn held(&self) -> Self::ValueType;

    /// Takes the value held.
    fn value(self) -> (v: Self::ValueType)
        ensures
            v == self.held(),
    ;
}

impl<T> HasValue for Assigned<T> {
    type ValueType = T;

    open spec fn held(&self) -> T {
        self.0
    }

    fn value(self) -> (v: T) {
        self.0
    }
}

/// The parts of a frame buffer, each either `Empty` or `Assigned`.
pub struct FrameBufferBuilder<F1, F2, F3, F4, F5, F6> {
    pub drawer: F1,
    pub buf: F2,
    pub width: F3,
    pub height: F4,
    pub stride: F5,
    pub marker: F6,
}

impl FrameBufferBuilder<Empty, Empty, Empty, Empty, Empty, Empty> {
    /// A builder with no part set.
    pub fn new() -> Self {
        FrameBufferBuilder {
            drawer: Empty,
            buf: Empty,
            width: Empty,
            height: Empty,
            stride: Empty,
            marker: Empty,
        }
    }
}

impl<F1, F2, F3, F4, F5, F6> FrameBufferBuilder<F1, F2, F3, F4, F5, F6> {
    /// The frame buffer of the parts set.
    pub fn build<T>(self) -> (fb: FrameBuffer<T>) where
        T: DrawMarker,
        F1: HasValue<ValueType = T::Drawer>,
        F2: HasValue<ValueType = FrameMemory>,
        F3: HasValue<ValueType = usize>,
        F4: HasValue<ValueType = usize>,
        F5: HasValue<ValueType = usize>,
        F6: HasValue<ValueType = T>,

        ensures
            fb.drawer == self.drawer.held(),
            fb.buf == self.buf.held(),
            fb.width == self.width.held(),
            fb.height == self.height.held(),
            fb.stride == self.stride.held(),
    {
        FrameBuffer {
            drawer: self.drawer.value(),
            buf: self.buf.value(),
            width: self.width.value(),
            height: self.height.value(),
            stride: self.stride.value(),
        }
    }

    /// Sets the memory of the frame buffer.
    pub fn buf(self, buf: FrameMemory) -> (b: FrameBufferBuilder<
        F1,
        Assigned<FrameMemory>,
        F3,
        F4,
        F5,
        F6,
    >) where F2: Assignable<FrameMemory>
        ensures
            b.buf.0 == buf,
    {
        FrameBufferBuilder {
            drawer: self.drawer,
            buf: Assigned(buf),
            width: self.width,
            height: self.height,
            stride: self.stride,
            marker: self.marker,
        }
    }

    /// Sets the width of the frame buffer.
    pub fn width(self, width: usize) -> (b: FrameBufferBuilder<
        F1,
        F2,
        Assigned<usize>,
        F4,
        F5,
        F6,
    >) where F3: Assignable<usize>
        ensures
            b.width.0 == width,
    {
        FrameBufferBuilder {
            drawer: self.drawer,
            buf: self.buf,
            width: Assigned(width),
            height: self.height,
            stride: self.stride,
            marker: self.marker,
        }
    }

    /// Sets the height of the frame buffer.
    pub fn height(self, height: usize) -> (b: FrameBufferBuilder<
        F1,
        F2,
        F3,
        Assigned<usize>,
        F5,
        F6,
    >) where F4: Assignable<usize>
        ensures
            b.height.0 == height,
    {
        FrameBufferBuilder {
            drawer: self.drawer,
            buf: self.buf,
            width: self.width,
            height: Assigned(height),
            stride: self.stride,
            marker: self.marker,
        }
    }

    /// Sets the stride of the frame buffer.
    pub fn stride(self, stride: usize) -> (b: FrameBufferBuilder<
        F1,
        F2,
        F3,
        F4,
        Assigned<usize>,
        F6,
    >) where F5: Assignable<usize>
        ensures
            b.stride.0 == stride,
    {
        FrameBufferBuilder {
            drawer: self.drawer,
            buf: self.buf,
            width: self.width,
            height: self.height,
            stride: Assigned(stride),
            marker: self.marker,
        }
    }

    /// Chooses the drawing by its marker.
    pub fn marker<T>(self, marker: T) -> (b: FrameBufferBuilder<
        F1,
        F2,
        F3,
        F4,
        F5,
        Assigned<T>,
    >) where T: DrawMarker, F6: Assignable<T>
        ensures
            b.marker.0 == marker,
    {
        FrameBufferBuilder {
            drawer: self.drawer,
            buf: self.buf,
            width: self.width,
            height: self.height,
            stride: self.stride,
            marker: Assigned(marker),
        }
    }
}

impl<F2, F3, F4, F5, T: DrawMarker> FrameBufferBuilder<Empty, F2, F3, F4, F5, Assigned<T>> {
    /// Sets the drawer, of the kind that the chosen marker asks for.
    pub fn drawer(self, drawer: T::Drawer) -> (b: FrameBufferBuilder<
        Assigned<T::Drawer>,
        F2,
        F3,
        F4,
        F5,
        Assigned<T>,
    >)
        ensures
            b.drawer.0 == drawer,
    {
        FrameBufferBuilder {
            drawer: Assigned(drawer),
            buf: self.buf,
            width: self.width,
            height: self.height,
            stride: self.stride,
            marker: self.marker,
        }
    }
}

} // verus!
