//! A double-buffered source of externally rendered GPU textures, and the
//! canvas element that shows its active buffer.
//!
//! The index of the active buffer lives in an atomic shared by every clone of
//! the source, so a producer on another thread can flip it while the canvas
//! reads it. Its value is not tracked here: a read may observe any value, and
//! the buffer chosen from it is always one of the two.

use std::sync::atomic::{AtomicUsize, Ordering};
use std::sync::Arc;
use vstd::prelude::*;

verus! {

/// How content is fitted into the bounds of the element that shows it.
#[derive(Clone, Copy, Debug, PartialEq, Eq, Structural)]
pub enum ObjectFit {
    /// Stretch to fill the bounds, ignoring the aspect ratio.
    Fill,
    /// Scale to fit within the bounds, keeping the aspect ratio.
    Contain,
    /// Scale to cover the bounds, keeping the aspect ratio.
    Cover,
    /// As `Contain`, but never scale up.
    ScaleDown,
    /// Keep the content's own size.
    Unscaled,
}

/// Double-buffered GPU texture source for external GPU content.
#[derive(Clone)]
pub struct GpuCanvasSource<H> {
    active_buffer: Arc<AtomicUsize>,
    buffers: [H; 2],
}

impl<H> GpuCanvasSource<H> {
    /// Buffer `i` of the source (0 or 1).
    pub closed spec fn buffer(&self, i: int) -> H {
        self.buffers@[i]
    }

    /// The buffer selected by a raw value of the active-buffer index.
    pub open spec fn selected(&self, raw_index: usize) -> H {
        self.buffer((raw_index % 2) as int)
    }

    /// Create a new double-buffered GPU canvas source; buffer 0 is active.
    pub fn new(buffer0: H, buffer1: H) -> (source: Self)
        ensures
            source.buffer(0) == buffer0,
            source.buffer(1) == buffer1,
    {
        GpuCanvasSource { active_buffer: Arc::new(AtomicUsize::new(0)), buffers: [buffer0, buffer1] }
    }

    /// The buffer that a raw value of the active-buffer index designates.
    pub fn buffer_for_index(&self, raw_index: usize) -> (buffer: &H)
        ensures
            *buffer == self.selected(raw_index),
    {
        &self.buffers[raw_index % 2]
    }

    /// Get the currently active buffer for reading.
    pub fn active_buffer(&self) -> (buffer: &H)
        ensures
            *buffer == self.buffer(0) || *buffer == self.buffer(1),
    {
        let raw_index = self.active_buffer.load(Ordering::Acquire);
        self.buffer_for_index(raw_index)
    }

    /// Swap to the other buffer.
    pub fn swap_buffers(&self) {
        self.active_buffer.fetch_xor(1, Ordering::Release);
    }

    /// Set the active buffer index directly; indices wrap around the two
    /// buffers.
    pub fn set_active_buffer(&self, index: usize) {
        self.active_buffer.store(stored_index(index), Ordering::Release);
    }
}

/// The value stored for a requested active-buffer index.
pub fn stored_index(index: usize) -> (stored: usize)
    ensures
        stored == index % 2,
        stored < 2,
{
    index % 2
}

/// A GPU canvas element for external GPU content.
pub struct GpuCanvas<H> {
    source: GpuCanvasSource<H>,
    object_fit: ObjectFit,
}

impl<H> GpuCanvas<H> {
    /// The texture source the canvas shows.
    pub closed spec fn spec_source(&self) -> GpuCanvasSource<H> {
        self.source
    }

    /// How the texture is fitted into the canvas bounds.
    pub closed spec fn spec_object_fit(&self) -> ObjectFit {
        self.object_fit
    }

    /// Set how the GPU texture should fit within the element bounds.
    pub fn object_fit(self, object_fit: ObjectFit) -> (canvas: Self)
        ensures
            canvas.spec_object_fit() == object_fit,
            canvas.spec_source() == self.spec_source(),
    {
        let mut canvas = self;
        canvas.object_fit = object_fit;
        canvas
    }

    /// The texture source the canvas shows.
    pub fn source(&self) -> (source: &GpuCanvasSource<H>)
        ensures
            *source == self.spec_source(),
    {
        &self.source
    }

    /// How the texture is fitted into the canvas bounds.
    pub fn fit(&self) -> (object_fit: ObjectFit)
        ensures
            object_fit == self.spec_object_fit(),
    {
        self.object_fit
    }
}

/// Create a new GPU canvas element with the given texture source; the texture
/// is contained within the element's bounds.
pub fn gpu_canvas<H>(source: GpuCanvasSource<H>) -> (canvas: GpuCanvas<H>)
    ensures
        canvas.spec_source() == source,
        canvas.spec_object_fit() == ObjectFit::Contain,
{
    GpuCanvas { source, object_fit: ObjectFit::Contain }
}

} // verus!
