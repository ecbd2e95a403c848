use vstd::prelude::*;

verus! {

/// Backend that owns an external GPU texture resource.
#[derive(Clone, Copy, Debug, PartialEq, Eq, Structural)]
pub enum GpuTextureBackend {
    /// A `wgpu` texture view.
    Wgpu,
    /// A Metal texture.
    Metal,
    /// A Direct3D texture.
    Direct3D,
    /// A Vulkan image.
    Vulkan,
}

/// GPU texture format for external texture embedding.
#[derive(Clone, Copy, Debug, PartialEq, Eq, Structural)]
pub enum GpuTextureFormat {
    /// 8-bit RGBA.
    RGBA8,
    /// 8-bit BGRA.
    BGRA8,
    /// 16-bit float RGBA.
    RGBA16F,
}

/// Type-erased backend texture resource.
pub trait GpuTextureResource: Send + Sync {
    /// Backend kind for the resource.
    fn backend(&self) -> GpuTextureBackend;
}

/// Universal GPU texture handle for external texture embedding, described by
/// the backend that owns its resource and the texture's dimensions and format.
#[derive(Clone, Copy, Debug, PartialEq, Eq, Structural)]
pub struct GpuTextureHandle {
    /// Backend that owns the texture resource.
    pub backend: GpuTextureBackend,
    /// Width of the texture in pixels.
    pub width: u32,
    /// Height of the texture in pixels.
    pub height: u32,
    /// Texture format.
    pub format: GpuTextureFormat,
}

impl GpuTextureFormat {
    /// Size in bytes of one pixel of this format.
    pub open spec fn spec_bytes_per_pixel(self) -> nat {
        match self {
            GpuTextureFormat::RGBA8 | GpuTextureFormat::BGRA8 => 4,
            GpuTextureFormat::RGBA16F => 8,
        }
    }
}

impl GpuTextureHandle {
    /// Create a GPU texture handle for a resource owned by `backend`.
    pub fn from_resource(
        backend: GpuTextureBackend,
        width: u32,
        height: u32,
        format: GpuTextureFormat,
    ) -> (handle: Self)
        ensures
            handle.backend == backend,
            handle.width == width,
            handle.height == height,
            handle.format == format,
    {
        GpuTextureHandle { backend, width, height, format }
    }

    /// Return the backend that owns this texture resource.
    pub fn backend(&self) -> (backend: GpuTextureBackend)
        ensures
            backend == self.backend,
    {
        self.backend
    }

    /// Get the size in bytes of a single pixel for this format.
    pub fn bytes_per_pixel(&self) -> (bpp: u32)
        ensures
            bpp == self.format.spec_bytes_per_pixel(),
    {
        match self.format {
            GpuTextureFormat::RGBA8 | GpuTextureFormat::BGRA8 => 4,
            GpuTextureFormat::RGBA16F => 8,
        }
    }

    /// Get the total size in bytes of the texture.
    pub fn size_in_bytes(&self) -> (size: usize)
        requires
            self.width * self.height * self.format.spec_bytes_per_pixel() <= usize::MAX,
        ensures
            size == self.width * self.height * self.format.spec_bytes_per_pixel(),
    {
        let bpp = self.bytes_per_pixel();
        let w = self.width as usize;
        let h = self.height as usize;
        assert(w * h <= w * h * bpp) by (nonlinear_arith)
            requires bpp >= 1, w >= 0, h >= 0;
        assert(w * h * bpp == self.width * self.height * self.format.spec_bytes_per_pixel());
        w * h * (bpp as usize)
    }
}

} // verus!
