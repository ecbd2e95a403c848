use wgpui::gpu_canvas::{gpu_canvas, stored_index, GpuCanvasSource, ObjectFit};
use wgpui::gpu_texture::{GpuTextureBackend, GpuTextureFormat, GpuTextureHandle, GpuTextureResource};

struct VulkanImage;

impl GpuTextureResource for VulkanImage {
    fn backend(&self) -> GpuTextureBackend {
        GpuTextureBackend::Vulkan
    }
}

fn handle(width: u32, format: GpuTextureFormat) -> GpuTextureHandle {
    GpuTextureHandle::from_resource(GpuTextureBackend::Wgpu, width, 10, format)
}

#[test]
fn texture_sizes_follow_the_format() {
    let rgba = handle(20, GpuTextureFormat::RGBA8);
    assert_eq!(rgba.bytes_per_pixel(), 4);
    assert_eq!(rgba.size_in_bytes(), 800);
    let half = handle(20, GpuTextureFormat::RGBA16F);
    assert_eq!(half.bytes_per_pixel(), 8);
    assert_eq!(half.size_in_bytes(), 1600);
    assert_eq!(handle(3, GpuTextureFormat::BGRA8).size_in_bytes(), 120);
    assert_eq!(rgba.backend(), GpuTextureBackend::Wgpu);
}

#[test]
fn canvas_source_flips_between_two_buffers() {
    let source = GpuCanvasSource::new(1u32, 2u32);
    assert_eq!(*source.active_buffer(), 1);
    source.swap_buffers();
    assert_eq!(*source.active_buffer(), 2);
    source.swap_buffers();
    assert_eq!(*source.active_buffer(), 1);
    source.set_active_buffer(3);
    assert_eq!(*source.active_buffer(), 2);
    source.set_active_buffer(4);
    assert_eq!(*source.active_buffer(), 1);
    let shared = source.clone();
    shared.swap_buffers();
    assert_eq!(*source.active_buffer(), 2);
    assert_eq!(*source.buffer_for_index(7), 2);
    assert_eq!(stored_index(5), 1);
}

#[test]
fn canvas_contains_its_texture_by_default() {
    let canvas = gpu_canvas(GpuCanvasSource::new(handle(1, GpuTextureFormat::RGBA8), handle(2, GpuTextureFormat::RGBA8)));
    assert_eq!(canvas.fit(), ObjectFit::Contain);
    let canvas = canvas.object_fit(ObjectFit::Cover);
    assert_eq!(canvas.fit(), ObjectFit::Cover);
    assert_eq!(canvas.source().active_buffer().width, 1);
}

#[test]
fn handle_records_the_resource_backend() {
    let resource = VulkanImage;
    let handle = GpuTextureHandle::from_resource(resource.backend(), 4, 4, GpuTextureFormat::BGRA8);
    assert_eq!(handle.backend(), GpuTextureBackend::Vulkan);
    assert_eq!(handle.size_in_bytes(), 64);
}
