pub mod gpu_texture;
pub mod ranges;
pub mod sort;
pub mod chunk_map;
pub mod scene;
pub mod perf;
pub mod gpu_canvas;
pub mod perf_overlay;
pub mod renderer;
pub mod perf_macro;
