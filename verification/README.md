# wgpui

The scene and frame bookkeeping of a GPU-accelerated UI renderer, verified
with Verus.

- `src/scene.rs` and `src/scene/`: the primitives of a frame, the per-view
  chunks that record what changed, sorting into drawing order, and batching
  into draw calls.
- `src/ranges.rs`, `src/sort.rs`: merging of changed index ranges and the
  stable sort used for drawing order.
- `src/renderer.rs` and `src/renderer/`: the renderer's per-frame decisions
  (skip, recover, redraw), surface sizing, statistics, and the bookkeeping of
  the GPU instance buffers.
- `src/perf.rs`, `src/perf_macro.rs`, `src/perf_overlay.rs`: frame metrics and
  the rules of the `#[perf]` test attribute.
- `src/gpu_texture.rs`, `src/gpu_canvas.rs`: external GPU textures and the
  double-buffered canvas that shows them.
- `app/`: GPU buffer glue over `wgpu`, token-stream code generation, display
  and serialization forms, and the float-based overlay text.
