use wgpui::perf::PrimitiveCounts;
use wgpui::renderer::buffers::{
    binding_size, compact_persistent_instances, grown_capacity_for, next_multiple_of,
    upload_persistent_instances, InstanceBufferState, InstanceUpload, PersistentBufferState,
    PersistentBuffersState,
};
use wgpui::renderer::{
    frame_step, plan_pipelines, AcquireAction, FramePlan, PassAction, SurfaceAcquire,
    add_primitive_count, count_batch, pick_preferred, full_redraw_needed, path_sample_count, FrameStart,
    GpuFrameStats, RendererState,
};
use wgpui::scene::PrimitiveBatch;

#[test]
fn grown_capacity_doubles_with_a_floor() {
    assert_eq!(grown_capacity_for(0), 4096);
    assert_eq!(grown_capacity_for(2047), 4096);
    assert_eq!(grown_capacity_for(3000), 6000);
    assert_eq!(grown_capacity_for(usize::MAX / 2 + 1), usize::MAX);
}

#[test]
fn full_upload_reallocates_only_when_data_does_not_fit() {
    let mut buffer = PersistentBufferState::new(1000);
    assert!(!buffer.upload_full(800));
    assert_eq!(buffer.capacity, 1000);
    assert!(!buffer.upload_full(300));
    assert_eq!(buffer.fragmentation_bytes, 500);
    assert!(buffer.upload_full(5000));
    assert_eq!(buffer.capacity, 10000);
    assert_eq!(buffer.len, 5000);
    assert_eq!(buffer.fragmentation_bytes, 0);
    buffer.compact(10);
    assert_eq!(buffer, PersistentBufferState { capacity: 4096, len: 10, fragmentation_bytes: 0 });
}

#[test]
fn range_uploads_are_clipped_and_filtered() {
    let buffer = PersistentBufferState::new(80);
    let uploads = buffer.upload_ranges(100, &[0..2, 3..3, 5..9, 20..30, 12..40], 8);
    // 20..30 starts past the data; 12..40 ends past the buffer
    assert_eq!(uploads.writes, vec![0..16, 40..72]);
    assert_eq!(uploads.bytes, 48);
    let small = PersistentBufferState::new(64);
    assert_eq!(small.upload_ranges(100, &[5..9], 8).writes, vec![]);
}

#[test]
fn instance_upload_plans_full_or_partial_writes() {
    let mut buffer = PersistentBufferState::new(64);
    let mut last_len = 0usize;
    let mut bytes = 0usize;
    let mut count = 0u32;
    match upload_persistent_instances(&mut buffer, &mut last_len, 4, 8, &[], false, &mut bytes, &mut count) {
        InstanceUpload::Full { reallocated } => assert!(!reallocated),
        _ => panic!("expected a full upload"),
    }
    assert_eq!((last_len, bytes, count), (4, 32, 1));

    match upload_persistent_instances(&mut buffer, &mut last_len, 4, 8, &[1..2, 3..4], true, &mut bytes, &mut count) {
        InstanceUpload::Ranges(writes) => assert_eq!(writes, vec![8..16, 24..32]),
        _ => panic!("expected a partial upload"),
    }
    assert_eq!((bytes, count), (48, 3));

    assert!(matches!(
        upload_persistent_instances(&mut buffer, &mut last_len, 4, 8, &[], false, &mut bytes, &mut count),
        InstanceUpload::Unchanged
    ));
    match upload_persistent_instances(&mut buffer, &mut last_len, 4, 8, &[], true, &mut bytes, &mut count) {
        InstanceUpload::Full { reallocated } => assert!(!reallocated),
        _ => panic!("expected a full upload"),
    }
    match upload_persistent_instances(&mut buffer, &mut last_len, 20, 8, &[0..1], false, &mut bytes, &mut count) {
        InstanceUpload::Full { reallocated } => assert!(reallocated),
        _ => panic!("expected a full upload"),
    }
    assert_eq!(buffer.capacity, 4096);
    assert_eq!(last_len, 20);
}

#[test]
fn compaction_happens_only_when_asked() {
    let mut buffer = PersistentBufferState { capacity: 100, len: 10, fragmentation_bytes: 50 };
    let mut bytes = 0usize;
    let mut count = 0u32;
    assert!(!compact_persistent_instances(&mut buffer, 10, false, &mut bytes, &mut count));
    assert_eq!(buffer.fragmentation_bytes, 50);
    assert!(compact_persistent_instances(&mut buffer, 10, true, &mut bytes, &mut count));
    assert_eq!(buffer, PersistentBufferState { capacity: 4096, len: 10, fragmentation_bytes: 0 });
    assert_eq!((bytes, count), (10, 1));
}

#[test]
fn instance_writes_are_aligned_and_bounded() {
    assert_eq!(next_multiple_of(0, 256), 0);
    assert_eq!(next_multiple_of(1, 256), 256);
    assert_eq!(next_multiple_of(512, 256), 512);
    assert_eq!(binding_size(3), 16);
    assert_eq!(binding_size(40), 40);

    let state = InstanceBufferState { capacity: 600, max_buffer_size: 2400, storage_buffer_alignment: 256 };
    let mut offset = 0u64;
    let mut bytes = 0usize;
    let mut count = 0u32;
    assert_eq!(state.write_to_instance_buffer(&mut offset, 10, &mut bytes, &mut count), Some((0, 16)));
    assert_eq!(offset, 16);
    assert_eq!(state.write_to_instance_buffer(&mut offset, 300, &mut bytes, &mut count), Some((256, 300)));
    assert_eq!(offset, 556);
    assert_eq!(state.write_to_instance_buffer(&mut offset, 1, &mut bytes, &mut count), None);
    assert_eq!(offset, 556);
    assert_eq!((bytes, count), (310, 2));

    let mut state = state;
    assert!(!state.at_max_size());
    state.grow();
    assert_eq!(state.capacity, 1200);
    state.grow();
    assert_eq!(state.capacity, 2400);
    assert!(state.at_max_size());
    state.grow();
    assert_eq!(state.capacity, 2400);
}

#[test]
fn frames_recover_after_six_consecutive_failures() {
    let mut state = RendererState::new(800, 600, 4096);
    for _ in 0..5 {
        assert_eq!(state.begin_frame(true, false), FrameStart::Draw { full_redraw: true });
    }
    assert_eq!(state.begin_frame(true, false), FrameStart::Recover);
    assert!(state.needs_redraw());
    assert!(!state.needs_redraw());
    assert_eq!(state.failed_frame_count, 6);
    assert_eq!(state.begin_frame(false, false), FrameStart::Draw { full_redraw: true });
    assert_eq!(state.failed_frame_count, 0);
    assert_eq!(state.begin_frame(true, false), FrameStart::Draw { full_redraw: true });
    assert_eq!(state.failed_frame_count, 1);
}

#[test]
fn unconfigured_surfaces_skip_frames() {
    let mut state = RendererState::new(800, 600, 4096);
    state.frame_presented();
    assert!(state.has_drawn_frame);
    state.unconfigure_surface();
    assert!(!state.has_drawn_frame);
    assert_eq!(state.begin_frame(true, false), FrameStart::Skip);
    assert_eq!(state.failed_frame_count, 0);
    state.replace_surface(0, 300);
    assert_eq!((state.width, state.height), (1, 300));
    assert!(state.surface_configured);
    assert_eq!(state.begin_frame(false, false), FrameStart::Draw { full_redraw: true });
    state.frame_presented();
    assert!(state.has_drawn_frame);
}

#[test]
fn drawable_size_is_clamped() {
    let mut state = RendererState::new(800, 600, 4096);
    state.frame_presented();
    assert!(!state.update_drawable_size(800, 600));
    assert!(state.has_drawn_frame);
    assert!(state.update_drawable_size(10000, 0));
    assert_eq!((state.width, state.height), (4096, 1));
    assert!(!state.has_drawn_frame);
    state.surface_reconfigured();
    assert!(!state.has_drawn_frame);
}

#[test]
fn whole_redraw_only_when_needed() {
    assert!(full_redraw_needed(false, true, false));
    assert!(full_redraw_needed(true, false, false));
    assert!(full_redraw_needed(true, true, true));
    assert!(!full_redraw_needed(true, true, false));
}

#[test]
fn primitive_counts_saturate() {
    let mut count = 5u32;
    add_primitive_count(&mut count, 10);
    assert_eq!(count, 15);
    add_primitive_count(&mut count, usize::MAX);
    assert_eq!(count, u32::MAX);

    let mut counts = PrimitiveCounts::default();
    count_batch(&mut counts, &PrimitiveBatch::Quads(2..7));
    count_batch(&mut counts, &PrimitiveBatch::Surfaces(3..1));
    count_batch(&mut counts, &PrimitiveBatch::Quads(0..1));
    assert_eq!(counts.quads, 6);
    assert_eq!(counts.surfaces, 0);
    assert_eq!(GpuFrameStats::default().primitive_counts, PrimitiveCounts::default());
}

#[test]
fn path_sample_count_prefers_more_samples() {
    assert_eq!(path_sample_count([true, true, true]), 4);
    assert_eq!(path_sample_count([false, true, true]), 2);
    assert_eq!(path_sample_count([false, false, true]), 1);
    assert_eq!(path_sample_count([false, false, false]), 1);
}

#[test]
fn persistent_buffers_start_empty_and_see_any_generation_as_new() {
    let mut buffers = PersistentBuffersState::new();
    assert_eq!(buffers.quads, PersistentBufferState { capacity: 65536, len: 0, fragmentation_bytes: 0 });
    assert_eq!(buffers.last_poly_sprite_len, 0);
    assert!(buffers.generation_changed(0));
    assert!(!buffers.generation_changed(u64::MAX));
    buffers.last_generation = 3;
    assert!(!buffers.generation_changed(3));
    assert!(buffers.generation_changed(4));
}

#[test]
fn presented_surfaces_redraw_only_the_damage() {
    let mut state = RendererState::new(800, 600, 4096);
    assert_eq!(state.begin_frame(false, false), FrameStart::Draw { full_redraw: true });
    state.frame_presented();
    assert_eq!(state.begin_frame(false, false), FrameStart::Draw { full_redraw: false });
    assert_eq!(state.begin_frame(false, true), FrameStart::Draw { full_redraw: true });
    state.surface_reconfigured();
    assert_eq!(state.begin_frame(false, false), FrameStart::Draw { full_redraw: true });
}

#[test]
fn surface_settings_prefer_the_listed_choices() {
    assert_eq!(pick_preferred(&[7, 3], &[1, 3, 7]), Some(7));
    assert_eq!(pick_preferred(&[9, 3], &[1, 3, 7]), Some(3));
    assert_eq!(pick_preferred(&[9], &[1, 3, 7]), Some(1));
    assert_eq!(pick_preferred(&[9], &[]), None);
    let state = RendererState::new(9000, 0, 4096);
    assert_eq!((state.width, state.height), (4096, 1));
}

#[test]
fn overflow_grows_until_the_largest_size_then_gives_up() {
    let mut state = InstanceBufferState { capacity: 1000, max_buffer_size: 3000, storage_buffer_alignment: 4 };
    assert!(state.on_overflow());
    assert_eq!(state.capacity, 2000);
    assert!(state.on_overflow());
    assert_eq!(state.capacity, 3000);
    assert!(!state.on_overflow());
    assert_eq!(state.capacity, 3000);
}

#[test]
fn frame_stats_count_uploads_and_draws() {
    let mut stats = GpuFrameStats::default();
    stats.record_upload(64);
    stats.record_upload(usize::MAX);
    stats.record_draw_call();
    assert_eq!(stats.upload_bytes, usize::MAX);
    assert_eq!(stats.upload_count, 2);
    assert_eq!(stats.draw_call_count, 1);
}

#[test]
fn frames_are_planned_from_damage_and_state() {
    let mut state = RendererState::new(800, 600, 4096);
    assert_eq!(state.plan_frame(false, false, false), FramePlan::Draw { full_redraw: true });
    state.frame_presented();
    assert_eq!(state.plan_frame(false, false, true), FramePlan::Draw { full_redraw: false });
    assert_eq!(state.plan_frame(false, false, false), FramePlan::NothingToDraw);
    assert_eq!(state.plan_frame(false, true, false), FramePlan::Draw { full_redraw: true });
    state.unconfigure_surface();
    assert_eq!(state.plan_frame(true, false, true), FramePlan::Skip);
}

#[test]
fn surface_answers_map_to_actions() {
    let mut state = RendererState::new(800, 600, 4096);
    state.frame_presented();
    assert_eq!(state.after_acquire(SurfaceAcquire::Success), AcquireAction::Draw);
    assert!(state.has_drawn_frame);
    assert_eq!(state.after_acquire(SurfaceAcquire::Timeout), AcquireAction::Skip);
    assert_eq!(state.after_acquire(SurfaceAcquire::Occluded), AcquireAction::Skip);
    assert_eq!(state.after_acquire(SurfaceAcquire::Validation), AcquireAction::RecordError);
    assert!(state.has_drawn_frame);
    assert_eq!(state.after_acquire(SurfaceAcquire::Lost), AcquireAction::Reconfigure);
    assert!(!state.has_drawn_frame);
    state.frame_presented();
    assert_eq!(state.after_acquire(SurfaceAcquire::Suboptimal), AcquireAction::Reconfigure);
    assert_eq!(state.after_acquire(SurfaceAcquire::Outdated), AcquireAction::Reconfigure);
}

#[test]
fn pass_steps_retry_until_the_largest_size() {
    let mut buffers = InstanceBufferState { capacity: 100, max_buffer_size: 150, storage_buffer_alignment: 4 };
    assert_eq!(frame_step(&mut buffers, false), PassAction::Present);
    assert_eq!(buffers.capacity, 100);
    assert_eq!(frame_step(&mut buffers, true), PassAction::Retry);
    assert_eq!(buffers.capacity, 150);
    assert_eq!(frame_step(&mut buffers, true), PassAction::GiveUp);
    assert_eq!(buffers.capacity, 150);
}

#[test]
fn pipelines_follow_device_and_surface() {
    let plan = plan_pipelines(true, false, true, 4);
    assert!(!plan.subpixel_sprites);
    assert!(plan.premultiplied_blending);
    assert_eq!((plan.path_rasterization_samples, plan.other_samples), (4, 1));
    assert!(plan.path_msaa_texture);
    let plan = plan_pipelines(true, true, false, 1);
    assert!(plan.subpixel_sprites);
    assert!(!plan.premultiplied_blending);
    assert!(!plan.path_msaa_texture);
}

#[test]
fn a_static_frame_uploads_three_uniform_blocks() {
    let mut stats = GpuFrameStats::default();
    stats.record_uniform_uploads(16, 16, 32);
    assert_eq!((stats.upload_count, stats.upload_bytes), (3, 64));
}
