//! The decisions of the GPU renderer: when a frame is drawn, skipped or
//! abandoned for recovery, which size the surface is configured with, and
//! how the per-frame statistics are counted.
//!
//! The renderer performs the GPU work; each step here takes the state and
//! what happened, updates the state, and says what to do next.

use crate::perf::PrimitiveCounts;
use crate::scene::{PrimitiveBatch, PrimitiveKind};
use std::ops::Range;
use vstd::prelude::*;

pub mod buffers;

verus! {

/// Statistics of the last frame drawn.
#[derive(Clone, Copy, Debug, PartialEq, Eq, Structural)]
pub struct GpuFrameStats {
    pub upload_bytes: usize,
    pub upload_count: u32,
    pub draw_call_count: u32,
    pub primitive_counts: PrimitiveCounts,
}

impl Default for GpuFrameStats {
    fn default() -> (stats: Self)
        ensures
            stats.upload_bytes == 0,
            stats.upload_count == 0,
            stats.draw_call_count == 0,
            stats.primitive_counts == PrimitiveCounts::zero(),
    {
        GpuFrameStats {
            upload_bytes: 0,
            upload_count: 0,
            draw_call_count: 0,
            primitive_counts: PrimitiveCounts::default(),
        }
    }
}

/// `stats` after counting the three uniform uploads of a frame, of
/// `globals`, `path_globals` and `gamma` bytes.
pub open spec fn with_uniform_uploads(stats: GpuFrameStats, globals: int, path_globals: int, gamma: int) -> GpuFrameStats {
    GpuFrameStats {
        upload_bytes: buffers::sat_add_usize(
            buffers::sat_add_usize(buffers::sat_add_usize(stats.upload_bytes as int, globals), path_globals),
            gamma,
        ) as usize,
        upload_count: buffers::sat_add_u32(
            buffers::sat_add_u32(buffers::sat_add_u32(stats.upload_count as int, 1), 1),
            1,
        ) as u32,
        ..stats
    }
}

impl GpuFrameStats {
    /// Counts an upload of `bytes` bytes; both counters saturate.
    pub fn record_upload(&mut self, bytes: usize)
        ensures
            final(self).upload_bytes == buffers::sat_add_usize(old(self).upload_bytes as int, bytes as int),
            final(self).upload_count == buffers::sat_add_u32(old(self).upload_count as int, 1),
            final(self).draw_call_count == old(self).draw_call_count,
            final(self).primitive_counts == old(self).primitive_counts,
    {
        self.upload_bytes = self.upload_bytes.saturating_add(bytes);
        self.upload_count = self.upload_count.saturating_add(1);
    }

    /// Counts the three uniform uploads of a frame: the global parameters,
    /// the path global parameters and the gamma parameters.
    pub fn record_uniform_uploads(&mut self, globals: usize, path_globals: usize, gamma: usize)
        ensures
            *final(self) == with_uniform_uploads(*old(self), globals as int, path_globals as int, gamma as int),
    {
        self.record_upload(globals);
        self.record_upload(path_globals);
        self.record_upload(gamma);
    }

    /// Counts a draw call; the counter saturates.
    pub fn record_draw_call(&mut self)
        ensures
            final(self).draw_call_count == buffers::sat_add_u32(old(self).draw_call_count as int, 1),
            final(self).upload_bytes == old(self).upload_bytes,
            final(self).upload_count == old(self).upload_count,
            final(self).primitive_counts == old(self).primitive_counts,
    {
        self.draw_call_count = self.draw_call_count.saturating_add(1);
    }
}

/// Number of consecutive failed frames after which the renderer gives up on
/// its intermediate textures and atlas and asks for a redraw.
pub const MAX_RETRIED_FAILURES: u32 = 5;

/// The failure count after a frame that failed (`had_error`) or not.
pub open spec fn next_failure_count(count: int, had_error: bool) -> int {
    if had_error {
        count + 1
    } else {
        0
    }
}

/// The failure count after the frames `frames` (each `true` when it failed),
/// starting from `count`.
pub open spec fn failure_count_after(count: int, frames: Seq<bool>) -> int
    decreases frames.len(),
{
    if frames.len() == 0 {
        count
    } else {
        next_failure_count(failure_count_after(count, frames.drop_last()), frames.last())
    }
}

/// Number of failed frames at the end of `frames`.
pub open spec fn trailing_failures(frames: Seq<bool>) -> int
    decreases frames.len(),
{
    if frames.len() == 0 {
        0
    } else if frames.last() {
        trailing_failures(frames.drop_last()) + 1
    } else {
        0
    }
}

/// What the renderer does with a frame it was asked to draw.
#[derive(Clone, Copy, Debug, PartialEq, Eq, Structural)]
pub enum FrameStart {
    /// The surface is not configured: nothing is drawn.
    Skip,
    /// Too many frames failed in a row: drop the intermediate textures, clear
    /// the atlas and wait for the redraw that was requested.
    Recover,
    /// Draw the frame, whole when `full_redraw` holds.
    Draw { full_redraw: bool },
}

/// The renderer's state between frames.
#[derive(Clone, Copy, Debug, PartialEq, Eq, Structural)]
pub struct RendererState {
    /// Configured surface width in pixels.
    pub width: u32,
    /// Configured surface height in pixels.
    pub height: u32,
    /// Largest texture dimension the device supports.
    pub max_texture_size: u32,
    /// A surface is configured to draw into.
    pub surface_configured: bool,
    /// A frame was presented since the surface was last (re)configured.
    pub has_drawn_frame: bool,
    /// GPU state was cleared and the window must be redrawn.
    pub needs_redraw: bool,
    /// Number of consecutive frames that reported a GPU error.
    pub failed_frame_count: u32,
}

/// `value` bounded to `1..=max` (to `1` when `max` is 0).
pub open spec fn clamp_dimension(value: int, max: int) -> int {
    let clamped = if value < max {
        value
    } else {
        max
    };
    if clamped > 1 {
        clamped
    } else {
        1
    }
}

/// `value` bounded by `max`, and at least 1.
fn clamp_to_texture(value: u32, max: u32) -> (clamped: u32)
    ensures
        clamped == clamp_dimension(value as int, max as int),
{
    let bounded = if value < max {
        value
    } else {
        max
    };
    if bounded > 1 {
        bounded
    } else {
        1
    }
}

/// The first of `preferences` that `supported` contains, else the first
/// supported value, else none.
pub open spec fn preferred_choice(preferences: Seq<u32>, supported: Seq<u32>) -> Option<u32>
    decreases preferences.len(),
{
    if preferences.len() == 0 {
        if supported.len() > 0 {
            Some(supported[0])
        } else {
            None
        }
    } else if supported.contains(preferences[0]) {
        Some(preferences[0])
    } else {
        preferred_choice(preferences.drop_first(), supported)
    }
}

/// The preference chosen is the first one the surface supports, wherever the
/// surface lists it: every preference before it is unsupported. When the
/// surface supports none of them, its own first value is chosen, and nothing
/// when it lists none.
pub proof fn lemma_preferred_choice_is_first_supported(preferences: Seq<u32>, supported: Seq<u32>)
    ensures
        forall|i: int|
            #![trigger preferences[i]]
            0 <= i < preferences.len() && supported.contains(preferences[i]) && (forall|j: int|
                0 <= j < i ==> !supported.contains(#[trigger] preferences[j])) ==> preferred_choice(
                preferences,
                supported,
            ) == Some(preferences[i]),
        (forall|i: int| 0 <= i < preferences.len() ==> !supported.contains(#[trigger] preferences[i]))
            ==> preferred_choice(preferences, supported) == (if supported.len() > 0 {
            Some(supported[0])
        } else {
            None
        }),
    decreases preferences.len(),
{
    if preferences.len() > 0 {
        let rest = preferences.drop_first();
        lemma_preferred_choice_is_first_supported(rest, supported);
        assert forall|i: int|
            #![trigger preferences[i]]
            0 <= i < preferences.len() && supported.contains(preferences[i]) && (forall|j: int|
                0 <= j < i ==> !supported.contains(#[trigger] preferences[j])) implies preferred_choice(
            preferences,
            supported,
        ) == Some(preferences[i]) by {
            if i > 0 {
                assert(!supported.contains(preferences[0]));
                assert(rest[i - 1] == preferences[i]);
                assert forall|j: int| 0 <= j < i - 1 implies !supported.contains(
                    #[trigger] rest[j],
                ) by {
                    assert(rest[j] == preferences[j + 1]);
                }
            }
        }
        if forall|i: int| 0 <= i < preferences.len() ==> !supported.contains(#[trigger] preferences[i]) {
            assert(!supported.contains(preferences[0]));
            assert forall|i: int| 0 <= i < rest.len() implies !supported.contains(
                #[trigger] rest[i],
            ) by {
                assert(rest[i] == preferences[i + 1]);
            }
        }
    }
}

/// Picks a surface setting (a format or an alpha mode, by code): the first of
/// `preferences` that the surface supports, else the first it supports, else
/// none.
pub fn pick_preferred(preferences: &[u32], supported: &[u32]) -> (choice: Option<u32>)
    ensures
        choice == preferred_choice(preferences@, supported@),
        forall|i: int|
            #![trigger preferences@[i]]
            0 <= i < preferences@.len() && supported@.contains(preferences@[i]) && (forall|j: int|
                0 <= j < i ==> !supported@.contains(#[trigger] preferences@[j])) ==> choice == Some(
                preferences@[i],
            ),
        (forall|i: int| 0 <= i < preferences@.len() ==> !supported@.contains(#[trigger] preferences@[i]))
            ==> choice == (if supported@.len() > 0 {
            Some(supported@[0])
        } else {
            None
        }),
{
    proof {
        lemma_preferred_choice_is_first_supported(preferences@, supported@);
    }
    let mut i: usize = 0;
    proof {
        assert(preferences@.skip(0) =~= preferences@);
    }
    while i < preferences.len()
        invariant
            0 <= i <= preferences@.len(),
            preferred_choice(preferences@, supported@) == preferred_choice(
                preferences@.skip(i as int),
                supported@,
            ),
        decreases preferences.len() - i,
    {
        let p = preferences[i];
        let mut j: usize = 0;
        let mut found = false;
        while j < supported.len()
            invariant
                0 <= j <= supported@.len(),
                found == (exists|q: int| 0 <= q < j && supported@[q] == p),
            decreases supported.len() - j,
        {
            if supported[j] == p {
                found = true;
            }
            j = j + 1;
        }
        proof {
            let rest = preferences@.skip(i as int);
            assert(rest[0] == p);
            assert(rest.drop_first() =~= preferences@.skip(i + 1));
            if found {
                let q = choose|q: int| 0 <= q < supported@.len() && supported@[q] == p;
                assert(supported@.contains(p));
            } else {
                assert(!supported@.contains(p));
            }
        }
        if found {
            proof {
                lemma_preferred_choice_is_first_supported(preferences@, supported@);
            }
            return Some(p);
        }
        i = i + 1;
    }
    proof {
        assert(preferences@.skip(preferences@.len() as int) =~= Seq::<u32>::empty());
    }
    if supported.len() > 0 {
        Some(supported[0])
    } else {
        None
    }
}

/// Whether the whole frame is redrawn: always unless partial redraws are
/// enabled, a frame was already drawn on this surface and the scene does not
/// ask for a full redraw itself.
pub fn full_redraw_needed(
    partial_redraw_enabled: bool,
    has_drawn_frame: bool,
    scene_full_redraw: bool,
) -> (full: bool)
    ensures
        full == (!partial_redraw_enabled || !has_drawn_frame || scene_full_redraw),
{
    !partial_redraw_enabled || !has_drawn_frame || scene_full_redraw
}

/// Partial redraws are enabled: once a frame was presented on the surface,
/// a frame that the scene does not ask to redraw whole is clipped to the
/// damaged area.
pub const PARTIAL_REDRAW_ENABLED: bool = true;

/// What the renderer does with a frame started in `state`: skip it when no
/// surface is configured; give up and recover when more than
/// `MAX_RETRIED_FAILURES` frames failed in a row; else draw it.
pub open spec fn frame_start(state: RendererState, had_error: bool, scene_full_redraw: bool) -> FrameStart {
    if !state.surface_configured {
        FrameStart::Skip
    } else if next_failure_count(state.failed_frame_count as int, had_error) > MAX_RETRIED_FAILURES {
        FrameStart::Recover
    } else {
        FrameStart::Draw {
            full_redraw: !PARTIAL_REDRAW_ENABLED || !state.has_drawn_frame || scene_full_redraw,
        }
    }
}

/// The state after a frame was started in `state`.
pub open spec fn state_after_start(state: RendererState, had_error: bool) -> RendererState {
    if !state.surface_configured {
        state
    } else {
        let next = next_failure_count(state.failed_frame_count as int, had_error);
        let count = next as u32;
        if next > MAX_RETRIED_FAILURES {
            RendererState {
                failed_frame_count: count,
                needs_redraw: true,
                has_drawn_frame: false,
                ..state
            }
        } else {
            RendererState { failed_frame_count: count, ..state }
        }
    }
}

/// How a frame proceeds once it was started.
#[derive(Clone, Copy, Debug, PartialEq, Eq, Structural)]
pub enum FramePlan {
    /// The surface is not configured: nothing is drawn.
    Skip,
    /// Too many frames failed in a row: recover and wait for a redraw.
    Recover,
    /// A partial redraw whose damage clips to nothing: no GPU work; the frame
    /// reports empty statistics and no damage.
    NothingToDraw,
    /// Acquire the surface texture and draw the frame, whole or clipped to
    /// the damage scissor.
    Draw { full_redraw: bool },
}

/// The plan for a frame started in `state`; `has_scissor` tells whether the
/// scene's damage clips to a non-empty scissor rectangle of the surface.
pub open spec fn frame_plan(
    state: RendererState,
    had_error: bool,
    scene_full_redraw: bool,
    has_scissor: bool,
) -> FramePlan {
    match frame_start(state, had_error, scene_full_redraw) {
        FrameStart::Skip => FramePlan::Skip,
        FrameStart::Recover => FramePlan::Recover,
        FrameStart::Draw { full_redraw } => if full_redraw || has_scissor {
            FramePlan::Draw { full_redraw }
        } else {
            FramePlan::NothingToDraw
        },
    }
}

/// What the surface answered when its current texture was requested.
#[derive(Clone, Copy, Debug, PartialEq, Eq, Structural)]
pub enum SurfaceAcquire {
    Success,
    Suboptimal,
    Lost,
    Outdated,
    Timeout,
    Occluded,
    Validation,
}

/// What to do with the answer to a surface-texture request.
#[derive(Clone, Copy, Debug, PartialEq, Eq, Structural)]
pub enum AcquireAction {
    /// Draw into the texture.
    Draw,
    /// Release the texture, if one came, reconfigure the surface and end the
    /// frame; the next frame is drawn whole.
    Reconfigure,
    /// End the frame without drawing.
    Skip,
    /// Record a validation error, reported as a failure at the next frame,
    /// and end the frame.
    RecordError,
}

/// The action for a surface-texture answer.
pub open spec fn acquire_action(acquire: SurfaceAcquire) -> AcquireAction {
    match acquire {
        SurfaceAcquire::Success => AcquireAction::Draw,
        SurfaceAcquire::Suboptimal | SurfaceAcquire::Lost | SurfaceAcquire::Outdated => AcquireAction::Reconfigure,
        SurfaceAcquire::Timeout | SurfaceAcquire::Occluded => AcquireAction::Skip,
        SurfaceAcquire::Validation => AcquireAction::RecordError,
    }
}

/// What to do after the draw passes were recorded.
#[derive(Clone, Copy, Debug, PartialEq, Eq, Structural)]
pub enum PassAction {
    /// Submit and present the frame.
    Present,
    /// The instance buffer overflowed and was grown: record the passes again.
    Retry,
    /// The instance buffer overflowed at its largest size: present the frame
    /// as it is and end it without recording statistics.
    GiveUp,
}

/// Decides the end of an attempt to record the draw passes, growing the
/// instance buffer on an overflow below its largest size.
pub fn frame_step(buffers: &mut buffers::InstanceBufferState, overflowed: bool) -> (action: PassAction)
    requires
        overflowed && old(buffers).capacity < old(buffers).max_buffer_size ==> old(buffers).capacity * 2
            <= u64::MAX,
    ensures
        !overflowed ==> action == PassAction::Present && *final(buffers) == *old(buffers),
        overflowed && old(buffers).capacity < old(buffers).max_buffer_size ==> action
            == PassAction::Retry && final(buffers).capacity == buffers::grown_instance_capacity(
            old(buffers).capacity as int,
            old(buffers).max_buffer_size as int,
        ) && final(buffers).max_buffer_size == old(buffers).max_buffer_size
            && final(buffers).storage_buffer_alignment == old(buffers).storage_buffer_alignment,
        overflowed && old(buffers).capacity >= old(buffers).max_buffer_size ==> action
            == PassAction::GiveUp && *final(buffers) == *old(buffers),
{
    if !overflowed {
        PassAction::Present
    } else if buffers.on_overflow() {
        PassAction::Retry
    } else {
        PassAction::GiveUp
    }
}

/// Decisions of the GPU pipelines: whether the subpixel-text pipeline
/// exists, how colors blend into the surface, and how many samples each
/// pass takes.
#[derive(Clone, Copy, Debug, PartialEq, Eq, Structural)]
pub struct PipelinePlan {
    /// The subpixel sprite pipeline is built: dual-source blending was asked
    /// for and the device has it.
    pub subpixel_sprites: bool,
    /// Colors blend as premultiplied alpha (for a premultiplied surface);
    /// otherwise as straight alpha.
    pub premultiplied_blending: bool,
    /// Samples of the path rasterization pass.
    pub path_rasterization_samples: u32,
    /// Samples of every other pass.
    pub other_samples: u32,
    /// A multisampled path texture is needed.
    pub path_msaa_texture: bool,
}

/// The pipeline decisions for the given surface and device.
pub fn plan_pipelines(
    dual_source_blending: bool,
    device_has_dual_source_blending: bool,
    premultiplied_alpha: bool,
    path_sample_count: u32,
) -> (plan: PipelinePlan)
    ensures
        plan.subpixel_sprites == (dual_source_blending && device_has_dual_source_blending),
        plan.premultiplied_blending == premultiplied_alpha,
        plan.path_rasterization_samples == path_sample_count,
        plan.other_samples == 1,
        plan.path_msaa_texture == (path_sample_count > 1),
{
    PipelinePlan {
        subpixel_sprites: dual_source_blending && device_has_dual_source_blending,
        premultiplied_blending: premultiplied_alpha,
        path_rasterization_samples: path_sample_count,
        other_samples: 1,
        path_msaa_texture: path_sample_count > 1,
    }
}

impl RendererState {
    /// The state of a renderer whose surface was just configured for a
    /// requested size of `width` by `height` pixels: each dimension bounded by
    /// the largest texture size and at least one pixel.
    pub fn new(width: u32, height: u32, max_texture_size: u32) -> (state: Self)
        ensures
            state.width == clamp_dimension(width as int, max_texture_size as int),
            state.height == clamp_dimension(height as int, max_texture_size as int),
            state.max_texture_size == max_texture_size,
            state.surface_configured,
            !state.has_drawn_frame,
            !state.needs_redraw,
            state.failed_frame_count == 0,
    {
        RendererState {
            width: clamp_to_texture(width, max_texture_size),
            height: clamp_to_texture(height, max_texture_size),
            max_texture_size,
            surface_configured: true,
            has_drawn_frame: false,
            needs_redraw: false,
            failed_frame_count: 0,
        }
    }

    /// Starts a frame. `had_error` tells whether a GPU error was reported since
    /// the last frame; `scene_full_redraw` whether the scene asks for a full
    /// redraw.
    pub fn begin_frame(&mut self, had_error: bool, scene_full_redraw: bool) -> (start: FrameStart)
        requires
            old(self).surface_configured && had_error ==> old(self).failed_frame_count < u32::MAX,
        ensures
            start == frame_start(*old(self), had_error, scene_full_redraw),
            *final(self) == state_after_start(*old(self), had_error),
            start == FrameStart::Recover ==> !final(self).has_drawn_frame && final(self).needs_redraw,
            start == FrameStart::Recover ==> final(self).failed_frame_count == old(self).failed_frame_count + 1,
    {
        if !self.surface_configured {
            return FrameStart::Skip;
        }
        if had_error {
            self.failed_frame_count = self.failed_frame_count + 1;
            if self.failed_frame_count > MAX_RETRIED_FAILURES {
                self.needs_redraw = true;
                self.has_drawn_frame = false;
                return FrameStart::Recover;
            }
        } else {
            self.failed_frame_count = 0;
        }
        let full_redraw = full_redraw_needed(
            PARTIAL_REDRAW_ENABLED,
            self.has_drawn_frame,
            scene_full_redraw,
        );
        FrameStart::Draw { full_redraw }
    }

    /// Plans a frame: as `begin_frame`, then a partial redraw whose damage
    /// clips to nothing (`has_scissor` false) does no GPU work.
    pub fn plan_frame(&mut self, had_error: bool, scene_full_redraw: bool, has_scissor: bool) -> (plan:
        FramePlan)
        requires
            old(self).surface_configured && had_error ==> old(self).failed_frame_count < u32::MAX,
        ensures
            plan == frame_plan(*old(self), had_error, scene_full_redraw, has_scissor),
            *final(self) == state_after_start(*old(self), had_error),
            plan == FramePlan::Recover ==> !final(self).has_drawn_frame && final(self).needs_redraw,
    {
        match self.begin_frame(had_error, scene_full_redraw) {
            FrameStart::Skip => FramePlan::Skip,
            FrameStart::Recover => FramePlan::Recover,
            FrameStart::Draw { full_redraw } => if full_redraw || has_scissor {
                FramePlan::Draw { full_redraw }
            } else {
                FramePlan::NothingToDraw
            },
        }
    }

    /// Handles the surface's answer to a texture request: a lost, outdated or
    /// suboptimal surface is reconfigured and its next frame drawn whole.
    pub fn after_acquire(&mut self, acquire: SurfaceAcquire) -> (action: AcquireAction)
        ensures
            action == acquire_action(acquire),
            action == AcquireAction::Reconfigure ==> *final(self) == (RendererState {
                has_drawn_frame: false,
                ..*old(self)
            }),
            action != AcquireAction::Reconfigure ==> *final(self) == *old(self),
    {
        match acquire {
            SurfaceAcquire::Success => AcquireAction::Draw,
            SurfaceAcquire::Suboptimal | SurfaceAcquire::Lost | SurfaceAcquire::Outdated => {
                self.has_drawn_frame = false;
                AcquireAction::Reconfigure
            },
            SurfaceAcquire::Timeout | SurfaceAcquire::Occluded => AcquireAction::Skip,
            SurfaceAcquire::Validation => AcquireAction::RecordError,
        }
    }

    /// The frame was presented.
    pub fn frame_presented(&mut self)
        ensures
            *final(self) == (RendererState { has_drawn_frame: true, ..*old(self) }),
    {
        self.has_drawn_frame = true;
    }

    /// The surface was reconfigured (it was lost, outdated or suboptimal, or
    /// its presentation changed): the next frame is drawn whole.
    pub fn surface_reconfigured(&mut self)
        ensures
            *final(self) == (RendererState { has_drawn_frame: false, ..*old(self) }),
    {
        self.has_drawn_frame = false;
    }

    /// A new drawable size of `width` by `height` pixels was requested. When
    /// it differs from the configured size, the surface takes it, bounded by
    /// the largest texture size and at least one pixel, and must be
    /// reconfigured (returns `true`).
    pub fn update_drawable_size(&mut self, width: u32, height: u32) -> (reconfigure: bool)
        ensures
            reconfigure == (width != old(self).width || height != old(self).height),
            !reconfigure ==> *final(self) == *old(self),
            reconfigure ==> *final(self) == (RendererState {
                width: clamp_dimension(width as int, old(self).max_texture_size as int) as u32,
                height: clamp_dimension(height as int, old(self).max_texture_size as int) as u32,
                has_drawn_frame: false,
                ..*old(self)
            }),
    {
        if width != self.width || height != self.height {
            let clamped_width = if width < self.max_texture_size {
                width
            } else {
                self.max_texture_size
            };
            let clamped_height = if height < self.max_texture_size {
                height
            } else {
                self.max_texture_size
            };
            self.width = if clamped_width > 1 {
                clamped_width
            } else {
                1
            };
            self.height = if clamped_height > 1 {
                clamped_height
            } else {
                1
            };
            self.has_drawn_frame = false;
            true
        } else {
            false
        }
    }

    /// Mark the surface as unconfigured so rendering is skipped until a new
    /// surface is provided.
    pub fn unconfigure_surface(&mut self)
        ensures
            *final(self) == (RendererState {
                surface_configured: false,
                has_drawn_frame: false,
                ..*old(self)
            }),
    {
        self.surface_configured = false;
        self.has_drawn_frame = false;
    }

    /// A new surface of `width` by `height` pixels (each at least one) replaces
    /// the old one; the next frame is drawn whole.
    pub fn replace_surface(&mut self, width: u32, height: u32)
        ensures
            *final(self) == (RendererState {
                width: (if width > 1 {
                    width
                } else {
                    1
                }),
                height: (if height > 1 {
                    height
                } else {
                    1
                }),
                surface_configured: true,
                has_drawn_frame: false,
                ..*old(self)
            }),
    {
        self.width = if width > 1 {
            width
        } else {
            1
        };
        self.height = if height > 1 {
            height
        } else {
            1
        };
        self.surface_configured = true;
        self.has_drawn_frame = false;
    }

    /// Returns true if a redraw is needed because GPU state was cleared.
    /// Calling this method clears the flag.
    pub fn needs_redraw(&mut self) -> (needed: bool)
        ensures
            needed == old(self).needs_redraw,
            *final(self) == (RendererState { needs_redraw: false, ..*old(self) }),
    {
        let needed = self.needs_redraw;
        self.needs_redraw = false;
        needed
    }
}

/// The number of frames in a row that failed decides recovery: starting from
/// no failure, the failure count after any sequence of frames is the number
/// of failed frames at its end.
pub proof fn lemma_failure_count_is_trailing_run(frames: Seq<bool>)
    ensures
        failure_count_after(0, frames) == trailing_failures(frames),
    decreases frames.len(),
{
    if frames.len() > 0 {
        lemma_failure_count_is_trailing_run(frames.drop_last());
    }
}

/// Once the surface is unconfigured, every frame is skipped and leaves the
/// state alone, whatever happened, until a surface is provided again.
pub proof fn lemma_unconfigured_surface_skips_frames(
    state: RendererState,
    had_error: bool,
    scene_full_redraw: bool,
)
    requires
        !state.surface_configured,
    ensures
        frame_start(state, had_error, scene_full_redraw) == FrameStart::Skip,
        state_after_start(state, had_error) == state,
{
}

/// A frame started right after a surface was provided is drawn whole.
pub proof fn lemma_replaced_surface_draws_whole_frame(
    state: RendererState,
    width: u32,
    height: u32,
    scene_full_redraw: bool,
)
    ensures
        ({
            let replaced = RendererState {
                width: (if width > 1 { width } else { 1 }),
                height: (if height > 1 { height } else { 1 }),
                surface_configured: true,
                has_drawn_frame: false,
                ..state
            };
            frame_start(replaced, false, scene_full_redraw) == FrameStart::Draw { full_redraw: true }
        }),
{
}

/// Recovery drops the GPU state that earlier frames drew into: a frame that
/// gives up after too many failures leaves the renderer asking for a redraw
/// with no presented frame to build on, so the next frame that reports no
/// error is drawn whole, whatever the scene asks; one that fails again
/// recovers again.
pub proof fn lemma_recovery_redraws_whole_frame(
    state: RendererState,
    had_error: bool,
    scene_full_redraw: bool,
    next_scene_full_redraw: bool,
)
    requires
        frame_start(state, had_error, scene_full_redraw) == FrameStart::Recover,
    ensures
        !state_after_start(state, had_error).has_drawn_frame,
        state_after_start(state, had_error).needs_redraw,
        state_after_start(state, had_error).surface_configured,
        frame_start(state_after_start(state, had_error), false, next_scene_full_redraw) == (
        FrameStart::Draw { full_redraw: true }),
        state.failed_frame_count + 1 < u32::MAX ==> frame_start(
            state_after_start(state, had_error),
            true,
            next_scene_full_redraw,
        ) == FrameStart::Recover,
{
}

/// Damage-region rendering: once a frame was presented on the configured
/// surface, a frame the scene does not ask to redraw whole (and that does not
/// trigger recovery) is drawn clipped to the damage, not whole.
pub proof fn lemma_presented_surface_redraws_damage_only(state: RendererState, had_error: bool)
    requires
        state.surface_configured,
        state.has_drawn_frame,
        next_failure_count(state.failed_frame_count as int, had_error) <= (MAX_RETRIED_FAILURES as int),
    ensures
        frame_start(state, had_error, false) == (FrameStart::Draw { full_redraw: false }),
        frame_start(state, had_error, true) == (FrameStart::Draw { full_redraw: true }),
{
}

/// Zero upload on static frames: a frame whose persistent buffers are
/// unchanged (every `upload_persistent_instances` answered `Unchanged`, which
/// leaves the counters alone) and that writes no instance data reports, from
/// empty statistics, exactly the three uniform uploads.
pub proof fn lemma_static_frame_uploads_only_uniforms(
    counts: PrimitiveCounts,
    draw_calls: u32,
    globals: usize,
    path_globals: usize,
    gamma: usize,
)
    requires
        globals + path_globals + gamma <= usize::MAX,
    ensures
        ({
            let empty = GpuFrameStats {
                upload_bytes: 0,
                upload_count: 0,
                draw_call_count: draw_calls,
                primitive_counts: counts,
            };
            let stats = with_uniform_uploads(empty, globals as int, path_globals as int, gamma as int);
            &&& stats.upload_count == 3
            &&& stats.upload_bytes == globals + path_globals + gamma
            &&& stats.draw_call_count == draw_calls
            &&& stats.primitive_counts == counts
        }),
{
}

/// A flag that was taken is not reported again until something sets it.
pub proof fn lemma_needs_redraw_reported_once(
    first: RendererState,
    between: RendererState,
    second: RendererState,
)
    requires
        between == (RendererState { needs_redraw: false, ..first }),
        second == (RendererState { needs_redraw: false, ..between }),
    ensures
        !between.needs_redraw,
        second == between,
{
}

/// Length of the range `r`, or 0 when it is empty.
pub open spec fn range_len(r: Range<usize>) -> int {
    if r.end > r.start {
        r.end - r.start
    } else {
        0
    }
}

/// `len` as a `u32` count: `u32::MAX` when it does not fit.
pub open spec fn count_of_len(len: int) -> int {
    if len > u32::MAX {
        u32::MAX as int
    } else {
        len
    }
}

/// Adds `len` to `count`, saturating; a `len` that does not fit a `u32` counts
/// as `u32::MAX`.
pub fn add_primitive_count(count: &mut u32, len: usize)
    ensures
        *final(count) == buffers::sat_add_u32(*old(count) as int, count_of_len(len as int)),
{
    let delta: u32 = match u32::try_from(len) {
        Ok(v) => v,
        Err(_) => u32::MAX,
    };
    *count = (*count).saturating_add(delta);
}

/// `counts` with the primitives of `batch` counted under its kind.
pub open spec fn counted(counts: PrimitiveCounts, batch: PrimitiveBatch) -> PrimitiveCounts {
    match batch {
        PrimitiveBatch::Shadows(r) => PrimitiveCounts {
            shadows: buffers::sat_add_u32(counts.shadows as int, count_of_len(range_len(r)))
                as u32,
            ..counts
        },
        PrimitiveBatch::Quads(r) => PrimitiveCounts {
            quads: buffers::sat_add_u32(counts.quads as int, count_of_len(range_len(r))) as u32,
            ..counts
        },
        PrimitiveBatch::Paths(r) => PrimitiveCounts {
            paths: buffers::sat_add_u32(counts.paths as int, count_of_len(range_len(r))) as u32,
            ..counts
        },
        PrimitiveBatch::Underlines(r) => PrimitiveCounts {
            underlines: buffers::sat_add_u32(counts.underlines as int, count_of_len(range_len(r)))
                as u32,
            ..counts
        },
        PrimitiveBatch::MonochromeSprites { range: r, .. } => PrimitiveCounts {
            monochrome_sprites: buffers::sat_add_u32(
                counts.monochrome_sprites as int,
                count_of_len(range_len(r)),
            ) as u32,
            ..counts
        },
        PrimitiveBatch::SubpixelSprites { range: r, .. } => PrimitiveCounts {
            subpixel_sprites: buffers::sat_add_u32(
                counts.subpixel_sprites as int,
                count_of_len(range_len(r)),
            ) as u32,
            ..counts
        },
        PrimitiveBatch::PolychromeSprites { range: r, .. } => PrimitiveCounts {
            polychrome_sprites: buffers::sat_add_u32(
                counts.polychrome_sprites as int,
                count_of_len(range_len(r)),
            ) as u32,
            ..counts
        },
        PrimitiveBatch::Surfaces(r) => PrimitiveCounts {
            surfaces: buffers::sat_add_u32(counts.surfaces as int, count_of_len(range_len(r)))
                as u32,
            ..counts
        },
    }
}

/// The counter of `counts` that counts primitives of kind `kind`.
pub open spec fn count_of_kind(counts: PrimitiveCounts, kind: PrimitiveKind) -> u32 {
    match kind {
        PrimitiveKind::Shadow => counts.shadows,
        PrimitiveKind::Quad => counts.quads,
        PrimitiveKind::Path => counts.paths,
        PrimitiveKind::Underline => counts.underlines,
        PrimitiveKind::MonochromeSprite => counts.monochrome_sprites,
        PrimitiveKind::SubpixelSprite => counts.subpixel_sprites,
        PrimitiveKind::PolychromeSprite => counts.polychrome_sprites,
        PrimitiveKind::Surface => counts.surfaces,
    }
}

/// Counting a batch adds the number of its primitives (saturating) to the
/// counter of the batch's own kind, and to no other: every other counter
/// keeps its value.
pub proof fn lemma_batch_counted_under_its_kind(counts: PrimitiveCounts, batch: PrimitiveBatch)
    ensures
        forall|k: PrimitiveKind|
            #![trigger count_of_kind(counted(counts, batch), k)]
            count_of_kind(counted(counts, batch), k) == (if k == batch.kind() {
                buffers::sat_add_u32(
                    count_of_kind(counts, k) as int,
                    count_of_len(range_len(batch.range())),
                )
            } else {
                count_of_kind(counts, k) as int
            }),
{
}

/// Number of primitives in the range `r`.
fn len_of(r: &Range<usize>) -> (len: usize)
    ensures
        len == range_len(*r),
{
    if r.end > r.start {
        r.end - r.start
    } else {
        0
    }
}

/// Counts the primitives of `batch` under its kind, as the batch is drawn.
pub fn count_batch(counts: &mut PrimitiveCounts, batch: &PrimitiveBatch)
    ensures
        *final(counts) == counted(*old(counts), *batch),
        count_of_kind(*final(counts), batch.kind()) == buffers::sat_add_u32(
            count_of_kind(*old(counts), batch.kind()) as int,
            count_of_len(range_len(batch.range())),
        ),
        forall|k: PrimitiveKind|
            k != batch.kind() ==> #[trigger] count_of_kind(*final(counts), k) == count_of_kind(
                *old(counts),
                k,
            ),
{
    match batch {
        PrimitiveBatch::Shadows(r) => add_primitive_count(&mut counts.shadows, len_of(r)),
        PrimitiveBatch::Quads(r) => add_primitive_count(&mut counts.quads, len_of(r)),
        PrimitiveBatch::Paths(r) => add_primitive_count(&mut counts.paths, len_of(r)),
        PrimitiveBatch::Underlines(r) => add_primitive_count(&mut counts.underlines, len_of(r)),
        PrimitiveBatch::MonochromeSprites { range, .. } => add_primitive_count(
            &mut counts.monochrome_sprites,
            len_of(range),
        ),
        PrimitiveBatch::SubpixelSprites { range, .. } => add_primitive_count(
            &mut counts.subpixel_sprites,
            len_of(range),
        ),
        PrimitiveBatch::PolychromeSprites { range, .. } => add_primitive_count(
            &mut counts.polychrome_sprites,
            len_of(range),
        ),
        PrimitiveBatch::Surfaces(r) => add_primitive_count(&mut counts.surfaces, len_of(r)),
    }
}

/// Number of samples used when rasterizing paths: the first of 4, 2 and 1
/// that the surface format supports (`supported` in that order), else 1.
pub fn path_sample_count(supported: [bool; 3]) -> (count: u32)
    ensures
        count == (if supported[0] {
            4u32
        } else if supported[1] {
            2u32
        } else {
            1u32
        }),
{
    let candidates: [u32; 3] = [4, 2, 1];
    let mut i: usize = 0;
    while i < 3
        invariant
            0 <= i <= 3,
            candidates@ == seq![4u32, 2u32, 1u32],
            forall|j: int| 0 <= j < i ==> !supported[j],
        decreases 3 - i,
    {
        if supported[i] {
            return candidates[i];
        }
        i = i + 1;
    }
    1
}

} // verus!
