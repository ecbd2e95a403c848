//! Frame timing and counting: the importance levels of perf tests, the
//! counters of a rendered frame, and the collector that gathers them.

use std::time::{Duration, Instant};
use vstd::prelude::*;
use vstd::string::StringExecFns;

pub mod consts;

verus! {

/// How much a perf test matters when its results are weighed.
#[derive(Clone, Copy, Debug, PartialEq, Eq, Structural)]
pub enum Importance {
    Critical,
    Important,
    Average,
    Iffy,
    Fluff,
}

impl Default for Importance {
    fn default() -> (importance: Self)
        ensures
            importance == Importance::Average,
    {
        Importance::Average
    }
}

impl Importance {
    /// The name under which the importance is displayed.
    pub open spec fn spec_name(self) -> Seq<char> {
        match self {
            Importance::Critical => "Critical"@,
            Importance::Important => "Important"@,
            Importance::Average => "Average"@,
            Importance::Iffy => "Iffy"@,
            Importance::Fluff => "Fluff"@,
        }
    }

    /// The name under which the importance is displayed.
    pub fn name(&self) -> (name: &'static str)
        ensures
            name@ == self.spec_name(),
    {
        match self {
            Importance::Critical => "Critical",
            Importance::Important => "Important",
            Importance::Average => "Average",
            Importance::Iffy => "Iffy",
            Importance::Fluff => "Fluff",
        }
    }

    /// The displayed form of the importance.
    pub fn to_string(&self) -> (text: String)
        ensures
            text@ == self.spec_name(),
    {
        String::from_str(self.name())
    }
}

/// Number of primitives of each kind drawn in a frame.
#[derive(Clone, Copy, Debug, PartialEq, Eq, Structural)]
pub struct PrimitiveCounts {
    pub shadows: u32,
    pub quads: u32,
    pub paths: u32,
    pub underlines: u32,
    pub monochrome_sprites: u32,
    pub subpixel_sprites: u32,
    pub polychrome_sprites: u32,
    pub surfaces: u32,
}

impl PrimitiveCounts {
    /// All counts zero.
    pub open spec fn zero() -> PrimitiveCounts {
        PrimitiveCounts {
            shadows: 0,
            quads: 0,
            paths: 0,
            underlines: 0,
            monochrome_sprites: 0,
            subpixel_sprites: 0,
            polychrome_sprites: 0,
            surfaces: 0,
        }
    }
}

impl Default for PrimitiveCounts {
    fn default() -> (counts: Self)
        ensures
            counts == PrimitiveCounts::zero(),
    {
        PrimitiveCounts {
            shadows: 0,
            quads: 0,
            paths: 0,
            underlines: 0,
            monochrome_sprites: 0,
            subpixel_sprites: 0,
            polychrome_sprites: 0,
            surfaces: 0,
        }
    }
}

/// The duration of `nanos` nanoseconds, as `Duration::from_nanos` builds it.
pub uninterp spec fn duration_from_nanos(nanos: u64) -> Duration;

/// The empty duration.
pub open spec fn zero_duration() -> Duration {
    duration_from_nanos(0)
}

/// `std::time::Duration::from_nanos`.
///
/// Trusted: the result is the duration of `nanos` nanoseconds; `Duration` is
/// opaque here, so the result is named rather than described.
#[verifier::external_body]
fn nanos_duration(nanos: u64) -> (duration: Duration)
    ensures
        duration == duration_from_nanos(nanos),
{
    Duration::from_nanos(nanos)
}

/// Timings and counters of one rendered frame.
#[derive(Clone, Copy, Debug, PartialEq, Eq)]
pub struct FrameMetrics {
    pub frame_number: u64,
    pub total_draw_duration: Duration,
    pub invalidate_entities_duration: Duration,
    pub prepaint_duration: Duration,
    pub paint_duration: Duration,
    pub scene_finish_duration: Duration,
    pub present_duration: Duration,
    pub gpu_upload_bytes: usize,
    pub gpu_upload_count: u32,
    pub draw_call_count: u32,
    pub dirty_view_count: u32,
    pub total_view_count: u32,
    pub primitive_count: PrimitiveCounts,
}

impl Default for FrameMetrics {
    fn default() -> (metrics: Self)
        ensures
            metrics.frame_number == 0,
            metrics.total_draw_duration == zero_duration(),
            metrics.invalidate_entities_duration == zero_duration(),
            metrics.prepaint_duration == zero_duration(),
            metrics.paint_duration == zero_duration(),
            metrics.scene_finish_duration == zero_duration(),
            metrics.present_duration == zero_duration(),
            metrics.gpu_upload_bytes == 0,
            metrics.gpu_upload_count == 0,
            metrics.draw_call_count == 0,
            metrics.dirty_view_count == 0,
            metrics.total_view_count == 0,
            metrics.primitive_count == PrimitiveCounts::zero(),
    {
        FrameMetrics {
            frame_number: 0,
            total_draw_duration: nanos_duration(0),
            invalidate_entities_duration: nanos_duration(0),
            prepaint_duration: nanos_duration(0),
            paint_duration: nanos_duration(0),
            scene_finish_duration: nanos_duration(0),
            present_duration: nanos_duration(0),
            gpu_upload_bytes: 0,
            gpu_upload_count: 0,
            draw_call_count: 0,
            dirty_view_count: 0,
            total_view_count: 0,
            primitive_count: PrimitiveCounts::default(),
        }
    }
}

/// Number of phases a collector times.
pub const PHASE_COUNT: usize = 6;

/// The duration that `metrics` reports for phase `i`: invalidation, prepaint,
/// paint, scene finish, present and total draw, in that order.
pub open spec fn reported_phase(metrics: FrameMetrics, i: int) -> Duration {
    if i == 0 {
        metrics.invalidate_entities_duration
    } else if i == 1 {
        metrics.prepaint_duration
    } else if i == 2 {
        metrics.paint_duration
    } else if i == 3 {
        metrics.scene_finish_duration
    } else if i == 4 {
        metrics.present_duration
    } else {
        metrics.total_draw_duration
    }
}

/// The recorded duration of a phase, or the empty duration when none was.
pub open spec fn phase_or_zero(phase: Option<Duration>) -> Duration {
    match phase {
        Some(d) => d,
        None => zero_duration(),
    }
}

/// The wall-clock instant, carried opaquely.
#[verifier::external_type_specification]
#[verifier::external_body]
pub struct ExInstant(Instant);

/// `std::time::Instant::now`.
///
/// Trusted to return; nothing is stated of the result, which is read from the
/// clock.
#[verifier::external_body]
fn instant_now() -> Instant {
    Instant::now()
}

/// `std::time::Instant::elapsed`.
///
/// Trusted to return; nothing is stated of the result, which is read from the
/// clock.
#[verifier::external_body]
fn instant_elapsed(instant: &Instant) -> Duration {
    instant.elapsed()
}

/// Measures the wall-clock time of one phase of a frame.
pub struct PhaseTimer {
    start: Instant,
}

impl PhaseTimer {
    /// Starts timing now.
    pub fn start() -> Self {
        PhaseTimer { start: instant_now() }
    }

    /// Time since the timer was started.
    pub fn elapsed(&self) -> Duration {
        instant_elapsed(&self.start)
    }
}

/// Gathers the timings and counters of one frame while it is drawn.
pub struct FrameMetricsCollector {
    frame_number: u64,
    phase_timers: [Option<Duration>; 6],
    gpu_upload_bytes: usize,
    gpu_upload_count: u32,
    draw_call_count: u32,
    dirty_view_count: u32,
    total_view_count: u32,
    primitive_count: PrimitiveCounts,
}

impl FrameMetricsCollector {
    /// Number of the frame being measured.
    pub closed spec fn spec_frame_number(&self) -> u64 {
        self.frame_number
    }

    /// The recorded duration of each phase, in the order of `reported_phase`.
    pub closed spec fn spec_phases(&self) -> Seq<Option<Duration>> {
        self.phase_timers@
    }

    /// Bytes uploaded to the GPU so far.
    pub closed spec fn spec_upload_bytes(&self) -> usize {
        self.gpu_upload_bytes
    }

    /// Number of GPU uploads so far.
    pub closed spec fn spec_upload_count(&self) -> u32 {
        self.gpu_upload_count
    }

    /// Number of draw calls so far.
    pub closed spec fn spec_draw_call_count(&self) -> u32 {
        self.draw_call_count
    }

    /// Number of views repainted in the frame.
    pub closed spec fn spec_dirty_view_count(&self) -> u32 {
        self.dirty_view_count
    }

    /// Number of views in the frame.
    pub closed spec fn spec_total_view_count(&self) -> u32 {
        self.total_view_count
    }

    /// Primitives counted in the frame.
    pub closed spec fn spec_primitive_count(&self) -> PrimitiveCounts {
        self.primitive_count
    }

    /// `self` and `other` agree on everything but the recorded phases.
    pub open spec fn same_counters(&self, other: &Self) -> bool {
        &&& self.spec_frame_number() == other.spec_frame_number()
        &&& self.spec_upload_bytes() == other.spec_upload_bytes()
        &&& self.spec_upload_count() == other.spec_upload_count()
        &&& self.spec_draw_call_count() == other.spec_draw_call_count()
        &&& self.spec_dirty_view_count() == other.spec_dirty_view_count()
        &&& self.spec_total_view_count() == other.spec_total_view_count()
        &&& self.spec_primitive_count() == other.spec_primitive_count()
    }

    /// `self` and `other` record the same phases and view and primitive counts,
    /// and measure the same frame.
    pub open spec fn same_except_uploads_and_draws(&self, other: &Self) -> bool {
        &&& self.spec_frame_number() == other.spec_frame_number()
        &&& self.spec_phases() == other.spec_phases()
        &&& self.spec_dirty_view_count() == other.spec_dirty_view_count()
        &&& self.spec_total_view_count() == other.spec_total_view_count()
        &&& self.spec_primitive_count() == other.spec_primitive_count()
    }

    /// A collector for frame `frame_number` with nothing recorded.
    pub fn new(frame_number: u64) -> (collector: Self)
        ensures
            collector.spec_frame_number() == frame_number,
            collector.spec_phases() == Seq::new(6, |i: int| None::<Duration>),
            collector.spec_upload_bytes() == 0,
            collector.spec_upload_count() == 0,
            collector.spec_draw_call_count() == 0,
            collector.spec_dirty_view_count() == 0,
            collector.spec_total_view_count() == 0,
            collector.spec_primitive_count() == PrimitiveCounts::zero(),
    {
        let collector = FrameMetricsCollector {
            frame_number,
            phase_timers: [None, None, None, None, None, None],
            gpu_upload_bytes: 0,
            gpu_upload_count: 0,
            draw_call_count: 0,
            dirty_view_count: 0,
            total_view_count: 0,
            primitive_count: PrimitiveCounts::default(),
        };
        assert(collector.phase_timers@ =~= Seq::new(6, |i: int| None::<Duration>));
        collector
    }

    /// Records the duration of phase `phase_index`; an index past the last
    /// phase is ignored.
    pub fn record_phase(&mut self, phase_index: usize, duration: Duration)
        ensures
            final(self).same_counters(old(self)),
            final(self).spec_phases() == (if phase_index < PHASE_COUNT {
                old(self).spec_phases().update(phase_index as int, Some(duration))
            } else {
                old(self).spec_phases()
            }),
    {
        if phase_index < PHASE_COUNT {
            self.phase_timers[phase_index] = Some(duration);
        }
    }

    /// Counts one upload of `bytes` bytes to the GPU; both counters saturate.
    pub fn record_gpu_upload(&mut self, bytes: usize)
        ensures
            final(self).same_except_uploads_and_draws(old(self)),
            final(self).spec_draw_call_count() == old(self).spec_draw_call_count(),
            final(self).spec_upload_bytes() == (if old(self).spec_upload_bytes() + bytes
                > usize::MAX {
                usize::MAX as int
            } else {
                old(self).spec_upload_bytes() + bytes
            }),
            final(self).spec_upload_count() == (if old(self).spec_upload_count() == u32::MAX {
                u32::MAX as int
            } else {
                old(self).spec_upload_count() + 1
            }),
    {
        self.gpu_upload_bytes = self.gpu_upload_bytes.saturating_add(bytes);
        self.gpu_upload_count = self.gpu_upload_count.saturating_add(1);
    }

    /// Counts one draw call; the counter saturates.
    pub fn record_draw_call(&mut self)
        ensures
            final(self).same_except_uploads_and_draws(old(self)),
            final(self).spec_upload_bytes() == old(self).spec_upload_bytes(),
            final(self).spec_upload_count() == old(self).spec_upload_count(),
            final(self).spec_draw_call_count() == (if old(self).spec_draw_call_count()
                == u32::MAX {
                u32::MAX as int
            } else {
                old(self).spec_draw_call_count() + 1
            }),
    {
        self.draw_call_count = self.draw_call_count.saturating_add(1);
    }

    /// Sets the numbers of repainted and of all views.
    pub fn set_view_counts(&mut self, dirty: u32, total: u32)
        ensures
            final(self).spec_dirty_view_count() == dirty,
            final(self).spec_total_view_count() == total,
            final(self).spec_frame_number() == old(self).spec_frame_number(),
            final(self).spec_phases() == old(self).spec_phases(),
            final(self).spec_upload_bytes() == old(self).spec_upload_bytes(),
            final(self).spec_upload_count() == old(self).spec_upload_count(),
            final(self).spec_draw_call_count() == old(self).spec_draw_call_count(),
            final(self).spec_primitive_count() == old(self).spec_primitive_count(),
    {
        self.dirty_view_count = dirty;
        self.total_view_count = total;
    }

    /// Sets the numbers of primitives drawn.
    pub fn set_primitive_counts(&mut self, counts: PrimitiveCounts)
        ensures
            final(self).spec_primitive_count() == counts,
            final(self).spec_frame_number() == old(self).spec_frame_number(),
            final(self).spec_phases() == old(self).spec_phases(),
            final(self).spec_upload_bytes() == old(self).spec_upload_bytes(),
            final(self).spec_upload_count() == old(self).spec_upload_count(),
            final(self).spec_draw_call_count() == old(self).spec_draw_call_count(),
            final(self).spec_dirty_view_count() == old(self).spec_dirty_view_count(),
            final(self).spec_total_view_count() == old(self).spec_total_view_count(),
    {
        self.primitive_count = counts;
    }

    /// The metrics gathered: each phase never recorded is reported as the
    /// empty duration.
    pub fn finish(self) -> (metrics: FrameMetrics)
        ensures
            metrics.frame_number == self.spec_frame_number(),
            forall|i: int|
                0 <= i < 6 ==> #[trigger] reported_phase(metrics, i) == phase_or_zero(
                    self.spec_phases()[i],
                ),
            metrics.gpu_upload_bytes == self.spec_upload_bytes(),
            metrics.gpu_upload_count == self.spec_upload_count(),
            metrics.draw_call_count == self.spec_draw_call_count(),
            metrics.dirty_view_count == self.spec_dirty_view_count(),
            metrics.total_view_count == self.spec_total_view_count(),
            metrics.primitive_count == self.spec_primitive_count(),
    {
        let invalidate_entities_duration = match self.phase_timers[0] {
            Some(d) => d,
            None => nanos_duration(0),
        };
        let prepaint_duration = match self.phase_timers[1] {
            Some(d) => d,
            None => nanos_duration(0),
        };
        let paint_duration = match self.phase_timers[2] {
            Some(d) => d,
            None => nanos_duration(0),
        };
        let scene_finish_duration = match self.phase_timers[3] {
            Some(d) => d,
            None => nanos_duration(0),
        };
        let present_duration = match self.phase_timers[4] {
            Some(d) => d,
            None => nanos_duration(0),
        };
        let total_draw_duration = match self.phase_timers[5] {
            Some(d) => d,
            None => nanos_duration(0),
        };
        FrameMetrics {
            frame_number: self.frame_number,
            total_draw_duration,
            invalidate_entities_duration,
            prepaint_duration,
            paint_duration,
            scene_finish_duration,
            present_duration,
            gpu_upload_bytes: self.gpu_upload_bytes,
            gpu_upload_count: self.gpu_upload_count,
            draw_call_count: self.draw_call_count,
            dirty_view_count: self.dirty_view_count,
            total_view_count: self.total_view_count,
            primitive_count: self.primitive_count,
        }
    }
}

/// A duration recorded for phase `i < 6` is the one `finish` reports for that
/// phase, whatever else was recorded before, as long as the phase was not
/// recorded again.
pub proof fn lemma_recorded_phase_is_reported(
    before: FrameMetricsCollector,
    after: FrameMetricsCollector,
    metrics: FrameMetrics,
    i: int,
    duration: Duration,
)
    requires
        0 <= i < 6,
        before.spec_phases().len() == 6,
        after.spec_phases() == before.spec_phases().update(i, Some(duration)),
        forall|k: int|
            0 <= k < 6 ==> #[trigger] reported_phase(metrics, k) == phase_or_zero(
                after.spec_phases()[k],
            ),
    ensures
        reported_phase(metrics, i) == duration,
        forall|k: int|
            0 <= k < 6 && k != i ==> #[trigger] reported_phase(metrics, k) == phase_or_zero(
                before.spec_phases()[k],
            ),
{
    assert(reported_phase(metrics, i) == phase_or_zero(after.spec_phases()[i]));
}

/// A collector holds exactly six phase slots, whatever was recorded.
pub proof fn lemma_collector_has_six_phases(collector: FrameMetricsCollector)
    ensures
        collector.spec_phases().len() == 6,
{
}

} // verus!
