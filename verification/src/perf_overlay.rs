//! The overlay that shows the most recent frame's metrics.

use crate::perf::FrameMetrics;
use vstd::prelude::*;

verus! {

/// A stateless overlay that renders the most recent frame timing metrics.
#[derive(Clone, Copy, Debug, PartialEq, Eq, Structural)]
pub struct PerfOverlay;

/// Returns a frame-time overlay element for displaying the most recent window
/// metrics.
pub fn perf_overlay() -> (overlay: PerfOverlay)
    ensures
        overlay == PerfOverlay,
{
    PerfOverlay
}

/// The GPU upload volume of a frame in whole kibibytes, as the overlay shows it.
pub fn upload_kibibytes(metrics: &FrameMetrics) -> (kibibytes: usize)
    ensures
        kibibytes == metrics.gpu_upload_bytes / 1024,
{
    metrics.gpu_upload_bytes / 1024
}

} // verus!
