//! Names shared by the `perf` test harness and the tests it generates.

use vstd::prelude::*;

verus! {

/// Suffix of the name of a generated timing test.
pub const SUF_NORMAL: &'static str = ".perf";

/// Suffix of the name of a generated metadata test.
pub const SUF_MDATA: &'static str = ".perfm";

/// Environment variable that holds the number of iterations to run.
pub const ITER_ENV_VAR: &'static str = "PERF_ITERATIONS";

/// Prefix of each metadata line.
pub const MDATA_LINE_PREF: &'static str = "PERF_MDATA";

/// Name of the iteration-count metadata line.
pub const ITER_COUNT_LINE_NAME: &'static str = "iterations";

/// Name of the weight metadata line.
pub const WEIGHT_LINE_NAME: &'static str = "weight";

/// Name of the importance metadata line.
pub const IMPORTANCE_LINE_NAME: &'static str = "importance";

/// Name of the metadata-version line.
pub const VERSION_LINE_NAME: &'static str = "version";

/// Version of the metadata format.
pub const MDATA_VER: u32 = 1;

/// Weight of a test that names none.
pub const WEIGHT_DEFAULT: u32 = 1;

} // verus!
