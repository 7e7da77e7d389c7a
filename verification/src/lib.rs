//! Splitting a compressed audio stream into independently playable pieces
//! of roughly equal duration, without touching the audio payload itself.
//!
//! The library contains the pure core of the splitter: building a cumulative
//! timeline from per-packet durations, partitioning packets into chunks that
//! approximate a target duration, assembling each chunk's bytes, and deriving
//! per-chunk file names and tag fields. All time values are integer
//! nanoseconds. Demuxing and file I/O live outside the library.
use vstd::prelude::*;

pub mod planner;
pub mod timeline;
pub mod writer;
pub mod naming;
pub mod tags;
pub mod split;

pub use planner::ChunkInfo;
pub use split::{SplitError, SplitOptions, SplitPlan, SplitResult};
pub use tags::ChunkTag;
pub use timeline::TimeBase;

verus! {

/// Nanoseconds in one minute.
pub const NANOS_PER_MINUTE: u64 = 60_000_000_000;

/// Convert a whole number of minutes to a duration in nanoseconds.
pub fn minutes_to_duration(minutes: u64) -> (nanos: u64)
    requires
        minutes * NANOS_PER_MINUTE <= u64::MAX,
    ensures
        nanos == minutes * NANOS_PER_MINUTE,
{
    minutes * NANOS_PER_MINUTE
}

} // verus!
