//! The split operation's pure core: configuration, the planning pipeline
//! from packet durations to a chunk plan, and the result summary.
use vstd::prelude::*;

use crate::naming::{output_path, spec_output_path};
use crate::planner::{plan_chunks, spec_plan, ChunkInfo};
use crate::timeline::{build_timeline, spec_timeline, total_nanos, TimeBase};

verus! {

/// Why a split operation's planning stage cannot proceed.
#[derive(Clone, Copy, PartialEq, Eq, Structural, Debug)]
pub enum SplitError {
    /// The source track provides no time base, so packet durations cannot
    /// be placed on a timeline.
    NoTimeBase,
    /// Zero packets were ingested; there is nothing to split.
    EmptyStream,
    /// The stream's total duration does not fit 64-bit nanoseconds.
    DurationOverflow,
}

/// Configuration options for a split operation.
pub struct SplitOptions<'a> {
    /// Path of the input file.
    pub input_path: &'a str,
    /// Desired duration of each chunk, in nanoseconds.
    pub chunk_duration: u64,
    /// Directory where the output files are placed.
    pub output_dir: &'a str,
    /// Prefix of the output file names.
    pub prefix: &'a str,
}

/// The computed plan of a split operation: the chunk list and the total
/// stream duration in nanoseconds.
pub struct SplitPlan {
    /// The planned chunks, in stream order.
    pub chunks: Vec<ChunkInfo>,
    /// Total duration of the input, in nanoseconds.
    pub total_duration: u64,
}

/// Summary of a finished split operation.
pub struct SplitResult {
    /// How many chunks were produced.
    pub chunk_count: usize,
    /// Total duration of the input, in nanoseconds.
    pub total_duration: u64,
    /// The output files, in chunk order.
    pub output_files: Vec<String>,
}

/// Plan a split: build the timeline from the packet durations and the time
/// base, then partition it into chunks of roughly `chunk_duration`
/// nanoseconds. Fails exactly when the track has no time base, when the
/// stream has no packets, or when the total duration cannot be represented.
pub fn plan_split(
    packet_durations: &Vec<u64>,
    time_base: Option<TimeBase>,
    chunk_duration: u64,
) -> (r: Result<SplitPlan, SplitError>)
    requires
        chunk_duration > 0,
        time_base matches Some(tb) ==> tb.denom > 0,
    ensures
        match time_base {
            None => r matches Err(e) && e is NoTimeBase,
            Some(tb) => if packet_durations@.len() == 0 {
                r matches Err(e) && e is EmptyStream
            } else if total_nanos(packet_durations@, tb) > u64::MAX {
                r matches Err(e) && e is DurationOverflow
            } else {
                r matches Ok(p) && p.chunks@ == spec_plan(
                    spec_timeline(packet_durations@, tb),
                    chunk_duration,
                ) && p.total_duration == total_nanos(packet_durations@, tb)
            },
        },
{
    let tb = match time_base {
        Some(tb) => tb,
        None => {
            return Err(SplitError::NoTimeBase);
        },
    };
    if packet_durations.len() == 0 {
        return Err(SplitError::EmptyStream);
    }
    let timeline = match build_timeline(packet_durations, tb) {
        Some(tl) => tl,
        None => {
            return Err(SplitError::DurationOverflow);
        },
    };
    let total_duration = timeline[timeline.len() - 1];
    proof {
        crate::timeline::lemma_cum_nanos_monotone(
            packet_durations@,
            tb,
            0,
            packet_durations@.len() as int,
        );
        assert(total_duration == total_nanos(packet_durations@, tb));
    }
    let chunks = plan_chunks(&timeline, chunk_duration);
    Ok(SplitPlan { chunks, total_duration })
}

/// The output paths a plan writes to, in chunk order: one per chunk, named
/// by the 1-based chunk index under the configured directory and prefix.
pub fn output_paths(output_dir: &str, prefix: &str, count: usize) -> (paths: Vec<String>)
    ensures
        paths@.len() == count,
        forall|i: int|
            0 <= i < count ==> #[trigger] paths@[i]@ == spec_output_path(
                output_dir@,
                prefix@,
                i + 1,
            ),
{
    let mut paths: Vec<String> = Vec::new();
    let mut i: usize = 0;
    while i < count
        invariant
            i <= count,
            paths@.len() == i,
            forall|j: int|
                0 <= j < i ==> #[trigger] paths@[j]@ == spec_output_path(
                    output_dir@,
                    prefix@,
                    j + 1,
                ),
        decreases count - i,
    {
        let p = output_path(output_dir, prefix, i + 1);
        paths.push(p);
        i = i + 1;
    }
    paths
}

/// Summarize a finished split: the chunk count, the total duration, and
/// the output path of every chunk under the configured directory and
/// prefix.
pub fn make_split_result(plan: &SplitPlan, options: &SplitOptions) -> (r: SplitResult)
    ensures
        r.chunk_count == plan.chunks@.len(),
        r.total_duration == plan.total_duration,
        r.output_files@.len() == plan.chunks@.len(),
        forall|i: int|
            0 <= i < plan.chunks@.len() ==> #[trigger] r.output_files@[i]@ == spec_output_path(
                options.output_dir@,
                options.prefix@,
                i + 1,
            ),
{
    let count = plan.chunks.len();
    let output_files = output_paths(options.output_dir, options.prefix, count);
    SplitResult { chunk_count: count, total_duration: plan.total_duration, output_files }
}

} // verus!
