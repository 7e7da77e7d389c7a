use mp3_splitter::planner::plan_chunks;
use mp3_splitter::split::plan_split;
use mp3_splitter::timeline::build_timeline;
use mp3_splitter::{minutes_to_duration, ChunkInfo, SplitError, SplitOptions, TimeBase};

const SECOND: u64 = 1_000_000_000;

/// A timeline of `n` packets lasting exactly one second each.
fn one_second_timeline(n: u64) -> Vec<u64> {
    let mut tl = Vec::new();
    for i in 0..n {
        tl.push((i + 1) * SECOND);
    }
    tl
}

#[test]
fn ninety_five_seconds_in_ten_second_chunks() {
    // 95 packets of exactly 1.0 s, target 10 s: 10 chunks, the first 9 of
    // 10 packets (10.0 s) each, the last of 5 packets (5.0 s).
    let tl = one_second_timeline(95);
    let chunks = plan_chunks(&tl, 10 * SECOND);
    assert_eq!(chunks.len(), 10);
    let mut covered = 0;
    for (k, c) in chunks.iter().enumerate() {
        if k < 9 {
            assert_eq!(c.end_packet - c.start_packet, 10);
            assert_eq!(c.end_time - c.start_time, 10 * SECOND);
        } else {
            assert_eq!(c.end_packet - c.start_packet, 5);
            assert_eq!(c.end_time - c.start_time, 5 * SECOND);
        }
        covered += c.end_packet - c.start_packet;
    }
    assert_eq!(covered, 95);
}

#[test]
fn target_longer_than_stream_gives_one_chunk() {
    let tl = one_second_timeline(5);
    let chunks = plan_chunks(&tl, 100 * SECOND);
    assert_eq!(chunks.len(), 1);
    assert_eq!(chunks[0].start_packet, 0);
    assert_eq!(chunks[0].end_packet, 5);
    assert_eq!(chunks[0].start_time, 0);
    assert_eq!(chunks[0].end_time, 5 * SECOND);
}

#[test]
fn single_long_packet_cannot_be_split() {
    // One 30 s packet under a 10 s target: exactly one chunk of 30 s, since
    // a frame is never split mid-packet.
    let tl = vec![30 * SECOND];
    let chunks = plan_chunks(&tl, 10 * SECOND);
    assert_eq!(chunks.len(), 1);
    assert_eq!(chunks[0].end_time - chunks[0].start_time, 30 * SECOND);
    assert_eq!(chunks[0].start_packet, 0);
    assert_eq!(chunks[0].end_packet, 1);
}

/// An irregular timeline: packets of 3 s, 4 s, 5 s, 1 s, 2 s, 9 s.
fn irregular_timeline() -> Vec<u64> {
    let durs = [3, 4, 5, 1, 2, 9];
    let mut tl = Vec::new();
    let mut acc = 0;
    for d in durs {
        acc += d * SECOND;
        tl.push(acc);
    }
    tl
}

#[test]
fn coverage_is_contiguous_and_chunks_nonempty() {
    let tl = irregular_timeline();
    let chunks = plan_chunks(&tl, 7 * SECOND);
    assert!(chunks.len() >= 1);
    assert_eq!(chunks[0].start_packet, 0);
    assert_eq!(chunks[chunks.len() - 1].end_packet, tl.len());
    for k in 0..chunks.len() {
        assert!(chunks[k].start_packet < chunks[k].end_packet);
        if k > 0 {
            assert_eq!(chunks[k].start_packet, chunks[k - 1].end_packet);
            assert_eq!(chunks[k].start_time, chunks[k - 1].end_time);
        }
    }
}

#[test]
fn every_chunk_but_last_reaches_target() {
    let tl = irregular_timeline();
    let target = 7 * SECOND;
    let chunks = plan_chunks(&tl, target);
    for k in 0..chunks.len() - 1 {
        assert!(chunks[k].end_time - chunks[k].start_time >= target);
    }
}

#[test]
fn chunk_durations_sum_to_total() {
    let tl = irregular_timeline();
    let total = *tl.last().unwrap();
    let chunks = plan_chunks(&tl, 7 * SECOND);
    let sum: u64 = chunks.iter().map(|c| c.end_time - c.start_time).sum();
    assert_eq!(sum, total);
}

#[test]
fn planning_is_deterministic() {
    let tl = irregular_timeline();
    let a = plan_chunks(&tl, 7 * SECOND);
    let b = plan_chunks(&tl, 7 * SECOND);
    assert_eq!(a, b);
}

#[test]
fn timeline_accumulates_converted_durations() {
    // Millisecond ticks: 500 ms, 250 ms, 250 ms.
    let durs = vec![500, 250, 250];
    let tb = TimeBase { numer: 1, denom: 1000 };
    let tl = build_timeline(&durs, tb).unwrap();
    assert_eq!(tl, vec![500_000_000, 750_000_000, 1_000_000_000]);
}

#[test]
fn timeline_conversion_rounds_down_each_packet() {
    // 1 tick of 1/3 s: 333333333 ns, rounded down; three of them do not
    // quite reach a second.
    let durs = vec![1, 1, 1];
    let tb = TimeBase { numer: 1, denom: 3 };
    let tl = build_timeline(&durs, tb).unwrap();
    assert_eq!(tl, vec![333_333_333, 666_666_666, 999_999_999]);
}

#[test]
fn timeline_reports_unrepresentable_totals() {
    let durs = vec![u64::MAX, u64::MAX];
    let tb = TimeBase { numer: 1, denom: 1 };
    assert!(build_timeline(&durs, tb).is_none());
}

#[test]
fn plan_split_without_time_base_fails() {
    let durs = vec![100, 100];
    let r = plan_split(&durs, None, 10 * SECOND);
    assert_eq!(r.err().unwrap(), SplitError::NoTimeBase);
}

#[test]
fn plan_split_of_empty_stream_fails() {
    let durs: Vec<u64> = Vec::new();
    let tb = TimeBase { numer: 1, denom: 1000 };
    let r = plan_split(&durs, Some(tb), 10 * SECOND);
    assert_eq!(r.err().unwrap(), SplitError::EmptyStream);
}

#[test]
fn plan_split_of_overlong_stream_fails() {
    let durs = vec![u64::MAX, u64::MAX];
    let tb = TimeBase { numer: 1, denom: 1 };
    let r = plan_split(&durs, Some(tb), 10 * SECOND);
    assert_eq!(r.err().unwrap(), SplitError::DurationOverflow);
}

#[test]
fn plan_split_plans_the_whole_stream() {
    // 95 one-second packets in 48000 Hz sample ticks.
    let durs = vec![48000u64; 95];
    let tb = TimeBase { numer: 1, denom: 48000 };
    let plan = plan_split(&durs, Some(tb), 10 * SECOND).unwrap();
    assert_eq!(plan.total_duration, 95 * SECOND);
    assert_eq!(plan.chunks.len(), 10);
    assert_eq!(plan.chunks[0].end_packet, 10);
    assert_eq!(plan.chunks[9].end_packet, 95);
}

#[test]
fn minutes_convert_to_nanoseconds() {
    assert_eq!(minutes_to_duration(10), 600 * SECOND);
    assert_eq!(minutes_to_duration(0), 0);
    assert_eq!(minutes_to_duration(1), 60 * SECOND);
}

#[test]
fn chunk_info_fields_are_plain_values() {
    let c = ChunkInfo { start_time: 1, end_time: 2, start_packet: 0, end_packet: 1 };
    let d = c;
    assert_eq!(c, d);
}

#[test]
fn split_options_carry_the_configuration() {
    let options = SplitOptions {
        input_path: "audiofile.mp3",
        chunk_duration: minutes_to_duration(10),
        output_dir: "mp3_chunks",
        prefix: "audiofile_part",
    };
    assert_eq!(options.chunk_duration, 600 * SECOND);
    assert_eq!(options.prefix, "audiofile_part");
}
