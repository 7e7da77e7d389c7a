use mp3_splitter::naming::{output_file_name, output_path, u64_to_string};
use mp3_splitter::split::{make_split_result, output_paths, SplitOptions, SplitPlan};
use mp3_splitter::tags::{derive_chunk_tag, derive_chunk_title};
use mp3_splitter::writer::chunk_bytes;
use mp3_splitter::planner::plan_chunks;

#[test]
fn decimal_rendering_is_exact() {
    assert_eq!(u64_to_string(0), "0");
    assert_eq!(u64_to_string(7), "7");
    assert_eq!(u64_to_string(10), "10");
    assert_eq!(u64_to_string(105), "105");
    assert_eq!(u64_to_string(18446744073709551615), "18446744073709551615");
}

#[test]
fn file_names_use_zero_padded_indices() {
    assert_eq!(output_file_name("audiofile_part", 1), "audiofile_part_001.mp3");
    assert_eq!(output_file_name("audiofile_part", 12), "audiofile_part_012.mp3");
    assert_eq!(output_file_name("audiofile_part", 123), "audiofile_part_123.mp3");
    assert_eq!(output_file_name("audiofile_part", 1234), "audiofile_part_1234.mp3");
    assert_eq!(output_file_name("track", 5), "track_005.mp3");
}

#[test]
fn output_paths_join_directory_and_name() {
    assert_eq!(output_path("mp3_chunks", "track", 2), "mp3_chunks/track_002.mp3");
    let paths = output_paths("out", "part", 3);
    assert_eq!(paths, vec!["out/part_001.mp3", "out/part_002.mp3", "out/part_003.mp3"]);
}

#[test]
fn chunk_titles_carry_part_annotations() {
    assert_eq!(derive_chunk_title("My Song", 2, 10), "My Song (Part 2/10)");
    assert_eq!(derive_chunk_title("", 1, 1), " (Part 1/1)");
}

#[test]
fn chunk_tags_rewrite_title_and_track() {
    let t = derive_chunk_tag(Some("My Song"), 3, 7);
    assert_eq!(t.title.unwrap(), "My Song (Part 3/7)");
    assert_eq!(t.track, 3);

    let untitled = derive_chunk_tag(None, 3, 7);
    assert!(untitled.title.is_none());
    assert_eq!(untitled.track, 3);
}

#[test]
fn chunk_bytes_concatenates_payloads_in_order() {
    let packets = vec![vec![1u8, 2], vec![3], vec![4, 5, 6]];
    assert_eq!(chunk_bytes(&packets, 0, 2), vec![1, 2, 3]);
    assert_eq!(chunk_bytes(&packets, 2, 3), vec![4, 5, 6]);
    assert_eq!(chunk_bytes(&packets, 1, 1), Vec::<u8>::new());
}

#[test]
fn written_bytes_reproduce_the_stream() {
    // Byte fidelity over a real plan: concatenating every chunk's bytes in
    // chunk order gives back the original payload concatenation.
    let packets = vec![
        vec![10u8, 11],
        vec![12],
        vec![13, 14, 15],
        vec![16],
        vec![17, 18],
    ];
    let second: u64 = 1_000_000_000;
    let tl: Vec<u64> = (1..=5).map(|i| i * 3 * second).collect();
    let chunks = plan_chunks(&tl, 5 * second);
    assert!(chunks.len() > 1);

    let mut rebuilt = Vec::new();
    for c in &chunks {
        rebuilt.extend(chunk_bytes(&packets, c.start_packet, c.end_packet));
    }
    let mut original = Vec::new();
    for p in &packets {
        original.extend(p.iter().copied());
    }
    assert_eq!(rebuilt, original);
}

#[test]
fn split_result_summarizes_the_plan() {
    let second: u64 = 1_000_000_000;
    let tl: Vec<u64> = (1..=4).map(|i| i * 6 * second).collect();
    let chunks = plan_chunks(&tl, 10 * second);
    let plan = SplitPlan { chunks, total_duration: 24 * second };
    let options = SplitOptions {
        input_path: "audiofile.mp3",
        chunk_duration: 10 * second,
        output_dir: "mp3_chunks",
        prefix: "audiofile_part",
    };
    let result = make_split_result(&plan, &options);
    assert_eq!(result.chunk_count, plan.chunks.len());
    assert_eq!(result.total_duration, 24 * second);
    assert_eq!(result.output_files.len(), plan.chunks.len());
    assert_eq!(result.output_files[0], "mp3_chunks/audiofile_part_001.mp3");
    assert_eq!(
        result.output_files[result.output_files.len() - 1],
        format!("mp3_chunks/audiofile_part_{:03}.mp3", plan.chunks.len())
    );
}
