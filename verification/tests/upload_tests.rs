use paperfold::upload::{
    is_big_file, part_len, pick_thumb_index, plan_upload, progress_percent, total_parts,
    UploadProgress, BIG_FILE_THRESHOLD, CHUNK_SIZE, MAX_PARALLEL_PARTS,
};

#[test]
fn pipeline_constants() {
    assert_eq!(CHUNK_SIZE, 512 * 1024);
    assert_eq!(BIG_FILE_THRESHOLD, 10 * 1024 * 1024);
    assert_eq!(MAX_PARALLEL_PARTS, 16);
}

#[test]
fn a_25_mib_source_splits_into_50_full_parts() {
    // 25 MiB is exactly fifty 512 KiB chunks, so the plan has fifty
    // parts, every one of them full, in large-object mode.
    let size: u64 = 25 * 1024 * 1024;
    let plan = plan_upload(size);
    assert!(plan.is_big);
    assert_eq!(plan.chunk_size, 512 * 1024);
    assert_eq!(plan.total_parts, 50);
    for idx in 0..plan.total_parts {
        assert_eq!(part_len(size, plan.chunk_size, idx), 512 * 1024);
    }
}

#[test]
fn part_lengths_sum_to_the_source_size() {
    for size in [0u64, 1, 512 * 1024 - 1, 512 * 1024, 512 * 1024 + 1, 25 * 1024 * 1024 + 17] {
        let n = total_parts(size, CHUNK_SIZE);
        let mut sum: u64 = 0;
        for idx in 0..n {
            sum += part_len(size, CHUNK_SIZE, idx);
        }
        assert_eq!(sum, size);
    }
}

#[test]
fn ragged_last_part() {
    let size: u64 = 25 * 1024 * 1024 + 1;
    let n = total_parts(size, CHUNK_SIZE);
    assert_eq!(n, 51);
    assert_eq!(part_len(size, CHUNK_SIZE, 50), 1);
    assert_eq!(part_len(size, CHUNK_SIZE, 49), CHUNK_SIZE);
    assert_eq!(part_len(size, CHUNK_SIZE, 51), 0);
}

#[test]
fn zero_byte_source_has_no_parts() {
    assert_eq!(total_parts(0, CHUNK_SIZE), 0);
}

#[test]
fn large_object_mode_threshold_is_strict() {
    assert!(!is_big_file(10 * 1024 * 1024));
    assert!(is_big_file(10 * 1024 * 1024 + 1));
    assert!(!plan_upload(BIG_FILE_THRESHOLD).is_big);
}

#[test]
fn progress_is_monotone_and_ends_at_100() {
    let size: u64 = 25 * 1024 * 1024;
    let mut progress = UploadProgress::new(size);
    let n = total_parts(size, CHUNK_SIZE);
    let mut last: u64 = 0;
    let mut final_pct: u64 = 0;
    for idx in 0..n {
        let pct = progress.record_part(part_len(size, CHUNK_SIZE, idx));
        assert!(pct >= last);
        last = pct;
        final_pct = pct;
    }
    assert_eq!(final_pct, 100);
}

#[test]
fn progress_percent_values() {
    assert_eq!(progress_percent(0, 100), 0);
    assert_eq!(progress_percent(1, 3), 33);
    assert_eq!(progress_percent(2, 3), 66);
    assert_eq!(progress_percent(3, 3), 100);
    assert_eq!(progress_percent(0, 0), 100);
}

#[test]
fn thumbnail_preference_order() {
    let types = |v: &[&str]| v.iter().map(|s| s.to_string()).collect::<Vec<_>>();
    assert_eq!(pick_thumb_index(&types(&["s", "m", "w"])), Some(1));
    assert_eq!(pick_thumb_index(&types(&["w", "s"])), Some(1));
    assert_eq!(pick_thumb_index(&types(&["x", "w"])), Some(1));
    assert_eq!(pick_thumb_index(&types(&["x", "y"])), Some(1));
    assert_eq!(pick_thumb_index(&types(&["x"])), Some(0));
    assert_eq!(pick_thumb_index(&types(&[])), None);
}
