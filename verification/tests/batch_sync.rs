use playlist_aggregator::sync::{
    chunk_tracks, render_bar, render_final_bar, BatchRun, BAR_WIDTH, CHUNK_SIZE,
};

fn ids(n: usize) -> Vec<String> {
    (0..n).map(|i| format!("t{}", i)).collect()
}

#[test]
fn chunk_count_is_ceiling() {
    assert_eq!(chunk_tracks(&ids(0), 50).len(), 0);
    assert_eq!(chunk_tracks(&ids(1), 50).len(), 1);
    assert_eq!(chunk_tracks(&ids(50), 50).len(), 1);
    assert_eq!(chunk_tracks(&ids(51), 50).len(), 2);
    assert_eq!(chunk_tracks(&ids(100), 50).len(), 2);
    assert_eq!(chunk_tracks(&ids(101), 50).len(), 3);
}

#[test]
fn last_chunk_holds_the_remainder() {
    let chunks = chunk_tracks(&ids(101), 50);
    assert_eq!(chunks[0].len(), 50);
    assert_eq!(chunks[1].len(), 50);
    assert_eq!(chunks[2].len(), 1);
    // A multiple of the chunk size ends with a full chunk.
    let even = chunk_tracks(&ids(100), 50);
    assert_eq!(even[1].len(), 50);
}

#[test]
fn chunking_preserves_order_and_content() {
    let tracks = ids(7);
    let chunks = chunk_tracks(&tracks, 3);
    assert_eq!(chunks.len(), 3);
    let rejoined: Vec<String> = chunks.into_iter().flatten().collect();
    assert_eq!(rejoined, tracks);
}

#[test]
fn default_chunk_size_is_half_the_ceiling() {
    assert_eq!(CHUNK_SIZE, 50);
}

#[test]
fn one_failure_leaves_one_record_and_stops_nothing() {
    // Chunk 1 of 4 fails; every chunk is still attempted and exactly one
    // failure referencing chunk 1 is recorded.
    let mut run = BatchRun::new(200, 50, 4);
    let outcomes = vec![
        None,
        Some("boom".to_string()),
        None,
        None,
    ];
    run.apply_outcomes(&outcomes);
    assert_eq!(run.chunks_attempted, 4);
    assert_eq!(run.failures.len(), 1);
    assert_eq!(run.failures[0].chunk_index, 1);
    assert_eq!(run.failures[0].message, "boom");
    assert_eq!(run.added, 150);
    assert!(run.needs_cleanup());
}

#[test]
fn failures_keep_their_positions_in_order() {
    let mut run = BatchRun::new(100, 10, 5);
    let outcomes = vec![
        Some("first".to_string()),
        None,
        Some("second".to_string()),
        None,
        Some("third".to_string()),
    ];
    run.apply_outcomes(&outcomes);
    assert_eq!(run.chunks_attempted, 5);
    assert_eq!(run.added, 20);
    let recorded: Vec<(usize, &str)> = run
        .failures
        .iter()
        .map(|f| (f.chunk_index, f.message.as_str()))
        .collect();
    assert_eq!(recorded, vec![(0, "first"), (2, "second"), (4, "third")]);
}

#[test]
fn clean_run_needs_no_cleanup() {
    let mut run = BatchRun::new(100, 50, 2);
    run.apply_outcomes(&vec![None, None]);
    assert_eq!(run.chunks_attempted, 2);
    assert_eq!(run.added, 100);
    assert!(!run.needs_cleanup());
}

#[test]
fn fill_is_proportional_and_clamped() {
    let mut run = BatchRun::new(100, 50, 2);
    run.note_success();
    assert_eq!(run.fill_cells(), 20);
    run.note_success();
    assert_eq!(run.fill_cells(), 40);
    // The nominal added count can pass the total; the bar clamps.
    let mut uneven = BatchRun::new(60, 50, 2);
    uneven.note_success();
    uneven.note_success();
    assert_eq!(uneven.added, 100);
    assert_eq!(uneven.fill_cells(), BAR_WIDTH);
}

#[test]
fn bar_renders_head_tip_and_blank_cells() {
    assert_eq!(render_bar(0), format!("[>{}]", " ".repeat(40)));
    assert_eq!(render_bar(1), format!("[>{}]", " ".repeat(39)));
    assert_eq!(render_bar(20), format!("[{}>{}]", "=".repeat(19), " ".repeat(20)));
    assert_eq!(render_bar(40), format!("[{}>]", "=".repeat(39)));
    assert_eq!(render_final_bar(), format!("[{}]", "=".repeat(40)));
}
