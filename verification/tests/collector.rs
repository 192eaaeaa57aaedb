use playlist_aggregator::collect::{get_all_tracks, Collector, PlaylistData, PlaylistItem};
use playlist_aggregator::pages::Paged;

fn track(id: &str, secs: u64) -> PlaylistItem {
    PlaylistItem::Track { id: Some(id.to_string()), secs }
}

#[test]
fn deduplicates_across_playlists() {
    // The same track referenced from a second listing must change neither
    // the set nor the total.
    let mut c = Collector::new();
    c.absorb_item(&track("t1", 100));
    c.absorb_item(&track("t2", 200));
    c.absorb_item(&track("t1", 100));
    c.absorb_item(&track("t2", 200));
    assert_eq!(c.found.len(), 2);
    assert_eq!(c.total_secs, 300);
}

#[test]
fn skips_episodes_missing_and_idless_tracks() {
    let mut c = Collector::new();
    c.absorb_item(&PlaylistItem::Episode);
    c.absorb_item(&PlaylistItem::Missing);
    c.absorb_item(&PlaylistItem::Track { id: None, secs: 500 });
    assert_eq!(c.found.len(), 0);
    assert_eq!(c.total_secs, 0);
}

#[test]
fn summary_counts_every_entry_and_all_durations() {
    // The per-playlist summary counts entries of every kind, and sums the
    // durations of all track entries, duplicates included.
    let mut c = Collector::new();
    let mut items = Paged::new(vec![
        vec![track("a", 10), PlaylistItem::Episode],
        vec![PlaylistItem::Missing, track("a", 10), track("b", 5)],
    ]);
    let s = c.collect_playlist(&mut items);
    assert_eq!(s.num_tracks, 5);
    assert_eq!(s.runtime.hours, 0);
    assert_eq!(s.runtime.minutes, 0);
    assert_eq!(s.runtime.seconds, 25);
    // The shared set still deduplicates: "a" counts once.
    assert_eq!(c.found.len(), 2);
    assert_eq!(c.total_secs, 15);
}

#[test]
fn consumes_every_page_exactly_once() {
    // Three pages of varying size, with an empty page in the middle: each
    // is visited once, in order, and the cursor ends exhausted.
    let mut source = Paged::new(vec![
        vec![track("p1", 1)],
        vec![],
        vec![track("p2", 2), track("p3", 3)],
    ]);
    assert!(source.has_next());
    let mut c = Collector::new();
    c.absorb_paged(&mut source);
    assert!(!source.has_next());
    assert!(source.next_page().is_none());
    assert_eq!(c.found.len(), 3);
    assert_eq!(c.total_secs, 6);
}

#[test]
fn cursor_never_serves_a_page_twice() {
    let mut source: Paged<u32> = Paged::new(vec![vec![1], vec![2, 3]]);
    assert_eq!(source.next_page(), Some(vec![1]));
    assert_eq!(source.next_page(), Some(vec![2, 3]));
    assert_eq!(source.next_page(), None);
    assert_eq!(source.next_page(), None);
}

#[test]
fn liked_songs_count_only_novel_tracks() {
    let mut c = Collector::new();
    c.absorb_item(&track("t3", 50));
    let mut saved = Paged::new(vec![vec![track("t3", 50), track("t4", 20)]]);
    let pass = c.collect_from_liked_songs(&mut saved);
    // Only the novel track's duration is added by this pass.
    assert_eq!(pass.hours * 3600 + pass.minutes * 60 + pass.seconds, 20);
    assert_eq!(c.found.len(), 2);
    assert_eq!(c.total_secs, 70);
}

#[test]
fn aggregates_two_playlists_and_liked_songs() {
    // Playlist "A" holds t1 (100s) and t2 (200s); "B" holds t2 (200s) and
    // t3 (50s); liked songs hold t3 (50s).  The union is {t1, t2, t3} and
    // the first-seen total is 350 seconds.
    let mut playlists = Paged::new(vec![vec![
        PlaylistData {
            name: "A".to_string(),
            items: Paged::new(vec![vec![track("t1", 100), track("t2", 200)]]),
        },
        PlaylistData {
            name: "B".to_string(),
            items: Paged::new(vec![vec![track("t2", 200), track("t3", 50)]]),
        },
    ]]);
    let mut saved = Paged::new(vec![vec![track("t3", 50)]]);
    let out = get_all_tracks(&mut playlists, &mut saved);
    assert_eq!(out.tracks, vec!["t1".to_string(), "t2".to_string(), "t3".to_string()]);
    let rt = &out.playlists_runtime;
    assert_eq!(rt.hours * 3600 + rt.minutes * 60 + rt.seconds, 350);
    assert_eq!(out.reports.len(), 2);
    assert_eq!(out.reports[0].name, "A");
    assert_eq!(out.reports[0].summary.num_tracks, 2);
    assert_eq!(out.reports[1].name, "B");
    assert_eq!(out.reports[1].summary.num_tracks, 2);
    let rt_b = &out.reports[1].summary.runtime;
    assert_eq!(rt_b.hours * 3600 + rt_b.minutes * 60 + rt_b.seconds, 250);
}

#[test]
fn liked_only_track_is_fully_counted() {
    let mut playlists: Paged<PlaylistData> = Paged::new(vec![]);
    let mut saved = Paged::new(vec![vec![track("only-liked", 42)]]);
    let out = get_all_tracks(&mut playlists, &mut saved);
    assert_eq!(out.tracks, vec!["only-liked".to_string()]);
    assert_eq!(out.reports.len(), 0);
}
