use nle_core::Clip;
use nle_core::TimeRange;
use nle_core::Timeline;
use nle_core::Track;
use uuid::Uuid;

#[test]
fn test_insert_overlap() {
    let mut track = Track::new();
    let asset_id = Uuid::new_v4();

    // Clip A: 0s to 10s
    let clip_a = Clip::new(
        "A".to_string(),
        asset_id,
        TimeRange::new(0, 10_000_000),
        TimeRange::new(0, 10_000_000),
        0,
    );
    track.add(clip_a);

    // Clip B: 4s to 6s (Overwriting middle of A)
    let clip_b = Clip::new(
        "B".to_string(),
        asset_id,
        TimeRange::new(0, 2_000_000),
        TimeRange::new(4_000_000, 2_000_000),
        0,
    );
    track.add(clip_b);

    // Verify
    assert_eq!(track.query(2_000_000).unwrap().name, "A");
    assert_eq!(track.query(5_000_000).unwrap().name, "B");
    assert_eq!(track.query(8_000_000).unwrap().name, "A");
}

#[test]
fn test_ripple_delete_placeholder() {
    assert!(true);
}

fn clip(name: &str, timeline_range: TimeRange) -> Clip {
    Clip::new(
        name.to_string(),
        Uuid::new_v4(),
        TimeRange::new(0, timeline_range.duration),
        timeline_range,
        0,
    )
}

#[test]
fn test_overwrite_splits_into_three_entries() {
    let mut track = Track::new();
    track.add(clip("A", TimeRange::new(0, 10)));
    track.add(clip("B", TimeRange::new(4, 2)));

    assert_eq!(track.query(2).unwrap().name, "A");
    assert_eq!(track.query(5).unwrap().name, "B");
    assert_eq!(track.query(8).unwrap().name, "A");

    let entries = track.get_clips();
    assert_eq!(entries.len(), 3);
    assert_eq!((entries[0].0, entries[0].1), (0, 4));
    assert_eq!(entries[0].2.name, "A");
    assert_eq!((entries[1].0, entries[1].1), (4, 6));
    assert_eq!(entries[1].2.name, "B");
    assert_eq!((entries[2].0, entries[2].1), (6, 10));
    assert_eq!(entries[2].2.name, "A");
    let total: u64 = entries.iter().map(|e| e.1 - e.0).sum();
    assert_eq!(total, 10);
}

#[test]
fn test_point_query_totality() {
    let mut track = Track::new();
    assert!(track.query(0).is_none());
    track.add(clip("A", TimeRange::new(10, 5)));
    track.add(clip("B", TimeRange::new(30, 5)));

    // Outside every inserted interval.
    assert!(track.query(9).is_none());
    assert!(track.query(15).is_none());
    assert!(track.query(29).is_none());
    assert!(track.query(35).is_none());
    assert!(track.query(u64::MAX).is_none());

    // Strictly inside exactly one interval: that interval's clip.
    assert_eq!(track.query(10).unwrap().name, "A");
    assert_eq!(track.query(14).unwrap().name, "A");
    assert_eq!(track.query(30).unwrap().name, "B");
    assert_eq!(track.query(34).unwrap().name, "B");
}

#[test]
fn test_ripple_delete_closes_gap() {
    let mut track = Track::new();
    track.add(clip("A", TimeRange::new(0, 10)));
    track.add(clip("B", TimeRange::new(20, 10)));

    track.ripple_delete(TimeRange::new(10, 10));

    assert_eq!(track.query(5).unwrap().name, "A");
    assert_eq!(track.query(10).unwrap().name, "B");
    assert_eq!(track.query(19).unwrap().name, "B");
    assert!(track.query(20).is_none());
}

#[test]
fn test_ripple_delete_inside_one_clip() {
    let mut track = Track::new();
    track.add(clip("A", TimeRange::new(0, 10)));

    track.ripple_delete(TimeRange::new(2, 4));

    // [0, 2) survives; [6, 10) shifts to [2, 6); both halves are clip A and
    // the adjacent equal entries merge into one.
    assert_eq!(track.query(1).unwrap().name, "A");
    assert_eq!(track.query(3).unwrap().name, "A");
    assert_eq!(track.query(5).unwrap().name, "A");
    assert!(track.query(6).is_none());
    let entries = track.get_clips();
    assert_eq!(entries.len(), 1);
    assert_eq!((entries[0].0, entries[0].1), (0, 6));
}

#[test]
fn test_ripple_delete_removes_covered_part() {
    let mut track = Track::new();
    track.add(clip("A", TimeRange::new(0, 10)));
    track.add(clip("B", TimeRange::new(10, 10)));

    // Remove [5, 15): the tail of A and the head of B.
    track.ripple_delete(TimeRange::new(5, 10));

    assert_eq!(track.query(4).unwrap().name, "A");
    assert_eq!(track.query(5).unwrap().name, "B");
    assert_eq!(track.query(9).unwrap().name, "B");
    assert!(track.query(10).is_none());
}

#[test]
fn test_timeline_track_indices_are_stable() {
    let mut timeline = Timeline::new();
    assert_eq!(timeline.add_video_track(), 0);
    assert_eq!(timeline.add_video_track(), 1);
    assert_eq!(timeline.add_audio_track(), 0);
    assert_eq!(timeline.add_audio_track(), 1);
    assert_eq!(timeline.video_tracks.len(), 2);
    assert_eq!(timeline.audio_tracks.len(), 2);

    let named = Clip::new(
        "V".to_string(),
        Uuid::new_v4(),
        TimeRange::new(0, 4),
        TimeRange::new(0, 4),
        0,
    );
    timeline.video_tracks[0].add(named);
    assert_eq!(timeline.video_tracks[0].query(2).unwrap().name, "V");
    assert!(timeline.video_tracks[1].query(2).is_none());
}

#[test]
fn test_default_track_and_timeline_are_empty() {
    let track = Track::default();
    assert!(track.query(0).is_none());
    assert!(track.get_clips().is_empty());
    let timeline = Timeline::default();
    assert!(timeline.video_tracks.is_empty());
    assert!(timeline.audio_tracks.is_empty());
}

#[test]
fn test_time_range_end() {
    let range = TimeRange::new(4_000_000, 2_000_000);
    assert_eq!(range.end(), 6_000_000);
    let instant = TimeRange::new(7, 0);
    assert_eq!(instant.end(), 7);
}

#[test]
fn test_clip_asset_uuid_round_trip() {
    let asset = Uuid::new_v4();
    let c = Clip::new(
        "clip".to_string(),
        asset,
        TimeRange::new(1, 2),
        TimeRange::new(3, 4),
        9,
    );
    assert_eq!(c.asset_id, *asset.as_bytes());
    assert_eq!(c.asset_uuid(), asset);
}

#[test]
fn test_identical_ranges_last_write_wins() {
    let mut track = Track::new();
    track.add(clip("A", TimeRange::new(5, 5)));
    track.add(clip("B", TimeRange::new(5, 5)));
    assert_eq!(track.query(5).unwrap().name, "B");
    assert_eq!(track.query(9).unwrap().name, "B");
    assert!(track.query(4).is_none());
    assert!(track.query(10).is_none());
    let entries = track.get_clips();
    assert_eq!(entries.len(), 1);
}

#[test]
fn test_replay_reproduces_track() {
    let a = clip("A", TimeRange::new(0, 10));
    let b = clip("B", TimeRange::new(4, 2));

    let mut built = Track::new();
    built.add(a.clone());
    built.add(b.clone());

    let replayed = Track::replay(vec![a, b]);
    for t in 0..12u64 {
        let x = built.query(t).map(|c| c.name.clone());
        let y = replayed.query(t).map(|c| c.name.clone());
        assert_eq!(x, y);
    }
    assert_eq!(replayed.get_clips().len(), 3);
}
