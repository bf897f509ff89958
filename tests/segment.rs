use voice_recorder::frame::AudioFrame;
use voice_recorder::segment::{SegmentConfig, Segmenter, SpeechSegment};

fn frames(ticks: impl Iterator<Item = u64>) -> Vec<AudioFrame> {
    ticks.map(|t| AudioFrame { tick_index: t, samples: vec![t as i16] }).collect()
}

fn config(max_gap: u64, min: u64, max: u64) -> SegmentConfig {
    SegmentConfig {
        max_gap_ticks: max_gap,
        min_segment_ticks: min,
        max_segment_ticks: max,
        ..SegmentConfig::default()
    }
}

fn spans(segs: &[SpeechSegment]) -> Vec<(u64, u64)> {
    segs.iter().map(|s| (s.start_tick, s.end_tick)).collect()
}

#[test]
fn small_gap_is_bridged() {
    let fs = frames((0..=10).chain(13..=20));
    let segs = Segmenter::new(config(2, 1, 2250)).segment_frames(7, &fs);
    assert_eq!(spans(&segs), vec![(0, 20)]);
    assert_eq!(segs[0].frames.len(), 19);
    assert_eq!(segs[0].user_id, 7);
}

#[test]
fn larger_gap_splits() {
    let fs = frames((0..=10).chain(13..=20));
    let segs = Segmenter::new(config(1, 1, 2250)).segment_frames(7, &fs);
    assert_eq!(spans(&segs), vec![(0, 10), (13, 20)]);
    assert_eq!(segs[0].id, 0);
    assert_eq!(segs[1].id, 1);
}

#[test]
fn overlong_run_is_force_closed() {
    let fs = frames(0..10);
    let segs = Segmenter::new(config(2, 1, 4)).segment_frames(1, &fs);
    assert_eq!(spans(&segs), vec![(0, 3), (4, 7), (8, 9)]);
    assert_eq!(segs[2].tick_count(), 2);
}

#[test]
fn short_segments_are_dropped_unless_alone() {
    let fs = frames((0..3).chain(100..130));
    let segs = Segmenter::with_defaults().segment_frames(1, &fs);
    assert_eq!(spans(&segs), vec![(100, 129)]);

    let lone = frames(0..1);
    let segs = Segmenter::with_defaults().segment_frames(1, &lone);
    assert_eq!(spans(&segs), vec![(0, 0)]);

    let fs = frames((0..30).chain(100..103));
    let segs = Segmenter::with_defaults().segment_frames(1, &fs);
    assert_eq!(spans(&segs), vec![(0, 29)]);

    assert!(Segmenter::with_defaults().segment_frames(1, &[]).is_empty());
}

#[test]
fn overlap_borrows_next_segments_leading_frames() {
    let fs = frames((0..=10).chain(13..=20));
    let seg = Segmenter::new(SegmentConfig { overlap_ticks: 3, ..config(1, 1, 2250) });
    let segs = seg.segment_frames(1, &fs);
    let over = seg.create_overlapping_segments(&segs);
    assert_eq!(spans(&over), vec![(0, 15), (13, 20)]);
    assert_eq!(over[0].frames.len(), 14);
    assert_eq!(spans(&segs), vec![(0, 10), (13, 20)]);
}

#[test]
fn segment_defaults() {
    let c = SegmentConfig::default();
    assert_eq!(c.max_gap_ticks, 2);
    assert_eq!(c.min_segment_ticks, 25);
    assert_eq!(c.max_segment_ticks, 2250);
    assert_eq!(c.overlap_ticks, 25);
    assert_eq!(c.ticks_to_millis(50), 1000);
    assert_eq!(Segmenter::with_defaults().config().target_segment_ticks, 1500);
}
