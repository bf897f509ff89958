use voice_recorder::merge::{merge_frame_maps, reconstruct_audio, FrameMap};

fn map(entries: &[(u64, Vec<i16>)]) -> FrameMap {
    let mut m = FrameMap::new();
    for (t, s) in entries {
        m.insert_or_mix(*t, s.clone());
    }
    m
}

#[test]
fn merging_clamps_instead_of_wrapping() {
    let a = map(&[(1, vec![30000, -30000, 5]), (2, vec![1])]);
    let b = map(&[(1, vec![30000, -30000]), (3, vec![2])]);
    let merged = merge_frame_maps(vec![a, b]);
    assert_eq!(merged.get(1).unwrap(), &vec![32767, -32768, 5]);
    assert_eq!(merged.get(2).unwrap(), &vec![1]);
    assert_eq!(merged.get(3).unwrap(), &vec![2]);
    assert!(merged.get(4).is_none());
    assert!(merge_frame_maps(vec![]).is_empty());
}

#[test]
fn merging_keeps_the_first_streams_length() {
    let a = map(&[(1, vec![1])]);
    let b = map(&[(1, vec![2, 3])]);
    let merged = merge_frame_maps(vec![a, b]);
    assert_eq!(merged.get(1).unwrap(), &vec![3]);
}

#[test]
fn reconstruct_audio_fills_missing_ticks() {
    let m = map(&[(5, vec![1, 2]), (7, vec![3])]);
    let (audio, first, last) = reconstruct_audio(&m);
    assert_eq!((first, last), (5, 7));
    assert_eq!(audio.len(), 2 + 960 + 1);
    assert_eq!(&audio[..2], &[1, 2]);
    assert!(audio[2..962].iter().all(|&s| s == 0));
    assert_eq!(audio[962], 3);
    let (empty, f, l) = reconstruct_audio(&FrameMap::new());
    assert!(empty.is_empty());
    assert_eq!((f, l), (0, 0));
}
