use voice_recorder::export::{
    align_track, frame_map_of, plan_tracks, segment_offsets_ms, segment_stt_audio, speaker_track,
    SessionExporter,
};
use voice_recorder::identity::IdentityMap;
use voice_recorder::frame::{AudioFrame, FileHeader};
use voice_recorder::segment::{SegmentConfig, SpeechSegment};
use voice_recorder::transcript::{collect_segments, keep_segments, TimedText};
use voice_recorder::transcription::ExportConfig;
use voice_recorder::wav::samples_to_wav_bytes;
use std::collections::HashMap;

fn f(t: u64, s: Vec<i16>) -> AudioFrame {
    AudioFrame { tick_index: t, samples: s }
}

#[test]
fn export_stream_rebuilds_and_segments() {
    let exporter = SessionExporter::new(ExportConfig::default())
        .with_segment_config(SegmentConfig { min_segment_ticks: 1, ..SegmentConfig::default() });
    let header = FileHeader::new(100, 1);
    let frames = vec![f(4, vec![1, 2]), f(6, vec![3])];
    let e = exporter.export_stream(77, &header, &frames).unwrap();
    assert_eq!(e.pcm, vec![1, 2, 0, 0, 3, 0]);
    assert_eq!(e.last_tick, 6);
    assert_eq!(e.segments.len(), 1);
    assert_eq!((e.segments[0].start_tick, e.segments[0].end_tick), (4, 6));
    assert_eq!(e.segments[0].user_id, 77);
    assert!(exporter.export_stream(77, &header, &[]).is_none());
    assert!(exporter.config().mixed_wav);
}

#[test]
fn exporter_mixes_speakers() {
    let exporter = SessionExporter::new(ExportConfig::default());
    let mut pcm: HashMap<u64, Vec<i16>> = HashMap::new();
    pcm.insert(1, vec![32767, 32767]);
    pcm.insert(2, vec![32767]);
    assert_eq!(exporter.mix_user_audio(&pcm), vec![32767, 16383]);
}

#[test]
fn segment_audio_is_brought_to_sixteen_khz() {
    let seg = SpeechSegment {
        id: 0,
        start_tick: 0,
        end_tick: 0,
        frames: vec![f(0, (0..960).map(|i| (i % 3) as i16).collect())],
        user_id: 1,
    };
    let audio = segment_stt_audio(&seg);
    assert_eq!(audio.len(), 320);
    assert!(audio.iter().all(|&s| s == 0));
}

#[test]
fn speaker_track_merges_streams_of_one_speaker() {
    let a = frame_map_of(&[f(10, vec![30000]), f(12, vec![5])]);
    let b = frame_map_of(&[f(10, vec![30000]), f(11, vec![7])]);
    let (audio, first, last) = speaker_track(vec![a, b]);
    assert_eq!((first, last), (10, 12));
    assert_eq!(audio, vec![32767, 7, 5]);
    let (none, first, last) = speaker_track(vec![]);
    assert!(none.is_empty());
    assert_eq!((first, last), (0, 0));
}

#[test]
fn wav_framing() {
    let wav = samples_to_wav_bytes(&[0, 16383, -16384]);
    assert_eq!(&wav[0..4], b"RIFF");
    assert_eq!(&wav[4..8], &(36u32 + 6).to_le_bytes());
    assert_eq!(&wav[8..12], b"WAVE");
    assert_eq!(&wav[12..16], b"fmt ");
    assert_eq!(&wav[24..28], &16000u32.to_le_bytes());
    assert_eq!(&wav[36..40], b"data");
    assert_eq!(&wav[40..44], &6u32.to_le_bytes());
    assert_eq!(&wav[44..], &[0, 0, 0xff, 0x3f, 0x00, 0xc0]);
}

fn tt(a: i64, b: i64, s: &str) -> TimedText {
    TimedText { start_cs: a, end_cs: b, text: s.to_string() }
}

#[test]
fn repeated_segments_are_cut_after_two() {
    let segs = vec![tt(0, 1, "a"), tt(1, 2, "a"), tt(2, 3, "a"), tt(3, 4, ""), tt(4, 5, "b"), tt(5, 6, "a")];
    let kept = keep_segments(&segs);
    let texts: Vec<&str> = kept.iter().map(|t| t.text.as_str()).collect();
    assert_eq!(texts, vec!["a", "a", "b", "a"]);
    assert_eq!(kept[2].start_cs, 4);
}

#[test]
fn raw_segments_are_trimmed_and_joined() {
    let raw = vec![tt(0, 150, "  Hello "), tt(150, 300, "   "), tt(300, 420, "world\n")];
    let (kept, text) = collect_segments(&raw);
    assert_eq!(kept.len(), 2);
    assert_eq!(kept[0].text, "Hello");
    assert_eq!(kept[1].end_cs, 420);
    assert_eq!(text, "Hello world");
}

#[test]
fn tracks_follow_the_identity_map() {
    let mut ids = IdentityMap::new();
    ids.insert(1001, 12345);
    ids.insert(1000, 12345);
    ids.insert(2000, 67890);
    ids.insert(3000, 11111);
    let (speakers, orphans) = plan_tracks(&[2000, 1001, 4000, 1000, 5000], &ids);
    assert_eq!(speakers, vec![(67890, vec![2000]), (12345, vec![1000, 1001])]);
    assert_eq!(orphans, vec![4000, 5000]);
}

#[test]
fn segment_offsets_and_alignment() {
    let seg = SpeechSegment { id: 0, start_tick: 110, end_tick: 159, frames: vec![], user_id: 1 };
    assert_eq!(segment_offsets_ms(&seg, 100), (200, 1200));
    let aligned = align_track(&[5, 6], 12, 10);
    assert_eq!(aligned.len(), 2 * 960 + 2);
    assert!(aligned[..1920].iter().all(|&s| s == 0));
    assert_eq!(&aligned[1920..], &[5, 6]);
}
