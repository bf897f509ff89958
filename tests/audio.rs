use std::collections::HashMap;
use voice_recorder::audio::{
    downsample, mix_audio_buffers, mix_tracks, prepare_for_transcription, rebuild_pcm_from_frames,
    resample, stereo_to_mono, upsample, AudioFormat,
};
use voice_recorder::frame::AudioFrame;
use voice_recorder::reconstruct::{rebuild_continuous_pcm, StreamingPcmRebuilder};

#[test]
fn test_stereo_to_mono() {
    let stereo = vec![100i16, 200, 300, 400, 500, 600];
    let mono = stereo_to_mono(&stereo);
    assert_eq!(mono, vec![150, 350, 550]);
}

#[test]
fn test_downsample() {
    // 48kHz to 16kHz = 1/3
    let samples: Vec<i16> = (0..48).collect();
    let downsampled = downsample(&samples, 48000, 16000);
    assert_eq!(downsampled.len(), 16);
}

#[test]
fn downmix_rounds_toward_zero_and_keeps_odd_tail() {
    assert_eq!(stereo_to_mono(&[-3, 0, 3, 0, 7]), vec![-1, 1, 7]);
    assert_eq!(stereo_to_mono(&[32767, 32767, -32768, -32768]), vec![32767, -32768]);
    assert!(stereo_to_mono(&[]).is_empty());
}

#[test]
fn downsample_takes_every_third_sample() {
    let samples: Vec<i16> = (0..9).map(|x| x * 10).collect();
    assert_eq!(downsample(&samples, 48000, 16000), vec![0, 30, 60]);
    assert_eq!(resample(&samples, 48000, 48000), samples);
}

#[test]
fn upsample_interpolates_between_samples() {
    assert_eq!(upsample(&[0, 100, 200], 16000, 32000), vec![0, 50, 100, 150, 200, 200]);
    assert_eq!(resample(&[0, -100], 1, 3), vec![0, -33, -66, -100, -100, -100]);
}

#[test]
fn transcription_preparation_downmixes_then_resamples() {
    let fmt = AudioFormat::discord_native();
    let stereo: Vec<i16> = vec![30, 30, 60, 60, 90, 90, 120, 120, 150, 150, 180, 180];
    assert_eq!(prepare_for_transcription(&stereo, fmt), vec![30, 120]);
    let mono = AudioFormat::transcription();
    assert_eq!(prepare_for_transcription(&[1, 2, 3], mono), vec![1, 2, 3]);
}

#[test]
fn audio_format_tick_sizes() {
    assert_eq!(AudioFormat::discord_native().samples_per_frame(), 1920);
    assert_eq!(AudioFormat::capture_mono().samples_per_frame(), 960);
    assert_eq!(AudioFormat::capture_mono().samples_per_tick_mono(), 960);
    assert_eq!(AudioFormat::transcription().samples_per_tick_mono(), 320);
}

#[test]
fn rebuild_fills_gaps_with_exact_silence() {
    let frames = vec![
        AudioFrame { tick_index: 0, samples: vec![1, 2, 3] },
        AudioFrame { tick_index: 5, samples: vec![4, 5] },
    ];
    let pcm = rebuild_continuous_pcm(&frames, 3);
    assert_eq!(pcm.len(), (5 - 0 + 1) * 3);
    assert_eq!(&pcm[0..3], &[1, 2, 3]);
    assert!(pcm[3..15].iter().all(|&s| s == 0));
    assert_eq!(&pcm[15..18], &[4, 5, 0]);
}

#[test]
fn rebuild_treats_explicit_silence_like_absence() {
    let sparse = vec![
        AudioFrame { tick_index: 10, samples: vec![9, 9] },
        AudioFrame { tick_index: 12, samples: vec![8, 8] },
    ];
    let dense = vec![
        AudioFrame { tick_index: 10, samples: vec![9, 9] },
        AudioFrame { tick_index: 11, samples: vec![0, 0] },
        AudioFrame { tick_index: 12, samples: vec![8, 8] },
    ];
    assert_eq!(rebuild_continuous_pcm(&sparse, 2), rebuild_continuous_pcm(&dense, 2));
    assert!(rebuild_continuous_pcm(&[], 960).is_empty());
}

#[test]
fn rebuild_caps_long_frames_to_one_tick() {
    let frames = vec![AudioFrame { tick_index: 0, samples: vec![1, 2, 3, 4] }, AudioFrame {
        tick_index: 1,
        samples: vec![5],
    }];
    assert_eq!(rebuild_continuous_pcm(&frames, 2), vec![1, 2, 5, 0]);
    // the audio variant lets a long frame run on until a later frame overwrites it
    let frames = vec![AudioFrame { tick_index: 0, samples: vec![1, 2, 3, 4] }, AudioFrame {
        tick_index: 2,
        samples: vec![5],
    }];
    assert_eq!(rebuild_pcm_from_frames(&frames, 2), vec![1, 2, 3, 4, 5, 0]);
}

#[test]
fn streaming_rebuilder_matches_full_rebuild() {
    let frames = vec![
        AudioFrame { tick_index: 2, samples: vec![1, 1] },
        AudioFrame { tick_index: 3, samples: vec![2, 2] },
        AudioFrame { tick_index: 6, samples: vec![3, 3] },
    ];
    let mut rb = StreamingPcmRebuilder::new(2, 2);
    let mut out = Vec::new();
    for f in &frames {
        out.extend(rb.process_frame(f));
    }
    assert_eq!(out, rebuild_continuous_pcm(&frames, 2));
    assert_eq!(out, vec![1, 1, 2, 2, 0, 0, 0, 0, 3, 3]);
}

#[test]
fn streaming_rebuilder_pads_short_and_cuts_long_frames() {
    let frames = vec![
        AudioFrame { tick_index: 0, samples: vec![7] },
        AudioFrame { tick_index: 1, samples: vec![8] },
        AudioFrame { tick_index: 3, samples: vec![1, 2, 3, 4] },
        AudioFrame { tick_index: 4, samples: vec![] },
    ];
    let mut rb = StreamingPcmRebuilder::new(2, 0);
    let mut out = Vec::new();
    for f in &frames {
        out.extend(rb.process_frame(f));
    }
    assert_eq!(out, vec![7, 0, 8, 0, 0, 0, 1, 2, 0, 0]);
    assert_eq!(out, rebuild_continuous_pcm(&frames, 2));
}

#[test]
fn mixing_takes_any_number_of_tracks() {
    let loud: Vec<i16> = vec![32767];
    let tracks: Vec<&[i16]> = (0..65536).map(|_| loud.as_slice()).collect();
    assert_eq!(mix_tracks(&tracks), vec![32767]);
    let quiet: Vec<i16> = vec![-32768, 1];
    let mut tracks: Vec<&[i16]> = (0..65535).map(|_| quiet.as_slice()).collect();
    tracks.push(&[]);
    assert_eq!(mix_tracks(&tracks), vec![-32767, 0]);
}

#[test]
fn mixing_averages_and_never_wraps() {
    let a: Vec<i16> = vec![32767, -32768, 10];
    let b: Vec<i16> = vec![32767, -32768];
    assert_eq!(mix_tracks(&[&a, &b]), vec![32767, -32768, 5]);
    assert_eq!(mix_tracks(&[&[-3i16][..], &[0i16][..]]), vec![-1]);
    assert!(mix_tracks(&[]).is_empty());
}

#[test]
fn mix_audio_buffers_mixes_every_speaker() {
    let mut buffers: HashMap<u64, Vec<i16>> = HashMap::new();
    buffers.insert(1, vec![100, 200, 300]);
    buffers.insert(2, vec![300]);
    assert_eq!(mix_audio_buffers(&buffers), vec![200, 100, 150]);
    assert!(mix_audio_buffers(&HashMap::new()).is_empty());
}
