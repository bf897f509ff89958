use voice_recorder::codec::{decode_stream, encode_stream, CodecError};
use voice_recorder::frame::{AudioFrame, FileHeader};
use voice_recorder::storage::{SparseAudioReader, SparseAudioWriter};

fn frame(tick: u64, samples: Vec<i16>) -> AudioFrame {
    AudioFrame { tick_index: tick, samples }
}

#[test]
fn test_sparse_audio_roundtrip() {
    let bytes = {
        let mut writer = SparseAudioWriter::create(48000, 1);
        writer.write_frame(&frame(0, vec![100, 200, 300])).unwrap();
        // Gap of 4 ticks (implicit silence)
        writer.write_frame(&frame(5, vec![400, 500])).unwrap();
        writer.finalize()
    };

    let mut reader = SparseAudioReader::open(bytes).unwrap();
    assert_eq!(reader.header().sample_rate, 48000);
    assert_eq!(reader.header().channels, 1);

    let frames = reader.read_all_frames().unwrap();
    assert_eq!(frames.len(), 2);

    assert_eq!(frames[0].tick_index, 0);
    assert_eq!(frames[0].samples, vec![100, 200, 300]);

    assert_eq!(frames[1].tick_index, 5);
    assert_eq!(frames[1].samples, vec![400, 500]);
}

#[test]
fn round_trip_full_read_and_iterator_agree() {
    let frames = vec![
        frame(3, vec![-32768, 32767, 0, -1]),
        frame(4, vec![]),
        frame(1_000_000_000_000, vec![7; 960]),
    ];
    let header = FileHeader::new(16000, 2);
    let bytes = encode_stream(&header, &frames).unwrap();

    let (h, decoded) = decode_stream(&bytes).unwrap();
    assert_eq!(h, header);
    assert_eq!(decoded.len(), 3);
    for (a, b) in decoded.iter().zip(frames.iter()) {
        assert_eq!(a.tick_index, b.tick_index);
        assert_eq!(a.samples, b.samples);
    }

    let mut reader = SparseAudioReader::open(bytes).unwrap();
    let mut one_by_one = Vec::new();
    while let Some(f) = reader.read_frame().unwrap() {
        one_by_one.push(f);
    }
    assert_eq!(one_by_one.len(), 3);
    for (a, b) in one_by_one.iter().zip(frames.iter()) {
        assert_eq!(a.tick_index, b.tick_index);
        assert_eq!(a.samples, b.samples);
    }
}

#[test]
fn header_layout_is_little_endian() {
    let bytes = encode_stream(&FileHeader::new(48000, 2), &[frame(0x0102, vec![-2])]).unwrap();
    assert_eq!(
        bytes,
        vec![
            b'W', b'R', b'T', b'Y', 1, 0x80, 0xbb, 0, 0, 2, 0, // header
            0x02, 0x01, 0, 0, 0, 0, 0, 0, // tick
            1, 0, // count
            0xfe, 0xff, // -2
        ]
    );
    assert_eq!(FileHeader::size(), 11);
}

#[test]
fn empty_stream_decodes_to_no_frames() {
    let bytes = encode_stream(&FileHeader::new(48000, 1), &[]).unwrap();
    let (_, frames) = decode_stream(&bytes).unwrap();
    assert!(frames.is_empty());
}

#[test]
fn unknown_magic_is_rejected() {
    let mut bytes = encode_stream(&FileHeader::new(48000, 1), &[]).unwrap();
    bytes[0] = b'X';
    assert_eq!(decode_stream(&bytes).unwrap_err(), CodecError::BadMagic);
    assert!(matches!(SparseAudioReader::open(bytes), Err(CodecError::BadMagic)));
}

#[test]
fn unknown_version_is_rejected() {
    let mut bytes = encode_stream(&FileHeader::new(48000, 1), &[]).unwrap();
    bytes[4] = 2;
    assert_eq!(decode_stream(&bytes).unwrap_err(), CodecError::UnsupportedVersion(2));
}

#[test]
fn short_header_is_rejected() {
    assert_eq!(decode_stream(&[b'W', b'R', b'T']).unwrap_err(), CodecError::TruncatedHeader);
}

#[test]
fn truncated_record_is_an_error_not_the_end() {
    let bytes = encode_stream(&FileHeader::new(48000, 1), &[frame(1, vec![1, 2, 3])]).unwrap();
    let cut = bytes[..bytes.len() - 1].to_vec();
    assert_eq!(decode_stream(&cut).unwrap_err(), CodecError::TruncatedRecord);
    let partial_tick = bytes[..11 + 5].to_vec();
    assert_eq!(decode_stream(&partial_tick).unwrap_err(), CodecError::TruncatedRecord);
    let mut reader = SparseAudioReader::open(cut).unwrap();
    assert_eq!(reader.read_frame().unwrap_err(), CodecError::TruncatedRecord);
}

#[test]
fn overlong_frame_is_refused() {
    let long = frame(0, vec![0; 65536]);
    assert_eq!(
        encode_stream(&FileHeader::new(48000, 1), &[long.clone()]).unwrap_err(),
        CodecError::FrameTooLong
    );
    let mut writer = SparseAudioWriter::create(48000, 1);
    assert_eq!(writer.write_frame(&long).unwrap_err(), CodecError::FrameTooLong);
    assert_eq!(writer.frames_written(), 0);
    assert!(writer.write_frame(&frame(0, vec![0; 65535])).is_ok());
    assert_eq!(writer.frames_written(), 1);
}

#[test]
fn iterator_yields_frames_then_stops() {
    let bytes = encode_stream(&FileHeader::new(8000, 1), &[frame(1, vec![1]), frame(2, vec![2])]).unwrap();
    let mut it = SparseAudioReader::open(bytes.clone()).unwrap().into_iter();
    assert_eq!(it.next().unwrap().unwrap().tick_index, 1);
    assert_eq!(it.next().unwrap().unwrap().samples, vec![2]);
    assert!(it.next().is_none());

    let mut it = SparseAudioReader::open(bytes[..bytes.len() - 1].to_vec()).unwrap().into_iter();
    assert!(it.next().unwrap().is_ok());
    assert_eq!(it.next().unwrap().unwrap_err(), CodecError::TruncatedRecord);
    assert!(it.next().is_none());
}

#[test]
fn header_write_then_read() {
    let h = FileHeader::new(44100, 2);
    let mut out = vec![9u8];
    h.write_to(&mut out);
    assert_eq!(out.len(), 1 + FileHeader::size());
    assert_eq!(FileHeader::read_from(&out[1..]), Ok(h));
    assert_eq!(FileHeader::read_from(&out[1..5]), Err(CodecError::TruncatedHeader));
}
