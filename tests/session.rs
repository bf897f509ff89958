use voice_recorder::identity::IdentityMap;
use voice_recorder::session::{LifecycleError, RecordingPhase, RecordingState, VoicePacket};
use voice_recorder::writer::{StorageWriter, WriterAction, WriterMessage};
use voice_recorder::frame::AudioFrame;

#[test]
fn second_start_is_rejected_and_one_session_stays_active() {
    let mut s = RecordingState::new();
    assert_eq!(s.start(), Ok(0));
    s.on_voice_tick(&[VoicePacket { ssrc: 1, decoded: Some(vec![1]) }]);
    assert_eq!(s.start(), Err(LifecycleError::AlreadyActive));
    assert_eq!(s.phase(), RecordingPhase::Active);
    assert_eq!(s.next_tick(), 1);
}

#[test]
fn stop_on_idle_is_rejected_without_side_effects() {
    let mut s = RecordingState::new();
    s.on_speaking_update(5, Some(50));
    assert!(matches!(s.stop(), Err(LifecycleError::NotActive)));
    assert_eq!(s.phase(), RecordingPhase::Idle);
    assert_eq!(s.identities().get(5), Some(50));
}

#[test]
fn lifecycle_runs_idle_active_stopping_idle() {
    let mut s = RecordingState::new();
    assert_eq!(s.start(), Ok(0));
    s.on_speaking_update(10, Some(100));
    s.on_voice_tick(&[]);
    s.on_voice_tick(&[]);
    let h = s.stop().unwrap();
    assert_eq!(h.session_id, 0);
    assert_eq!(h.ticks_captured, 2);
    assert_eq!(h.identities.get(10), Some(100));
    assert_eq!(s.start(), Err(LifecycleError::AlreadyActive));
    assert_eq!(s.finish(), Ok(()));
    assert_eq!(s.finish(), Err(LifecycleError::NotStopping));
    assert_eq!(s.start(), Ok(1));
    assert_eq!(s.next_tick(), 0);
    assert_eq!(s.identities().len(), 0);
}

#[test]
fn voice_tick_claims_one_index_and_downmixes_stereo() {
    let mut s = RecordingState::new();
    assert!(s.on_voice_tick(&[VoicePacket { ssrc: 1, decoded: Some(vec![1]) }]).is_empty());
    s.start().unwrap();
    let stereo: Vec<i16> = (0..1920).map(|i| (i % 2) as i16 * 2).collect();
    let odd: Vec<i16> = vec![5; 7];
    let out = s.on_voice_tick(&[
        VoicePacket { ssrc: 1, decoded: Some(stereo) },
        VoicePacket { ssrc: 2, decoded: None },
        VoicePacket { ssrc: 3, decoded: Some(vec![]) },
        VoicePacket { ssrc: 4, decoded: Some(odd.clone()) },
    ]);
    assert_eq!(out.len(), 2);
    assert_eq!(out[0].0, 1);
    assert_eq!(out[0].1.tick_index, 0);
    assert_eq!(out[0].1.samples, vec![1; 960]);
    assert_eq!(out[1].0, 4);
    assert_eq!(out[1].1.samples, odd);
    let out = s.on_voice_tick(&[VoicePacket { ssrc: 9, decoded: Some(vec![3; 960]) }]);
    assert_eq!(out[0].1.tick_index, 1);
    assert_eq!(out[0].1.samples.len(), 960);
}

#[test]
fn writer_buffers_per_stream_and_flushes_on_request() {
    let mut w = StorageWriter::new();
    let f = |t: u64| AudioFrame { tick_index: t, samples: vec![t as i16] };
    assert!(matches!(w.on_message(WriterMessage::Frame { stream_id: 2, frame: f(0) }), WriterAction::Continue));
    w.on_message(WriterMessage::Frame { stream_id: 1, frame: f(0) });
    w.on_message(WriterMessage::Frame { stream_id: 2, frame: f(1) });
    let mut ids = IdentityMap::new();
    ids.insert(2, 20);
    w.on_message(WriterMessage::IdentityMapUpdate { map: ids });
    match w.on_message(WriterMessage::Flush) {
        WriterAction::Flush(work) => {
            assert_eq!(work.batches.len(), 2);
            assert_eq!(work.batches[0].stream_id, 2);
            let ticks: Vec<u64> = work.batches[0].frames.iter().map(|f| f.tick_index).collect();
            assert_eq!(ticks, vec![0, 1]);
            assert_eq!(work.batches[1].stream_id, 1);
            assert_eq!(work.snapshot.unwrap().get(2), Some(20));
        }
        _ => panic!("expected a flush"),
    }
    match w.on_timer() {
        WriterAction::Flush(work) => assert!(work.batches.is_empty()),
        _ => panic!("the snapshot is rewritten on every flush"),
    }
}

#[test]
fn writer_shutdown_flushes_then_stops() {
    let mut w = StorageWriter::new();
    assert!(matches!(w.on_timer(), WriterAction::Continue));
    w.on_message(WriterMessage::Frame {
        stream_id: 3,
        frame: AudioFrame { tick_index: 4, samples: vec![1] },
    });
    match w.on_channel_closed() {
        WriterAction::FlushAndExit(work) => {
            assert_eq!(work.batches.len(), 1);
            assert!(work.snapshot.is_none());
        }
        _ => panic!("expected the final flush"),
    }
    assert!(w.finished());
    assert!(matches!(w.on_message(WriterMessage::Shutdown), WriterAction::Continue));
}
