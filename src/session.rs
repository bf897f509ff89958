//! The recording session of one capture scope: its lifecycle
//! (`Idle -> Active -> Stopping -> Idle`), its tick counter and its identity
//! map, and the receiver's two entry points that the voice transport calls.

use vstd::prelude::*;
use crate::audio::{downmixed, stereo_to_mono};
use crate::frame::AudioFrame;
use crate::identity::{after_update, IdentityMap};

verus! {

/// Samples in one 20 ms tick of 48 kHz stereo: a decoded packet of this
/// length is interleaved stereo and is downmixed.
pub const STEREO_FRAME_SAMPLES: usize = 1920;

/// Samples in one 20 ms tick of 48 kHz mono.
pub const MONO_FRAME_SAMPLES: usize = 960;

/// Where a capture scope stands.
#[derive(Debug, Clone, Copy, PartialEq, Eq, Structural)]
pub enum RecordingPhase {
    /// No session.
    Idle,
    /// Capturing: voice ticks produce frames.
    Active,
    /// Stopped; storage is being finalized and exported.
    Stopping,
}

/// A lifecycle request that does not fit the current phase.
#[derive(Debug, Clone, Copy, PartialEq, Eq, Structural)]
pub enum LifecycleError {
    /// `start` while a session exists.
    AlreadyActive,
    /// `stop` while no session is active.
    NotActive,
    /// `finish` while no stop is in progress.
    NotStopping,
    /// Every session identifier has been used.
    SessionIdsExhausted,
}

/// The abstract state of a scope.
pub struct RecordingView {
    pub phase: RecordingPhase,
    /// Number of sessions started so far; the next session's identifier.
    pub sessions_started: u64,
    /// Identifier of the current (or last) session.
    pub session_id: u64,
    /// The tick index the next voice tick will claim.
    pub next_tick: u64,
    /// Stream identifier to speaker identity.
    pub identities: Map<u32, u64>,
}

/// What `start` does: from `Idle` a new session begins, with a fresh
/// identifier, tick 0 and an empty identity map; in any other phase the
/// request is rejected and nothing changes.
pub open spec fn start_spec(v: RecordingView) -> (RecordingView, Result<u64, LifecycleError>) {
    if v.phase != RecordingPhase::Idle {
        (v, Err(LifecycleError::AlreadyActive))
    } else if v.sessions_started == u64::MAX {
        (v, Err(LifecycleError::SessionIdsExhausted))
    } else {
        (
            RecordingView {
                phase: RecordingPhase::Active,
                sessions_started: (v.sessions_started + 1) as u64,
                session_id: v.sessions_started,
                next_tick: 0,
                identities: Map::empty(),
            },
            Ok(v.sessions_started),
        )
    }
}

/// What `stop` does: an `Active` session moves to `Stopping` and hands over
/// its identifier, the number of ticks captured and its identity map; in
/// any other phase the request is rejected and nothing changes.
pub open spec fn stop_spec(v: RecordingView) -> (
    RecordingView,
    Result<(u64, u64, Map<u32, u64>), LifecycleError>,
) {
    if v.phase != RecordingPhase::Active {
        (v, Err(LifecycleError::NotActive))
    } else {
        (
            RecordingView { phase: RecordingPhase::Stopping, ..v },
            Ok((v.session_id, v.next_tick, v.identities)),
        )
    }
}

/// What `finish` does: `Stopping` returns to `Idle`; otherwise rejected.
pub open spec fn finish_spec(v: RecordingView) -> (RecordingView, Result<(), LifecycleError>) {
    if v.phase != RecordingPhase::Stopping {
        (v, Err(LifecycleError::NotStopping))
    } else {
        (RecordingView { phase: RecordingPhase::Idle, ..v }, Ok(()))
    }
}

/// A second `start` without a `stop` in between is rejected and leaves the
/// one active session as it was; `stop` on an idle scope is rejected and
/// changes nothing.
pub proof fn lemma_lifecycle_rejections(v: RecordingView)
    ensures
        start_spec(v).1 is Ok ==> {
            let s1 = start_spec(v).0;
            &&& s1.phase == RecordingPhase::Active
            &&& start_spec(s1) == (s1, Err::<u64, LifecycleError>(LifecycleError::AlreadyActive))
        },
        v.phase == RecordingPhase::Idle ==> stop_spec(v) == (
            v,
            Err::<(u64, u64, Map<u32, u64>), LifecycleError>(LifecycleError::NotActive),
        ),
{
}

/// A decoded (or undecodable) packet of one stream in one voice tick.
#[derive(Debug, Clone)]
pub struct VoicePacket {
    pub ssrc: u32,
    pub decoded: Option<Vec<i16>>,
}

/// The model of a packet.
pub open spec fn packet_model(p: VoicePacket) -> (u32, Option<Seq<i16>>) {
    (
        p.ssrc,
        match p.decoded {
            Some(v) => Some(v@),
            None => None,
        },
    )
}

/// The mono samples stored for decoded audio: a stereo-length packet is
/// downmixed, any other length is kept as it came.
pub open spec fn stored_samples(d: Seq<i16>) -> Seq<i16> {
    if d.len() == STEREO_FRAME_SAMPLES {
        downmixed(d)
    } else {
        d
    }
}

/// The frames a voice tick at `tick` yields, one per packet with non-empty
/// decoded audio, in packet order, each keyed by its stream identifier.
pub open spec fn tick_frames(ps: Seq<(u32, Option<Seq<i16>>)>, tick: u64) -> Seq<(u32, (u64, Seq<i16>))>
    decreases ps.len(),
{
    if ps.len() == 0 {
        Seq::empty()
    } else {
        let r = tick_frames(ps.drop_last(), tick);
        match ps.last().1 {
            Some(d) => if d.len() > 0 {
                r.push((ps.last().0, (tick, stored_samples(d))))
            } else {
                r
            },
            None => r,
        }
    }
}

/// The models of enqueued frames.
pub open spec fn keyed_frames_model(fs: Seq<(u32, AudioFrame)>) -> Seq<(u32, (u64, Seq<i16>))> {
    fs.map_values(|p: (u32, AudioFrame)| (p.0, (p.1.tick_index, p.1.samples@)))
}

/// The lock-guarded state of one capture scope.
#[derive(Debug, Clone)]
pub struct RecordingState {
    phase: RecordingPhase,
    sessions_started: u64,
    session_id: u64,
    next_tick: u64,
    identities: IdentityMap,
}

/// What a successful `stop` hands to storage finalization and export.
#[derive(Debug, Clone)]
pub struct StopHandoff {
    pub session_id: u64,
    pub ticks_captured: u64,
    pub identities: IdentityMap,
}

impl RecordingState {
    /// The abstract state.
    pub closed spec fn view_state(&self) -> RecordingView {
        RecordingView {
            phase: self.phase,
            sessions_started: self.sessions_started,
            session_id: self.session_id,
            next_tick: self.next_tick,
            identities: self.identities@,
        }
    }

    /// The identity map is well formed.
    pub closed spec fn wf(&self) -> bool {
        self.identities.wf()
    }

    /// An idle scope that has run no session.
    pub fn new() -> (r: RecordingState)
        ensures
            r.wf(),
            r.view_state().phase == RecordingPhase::Idle,
            r.view_state().sessions_started == 0,
            r.view_state().next_tick == 0,
            r.view_state().identities == Map::<u32, u64>::empty(),
    {
        RecordingState {
            phase: RecordingPhase::Idle,
            sessions_started: 0,
            session_id: 0,
            next_tick: 0,
            identities: IdentityMap::new(),
        }
    }

    /// The current phase.
    pub fn phase(&self) -> (r: RecordingPhase)
        ensures
            r == self.view_state().phase,
    {
        self.phase
    }

    /// Whether voice ticks are being captured.
    pub fn is_active(&self) -> (r: bool)
        ensures
            r == (self.view_state().phase == RecordingPhase::Active),
    {
        self.phase == RecordingPhase::Active
    }

    /// The tick index the next voice tick will claim.
    pub fn next_tick(&self) -> (r: u64)
        ensures
            r == self.view_state().next_tick,
    {
        self.next_tick
    }

    /// The current identity map.
    pub fn identities(&self) -> (r: &IdentityMap)
        requires
            self.wf(),
        ensures
            r@ == self.view_state().identities,
            r.wf(),
    {
        &self.identities
    }

    /// Begins a session: rejected unless the scope is idle.
    pub fn start(&mut self) -> (r: Result<u64, LifecycleError>)
        requires
            old(self).wf(),
        ensures
            final(self).wf(),
            (final(self).view_state(), r) == start_spec(old(self).view_state()),
    {
        if self.phase != RecordingPhase::Idle {
            return Err(LifecycleError::AlreadyActive);
        }
        if self.sessions_started == u64::MAX {
            return Err(LifecycleError::SessionIdsExhausted);
        }
        let id = self.sessions_started;
        self.sessions_started = id + 1;
        self.session_id = id;
        self.next_tick = 0;
        self.identities = IdentityMap::new();
        self.phase = RecordingPhase::Active;
        Ok(id)
    }

    /// Ends capture: rejected unless a session is active. The session moves
    /// to `Stopping` until `finish`.
    pub fn stop(&mut self) -> (r: Result<StopHandoff, LifecycleError>)
        requires
            old(self).wf(),
        ensures
            final(self).wf(),
            final(self).view_state() == stop_spec(old(self).view_state()).0,
            match (r, stop_spec(old(self).view_state()).1) {
                (Ok(h), Ok((id, ticks, ids))) => h.session_id == id && h.ticks_captured == ticks
                    && h.identities@ == ids && h.identities.wf(),
                (Err(e), Err(me)) => e == me,
                _ => false,
            },
    {
        if self.phase != RecordingPhase::Active {
            return Err(LifecycleError::NotActive);
        }
        self.phase = RecordingPhase::Stopping;
        Ok(
            StopHandoff {
                session_id: self.session_id,
                ticks_captured: self.next_tick,
                identities: self.identities.clone_map(),
            },
        )
    }

    /// Acknowledges that the stopped session was finalized and exported;
    /// the scope becomes idle.
    pub fn finish(&mut self) -> (r: Result<(), LifecycleError>)
        requires
            old(self).wf(),
        ensures
            final(self).wf(),
            (final(self).view_state(), r) == finish_spec(old(self).view_state()),
    {
        if self.phase != RecordingPhase::Stopping {
            return Err(LifecycleError::NotStopping);
        }
        self.phase = RecordingPhase::Idle;
        Ok(())
    }

    /// Speaking-state notification: records the stream's speaker when one
    /// is given. Never blocks, and is idempotent.
    pub fn on_speaking_update(&mut self, ssrc: u32, user: Option<u64>)
        requires
            old(self).wf(),
        ensures
            final(self).wf(),
            final(self).view_state() == (RecordingView {
                identities: after_update(old(self).view_state().identities, ssrc, user),
                ..old(self).view_state()
            }),
    {
        self.identities.update(ssrc, user);
    }

    /// Voice-tick notification. When a session is active the tick claims the
    /// next tick index (one per event, however many streams speak in it) and
    /// yields one frame per stream with non-empty decoded audio, keyed by its
    /// stream identifier, to be enqueued for the writer. Otherwise nothing
    /// happens. A tick counter at its limit skips the tick.
    pub fn on_voice_tick(&mut self, packets: &[VoicePacket]) -> (r: Vec<(u32, AudioFrame)>)
        requires
            old(self).wf(),
        ensures
            final(self).wf(),
            ({
                let v = old(self).view_state();
                if v.phase == RecordingPhase::Active && v.next_tick < u64::MAX {
                    &&& final(self).view_state() == (RecordingView {
                        next_tick: (v.next_tick + 1) as u64,
                        ..v
                    })
                    &&& keyed_frames_model(r@) == tick_frames(
                        packets@.map_values(|p: VoicePacket| packet_model(p)),
                        v.next_tick,
                    )
                } else {
                    &&& final(self).view_state() == v
                    &&& r@.len() == 0
                }
            }),
    {
        let mut out: Vec<(u32, AudioFrame)> = Vec::new();
        if self.phase != RecordingPhase::Active || self.next_tick == u64::MAX {
            return out;
        }
        let tick = self.next_tick;
        self.next_tick = tick + 1;
        let ghost pm = packets@.map_values(|p: VoicePacket| packet_model(p));
        let mut i: usize = 0;
        while i < packets.len()
            invariant
                0 <= i <= packets@.len(),
                pm == packets@.map_values(|p: VoicePacket| packet_model(p)),
                keyed_frames_model(out@) == tick_frames(pm.take(i as int), tick),
            decreases packets@.len() - i,
        {
            assert(pm.take(i + 1).drop_last() =~= pm.take(i as int));
            assert(pm.take(i + 1).last() == packet_model(packets@[i as int]));
            let p = &packets[i];
            match &p.decoded {
                Some(d) => {
                    if d.len() > 0 {
                        let samples = if d.len() == STEREO_FRAME_SAMPLES {
                            stereo_to_mono(d.as_slice())
                        } else {
                            d.clone()
                        };
                        let ghost before = keyed_frames_model(out@);
                        let item = (p.ssrc, AudioFrame { tick_index: tick, samples });
                        out.push(item);
                        assert(keyed_frames_model(out@) =~= before.push(
                            (p.ssrc, (tick, stored_samples(d@))),
                        ));
                    }
                },
                None => {},
            }
            i = i + 1;
        }
        assert(pm.take(i as int) =~= pm);
        out
    }
}

} // verus!
