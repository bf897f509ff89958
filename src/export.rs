//! Export of a stopped session: per-stream reconstruction and segmentation,
//! speaker tracks built from all of a speaker's streams, the mixed track, and
//! transcription-ready audio per segment. Reading the stream files and
//! writing the outputs is left to the caller.

use vstd::prelude::*;
use std::collections::HashMap;
use crate::audio::{
    enumerates, mix_audio_buffers, mixed, prepare_for_transcription, prepared, rebuild_pcm_from_frames,
    resample_ok, AudioFormat, TRANSCRIPTION_SAMPLE_RATE,
};
use crate::frame::{frames_model, ticks_increasing, AudioFrame, FileHeader};
use crate::merge::{maps_view, merge_all, merge_frame_maps, reconstruct_audio, tick_map, tick_span, ticks_audio, FrameMap};
use crate::reconstruct::{rebuild_fits, rebuilt, silence, zeros};
use crate::segment::{segmentation, segs_model, SegmentConfig, Segmenter, SpeechSegment};
use crate::transcription::ExportConfig;
use crate::identity::{group_by_speaker, increasing_u32, lists_streams_of, IdentityMap};

verus! {

/// Samples per tick of the 48 kHz mono audio that segments are rebuilt from.
pub const CAPTURE_SAMPLES_PER_TICK: usize = 960;

/// What one stream contributes to an export.
#[derive(Debug, Clone)]
pub struct StreamExport {
    /// Its speech segments.
    pub segments: Vec<SpeechSegment>,
    /// Its continuous PCM.
    pub pcm: Vec<i16>,
    /// Its last tick: how far into the session it reaches.
    pub last_tick: u64,
}

/// Exports stopped sessions.
#[derive(Debug, Clone)]
pub struct SessionExporter {
    config: ExportConfig,
    segmenter: Segmenter,
}

impl SessionExporter {
    /// The segmentation settings in use.
    pub closed spec fn seg_cfg(&self) -> SegmentConfig {
        self.segmenter.cfg()
    }

    /// What the export produces.
    pub closed spec fn export_cfg(&self) -> ExportConfig {
        self.config
    }

    /// An exporter with the default segmentation settings.
    pub fn new(config: ExportConfig) -> (r: SessionExporter)
        ensures
            r.export_cfg() == config,
            crate::segment::is_default_config(r.seg_cfg()),
    {
        SessionExporter { config, segmenter: Segmenter::with_defaults() }
    }

    /// The same exporter with other segmentation settings.
    pub fn with_segment_config(self, segment_config: SegmentConfig) -> (r: SessionExporter)
        ensures
            r.export_cfg() == self.export_cfg(),
            r.seg_cfg() == segment_config,
    {
        SessionExporter { config: self.config, segmenter: Segmenter::new(segment_config) }
    }

    /// What the export produces.
    pub fn config(&self) -> (r: &ExportConfig)
        ensures
            *r == self.export_cfg(),
    {
        &self.config
    }

    /// One stream's part of the export: its segments (tagged with
    /// `user_id`), its continuous PCM at `header`'s rate (one tick is a
    /// fiftieth of a second), and its last tick. `None` when the stream
    /// holds no frames.
    pub fn export_stream(&self, user_id: u64, header: &FileHeader, frames: &[AudioFrame]) -> (r:
        Option<StreamExport>)
        requires
            ticks_increasing(frames_model(frames@)),
            rebuild_fits(frames_model(frames@), (header.sample_rate / 50) as nat),
        ensures
            frames@.len() == 0 <==> r is None,
            r matches Some(e) ==> {
                &&& segs_model(e.segments@) == segmentation(
                    frames_model(frames@),
                    self.seg_cfg().max_gap_ticks,
                    self.seg_cfg().min_segment_ticks,
                    self.seg_cfg().max_segment_ticks,
                )
                &&& forall|i: int|
                    0 <= i < e.segments@.len() ==> (#[trigger] e.segments@[i]).user_id == user_id
                &&& e.pcm@ == rebuilt(frames_model(frames@), (header.sample_rate / 50) as nat, false)
                &&& e.last_tick == frames@.last().tick_index
            },
    {
        if frames.len() == 0 {
            return None;
        }
        let last = frames[frames.len() - 1].tick_index;
        let segments = self.segmenter.segment_frames(user_id, frames);
        let spt = (header.sample_rate / 50) as usize;
        let pcm = rebuild_pcm_from_frames(frames, spt);
        Some(StreamExport { segments, pcm, last_tick: last })
    }

    /// The speakers' tracks mixed into one: the average over all speakers,
    /// clamped to the 16-bit range.
    pub fn mix_user_audio(&self, user_pcm: &HashMap<u64, Vec<i16>>) -> (r: Vec<i16>)
        ensures
            exists|ts: Seq<Seq<i16>>| enumerates(user_pcm@, ts) && r@ == mixed(ts),
    {
        mix_audio_buffers(user_pcm)
    }
}

/// Milliseconds in one tick.
pub const TICK_MS: u64 = 20;

/// Where a segment lies, in milliseconds from its speaker's first captured
/// tick `first_tick`: from the start of its first tick to the end of its
/// last. This is what re-anchors a transcript to session time.
pub fn segment_offsets_ms(segment: &SpeechSegment, first_tick: u64) -> (r: (u128, u128))
    requires
        first_tick <= segment.start_tick <= segment.end_tick,
    ensures
        r.0 == (segment.start_tick - first_tick) * TICK_MS,
        r.1 == (segment.end_tick + 1 - first_tick) * TICK_MS,
{
    let start = (segment.start_tick - first_tick) as u128;
    let end = (segment.end_tick - first_tick) as u128 + 1;
    (start * (TICK_MS as u128), end * (TICK_MS as u128))
}

/// A track that starts at `first_tick`, placed on the session's tick axis
/// starting at `session_first`: silence for the ticks before it, then the
/// track.
pub fn align_track(samples: &[i16], first_tick: u64, session_first: u64) -> (r: Vec<i16>)
    requires
        session_first <= first_tick,
        (first_tick - session_first) * CAPTURE_SAMPLES_PER_TICK + samples@.len() <= usize::MAX,
    ensures
        r@ == silence(((first_tick - session_first) * CAPTURE_SAMPLES_PER_TICK) as nat) + samples@,
{
    let lead = ((first_tick - session_first) as usize) * CAPTURE_SAMPLES_PER_TICK;
    let mut out = zeros(lead);
    let ghost pre = out@;
    let mut i: usize = 0;
    while i < samples.len()
        invariant
            0 <= i <= samples@.len(),
            out@ == pre + samples@.take(i as int),
        decreases samples@.len() - i,
    {
        out.push(samples[i]);
        i = i + 1;
        assert(out@ =~= pre + samples@.take(i as int));
    }
    assert(samples@.take(i as int) =~= samples@);
    out
}

/// The transcription-ready audio of a segment: its frames rebuilt at 48 kHz
/// mono, then brought to the transcription rate.
pub fn segment_stt_audio(segment: &SpeechSegment) -> (r: Vec<i16>)
    requires
        ticks_increasing(frames_model(segment.frames@)),
        rebuild_fits(frames_model(segment.frames@), CAPTURE_SAMPLES_PER_TICK as nat),
    ensures
        r@ == prepared(
            rebuilt(frames_model(segment.frames@), CAPTURE_SAMPLES_PER_TICK as nat, false),
            AudioFormat::capture_mono_spec(),
        ),
{
    let pcm = rebuild_pcm_from_frames(segment.frames.as_slice(), CAPTURE_SAMPLES_PER_TICK);
    proof {
        let n = pcm@.len();
        assert((n * 16000 + 48000 - 1) / 48000 <= n) by (nonlinear_arith)
            requires
                n >= 0,
        ;
        assert(resample_ok(n, 48000, TRANSCRIPTION_SAMPLE_RATE as nat));
    }
    prepare_for_transcription(pcm.as_slice(), AudioFormat::capture_mono())
}

/// The frames of one stream keyed by tick.
pub fn frame_map_of(frames: &[AudioFrame]) -> (r: FrameMap)
    requires
        ticks_increasing(frames_model(frames@)),
    ensures
        r.wf(),
        r@ == tick_map(frames_model(frames@)),
{
    let ghost fs = frames_model(frames@);
    let mut m = FrameMap::new();
    let mut i: usize = 0;
    while i < frames.len()
        invariant
            0 <= i <= frames@.len(),
            fs == frames_model(frames@),
            ticks_increasing(fs),
            m.wf(),
            m@ == tick_map(fs.take(i as int)),
        decreases frames@.len() - i,
    {
        proof {
            crate::merge::lemma_tick_map_take(fs, i as int);
            assert(fs.take(0) =~= Seq::<(u64, Seq<i16>)>::empty());
        }
        assert(fs[i as int] == (frames@[i as int].tick_index, frames@[i as int].samples@));
        m.insert_or_mix(frames[i].tick_index, frames[i].samples.clone());
        i = i + 1;
    }
    assert(fs.take(i as int) =~= fs);
    m
}

/// A speaker's continuous track from all of the speaker's streams: the
/// streams merged tick by tick (overlapping samples summed and clamped),
/// then every tick from the first to the last, an absent one silent.
/// Returns the samples with the first and last tick.
pub fn speaker_track(streams: Vec<FrameMap>) -> (r: (Vec<i16>, u64, u64))
    requires
        forall|i: int| 0 <= i < streams@.len() ==> (#[trigger] streams@[i]).wf(),
        forall|first: u64, last: u64|
            tick_span(merge_all(maps_view(streams@)), first, last)
                ==> #[trigger] ticks_audio(
                merge_all(maps_view(streams@)),
                first as int,
                (last - first + 1) as nat,
            ).len() <= usize::MAX,
    ensures
        ({
            let m = merge_all(maps_view(streams@));
            &&& m.dom() == Set::<u64>::empty() ==> r.0@.len() == 0 && r.1 == 0 && r.2 == 0
            &&& m.dom() != Set::<u64>::empty() ==> tick_span(m, r.1, r.2) && r.0@ == ticks_audio(
                m,
                r.1 as int,
                (r.2 - r.1 + 1) as nat,
            )
        }),
{
    let merged = merge_frame_maps(streams);
    reconstruct_audio(&merged)
}

/// The elements of `l` that `p` holds, in order.
pub open spec fn kept(l: Seq<u32>, p: Seq<u32>) -> Seq<u32>
    decreases l.len(),
{
    if l.len() == 0 {
        Seq::empty()
    } else if p.contains(l.last()) {
        kept(l.drop_last(), p).push(l.last())
    } else {
        kept(l.drop_last(), p)
    }
}

/// The streams of `present` whose speaker `m` does not know, in order.
pub open spec fn orphan_ids(present: Seq<u32>, m: Map<u32, u64>) -> Seq<u32>
    decreases present.len(),
{
    if present.len() == 0 {
        Seq::empty()
    } else if m.contains_key(present.last()) {
        orphan_ids(present.drop_last(), m)
    } else {
        orphan_ids(present.drop_last(), m).push(present.last())
    }
}

proof fn lemma_kept(l: Seq<u32>, p: Seq<u32>)
    ensures
        forall|s: u32| #[trigger] kept(l, p).contains(s) <==> (l.contains(s) && p.contains(s)),
        increasing_u32(l) ==> increasing_u32(kept(l, p)),
    decreases l.len(),
{
    if l.len() > 0 {
        let d = l.drop_last();
        lemma_kept(d, p);
        let r = kept(d, p);
        assert forall|s: u32| #[trigger] kept(l, p).contains(s) <==> (l.contains(s) && p.contains(s)) by {
            if l.contains(s) && s != l.last() {
                let i = choose|i: int| 0 <= i < l.len() && l[i] == s;
                assert(d[i] == s);
            }
            if d.contains(s) {
                let i = choose|i: int| 0 <= i < d.len() && d[i] == s;
                assert(l[i] == s);
            }
            if p.contains(l.last()) {
                if r.push(l.last()).contains(s) && s != l.last() {
                    let i = choose|i: int| 0 <= i < r.len() + 1 && r.push(l.last())[i] == s;
                    assert(r[i] == s);
                }
                if r.contains(s) {
                    let i = choose|i: int| 0 <= i < r.len() && r[i] == s;
                    assert(r.push(l.last())[i] == s);
                }
                assert(r.push(l.last())[r.len() as int] == l.last());
            }
            assert(l[l.len() - 1] == l.last());
        }
        if increasing_u32(l) && p.contains(l.last()) {
            assert(increasing_u32(d)) by {
                assert forall|i: int, j: int| 0 <= i < j < d.len() implies #[trigger] d[i] < #[trigger] d[j] by {
                    assert(d[i] == l[i] && d[j] == l[j]);
                }
            }
            let t = r.push(l.last());
            assert forall|i: int, j: int| 0 <= i < j < t.len() implies #[trigger] t[i] < #[trigger] t[j] by {
                assert(r.contains(t[i]));
                let k = choose|k: int| 0 <= k < d.len() && d[k] == t[i];
                assert(l[k] == t[i]);
                if j < r.len() {
                    assert(t[i] == r[i] && t[j] == r[j]);
                } else {
                    assert(l[k] < l[l.len() - 1]);
                }
            }
        } else if increasing_u32(l) {
            assert forall|i: int, j: int| 0 <= i < j < d.len() implies #[trigger] d[i] < #[trigger] d[j] by {
                assert(d[i] == l[i] && d[j] == l[j]);
            }
        }
    }
}

fn contains_id(v: &[u32], x: u32) -> (r: bool)
    ensures
        r == v@.contains(x),
{
    let mut i: usize = 0;
    while i < v.len()
        invariant
            0 <= i <= v@.len(),
            forall|k: int| 0 <= k < i ==> v@[k] != x,
        decreases v@.len() - i,
    {
        if v[i] == x {
            assert(v@[i as int] == x);
            return true;
        }
        i = i + 1;
    }
    false
}

/// Which streams make up the session's tracks: one track per speaker of
/// the identity map with a stream among `present`, listing those streams in
/// ascending order; then one track for each present stream whose speaker
/// is unknown, in the order given.
pub fn plan_tracks(present: &[u32], ids: &IdentityMap) -> (r: (Vec<(u64, Vec<u32>)>, Vec<u32>))
    requires
        ids.wf(),
    ensures
        forall|a: int, b: int|
            0 <= a < b < r.0@.len() ==> #[trigger] r.0@[a].0 != #[trigger] r.0@[b].0,
        forall|a: int|
            0 <= a < r.0@.len() ==> (#[trigger] r.0@[a]).1@.len() > 0 && increasing_u32(r.0@[a].1@)
                && forall|s: u32| #[trigger]
                r.0@[a].1@.contains(s) <==> (present@.contains(s) && ids@.contains_key(s)
                    && ids@[s] == r.0@[a].0),
        forall|k: int|
            0 <= k < present@.len() && ids@.contains_key(#[trigger] present@[k]) ==> r.0@.map_values(
                |e: (u64, Vec<u32>)| e.0,
            ).contains(ids@[present@[k]]),
        r.1@ == orphan_ids(present@, ids@),
{
    let groups = group_by_speaker(ids);
    let mut tracks: Vec<(u64, Vec<u32>)> = Vec::new();
    let mut orphans: Vec<u32> = Vec::new();
    let ghost mut wit: Seq<int> = Seq::empty();
    let mut k: usize = 0;
    while k < present.len()
        invariant
            0 <= k <= present@.len(),
            ids.wf(),
            groups.describes(ids@),
            wit.len() == k,
            forall|a: int, b: int|
                0 <= a < b < tracks@.len() ==> #[trigger] tracks@[a].0 != #[trigger] tracks@[b].0,
            forall|a: int|
                0 <= a < tracks@.len() ==> (#[trigger] tracks@[a]).1@.len() > 0 && increasing_u32(
                    tracks@[a].1@,
                ) && forall|s: u32| #[trigger]
                    tracks@[a].1@.contains(s) <==> (present@.contains(s) && ids@.contains_key(s)
                        && ids@[s] == tracks@[a].0),
            forall|j: int|
                0 <= j < k && ids@.contains_key(#[trigger] present@[j]) ==> 0 <= wit[j]
                    < tracks@.len() && tracks@[wit[j]].0 == ids@[present@[j]],
            orphans@ == orphan_ids(present@.take(k as int), ids@),
        decreases present@.len() - k,
    {
        let s = present[k];
        assert(present@.take(k + 1).drop_last() =~= present@.take(k as int));
        assert(present@.take(k + 1).last() == s);
        let ghost at: int = 0;
        match ids.get(s) {
            None => {
                orphans.push(s);
            },
            Some(u) => {
                let mut g: usize = 0;
                let mut found = false;
                while g < tracks.len()
                    invariant
                        0 <= g <= tracks@.len(),
                        !found ==> forall|a: int| 0 <= a < g ==> (#[trigger] tracks@[a]).0 != u,
                        found ==> 0 <= at < tracks@.len() && tracks@[at].0 == u,
                    decreases tracks@.len() - g,
                {
                    if tracks[g].0 == u {
                        found = true;
                        proof {
                            at = g as int;
                        }
                    }
                    g = g + 1;
                }
                if !found {
                    let list = match groups.get(&u) {
                        Some(l) => l,
                        None => {
                            // not reached: every speaker of the map has a group
                            proof {
                                let i = choose|i: int|
                                    0 <= i < groups.users().len() && #[trigger] groups.users()[i]
                                        == ids@[s];
                            }
                            return (tracks, orphans);
                        },
                    };
                    let ghost gi = choose|i: int|
                        0 <= i < groups.users().len() && groups.users()[i] == u && groups.ids(i)
                            == list@;
                    assert(lists_streams_of(ids@, groups.users()[gi], groups.ids(gi)));
                    let mut mine: Vec<u32> = Vec::new();
                    let mut i: usize = 0;
                    while i < list.len()
                        invariant
                            0 <= i <= list@.len(),
                            mine@ == kept(list@.take(i as int), present@),
                        decreases list@.len() - i,
                    {
                        assert(list@.take(i + 1).drop_last() =~= list@.take(i as int));
                        assert(list@.take(i + 1).last() == list@[i as int]);
                        if contains_id(present, list[i]) {
                            mine.push(list[i]);
                        }
                        i = i + 1;
                    }
                    assert(list@.take(i as int) =~= list@);
                    proof {
                        lemma_kept(list@, present@);
                        assert(present@.contains(s)) by {
                            assert(present@[k as int] == s);
                        }
                        assert(list@.contains(s));
                        assert(mine@.contains(s));
                        at = tracks@.len() as int;
                    }
                    tracks.push((u, mine));
                }
            },
        }
        proof {
            wit = wit.push(at);
        }
        k = k + 1;
    }
    assert(present@.take(k as int) =~= present@);
    proof {
        assert forall|j: int|
            0 <= j < present@.len() && ids@.contains_key(#[trigger] present@[j]) implies tracks@.map_values(
            |e: (u64, Vec<u32>)| e.0,
        ).contains(ids@[present@[j]]) by {
            assert(tracks@.map_values(|e: (u64, Vec<u32>)| e.0)[wit[j]] == ids@[present@[j]]);
        }
    }
    (tracks, orphans)
}

} // verus!
