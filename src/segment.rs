//! Post-capture segmentation: a stream's frames are coalesced into speech
//! segments by bridging small gaps and splitting overlong runs.

use vstd::prelude::*;
use crate::frame::{frame_model, frames_model, ticks_increasing, AudioFrame};

verus! {

/// A frame's model: its tick and samples.
pub type FrameModel = (u64, Seq<i16>);

/// A segment's model: first tick, last tick (inclusive), frames.
pub type SegModel = (u64, u64, Seq<FrameModel>);

/// Segmentation state: closed segments, open segment's frames, its first
/// tick and the last tick seen in it.
pub type SegState = (Seq<SegModel>, Seq<FrameModel>, Option<u64>, Option<u64>);

/// Segmentation settings, in ticks.
#[derive(Debug, Clone, Copy, PartialEq, Eq)]
pub struct SegmentConfig {
    /// Largest gap bridged within one segment.
    pub max_gap_ticks: u64,
    /// Shortest segment kept at natural closure.
    pub min_segment_ticks: u64,
    /// Span at which a segment is force-closed.
    pub max_segment_ticks: u64,
    /// Preferred segment span.
    pub target_segment_ticks: u64,
    /// Ticks of the next segment borrowed by the overlap pass.
    pub overlap_ticks: u64,
    /// Duration of one tick in milliseconds.
    pub tick_duration_ms: u64,
}

/// The default settings: bridge 2 ticks, keep segments of 25 ticks and
/// more, close at 2250, aim at 1500, overlap 25; a tick is 20 ms.
pub open spec fn is_default_config(c: SegmentConfig) -> bool {
    &&& c.max_gap_ticks == 2
    &&& c.min_segment_ticks == 25
    &&& c.max_segment_ticks == 2250
    &&& c.target_segment_ticks == 1500
    &&& c.overlap_ticks == 25
    &&& c.tick_duration_ms == 20
}

impl SegmentConfig {
    /// The default settings.
    pub fn default_config() -> (r: SegmentConfig)
        ensures
            is_default_config(r),
    {
        SegmentConfig {
            max_gap_ticks: 2,
            min_segment_ticks: 25,
            max_segment_ticks: 2250,
            target_segment_ticks: 1500,
            overlap_ticks: 25,
            tick_duration_ms: 20,
        }
    }

    /// Milliseconds spanned by `ticks` ticks.
    pub fn ticks_to_millis(&self, ticks: u64) -> (r: u128)
        ensures
            r == (ticks as int) * (self.tick_duration_ms as int),
    {
        assert((ticks as int) * (self.tick_duration_ms as int) <= 0xffff_ffff_ffff_ffff
            * 0xffff_ffff_ffff_ffff) by (nonlinear_arith);
        (ticks as u128) * (self.tick_duration_ms as u128)
    }
}

impl Default for SegmentConfig {
    fn default() -> (r: SegmentConfig)
        ensures
            is_default_config(r),
    {
        SegmentConfig::default_config()
    }
}

/// A contiguous, gap-bridged run of one speaker's ticks.
#[derive(Debug, Clone)]
pub struct SpeechSegment {
    /// Position of the segment in its stream's segmentation.
    pub id: usize,
    /// First tick.
    pub start_tick: u64,
    /// Last tick (inclusive).
    pub end_tick: u64,
    /// The frames in the segment.
    pub frames: Vec<AudioFrame>,
    /// The speaker the segment belongs to.
    pub user_id: u64,
}

/// The model of a segment.
pub open spec fn seg_model(s: SpeechSegment) -> SegModel {
    (s.start_tick, s.end_tick, frames_model(s.frames@))
}

/// The models of a list of segments.
pub open spec fn segs_model(ss: Seq<SpeechSegment>) -> Seq<SegModel> {
    ss.map_values(|s: SpeechSegment| seg_model(s))
}

impl SpeechSegment {
    /// Number of ticks spanned, both ends included.
    pub fn tick_count(&self) -> (r: u64)
        requires
            self.start_tick <= self.end_tick,
            self.end_tick - self.start_tick < u64::MAX,
        ensures
            r == self.end_tick - self.start_tick + 1,
    {
        self.end_tick - self.start_tick + 1
    }

    /// A deep copy.
    pub fn duplicate(&self) -> (r: SpeechSegment)
        ensures
            seg_model(r) == seg_model(*self),
            r.id == self.id,
            r.user_id == self.user_id,
    {
        SpeechSegment {
            id: self.id,
            start_tick: self.start_tick,
            end_tick: self.end_tick,
            frames: copy_frames(&self.frames),
            user_id: self.user_id,
        }
    }
}

/// Deep copies of the frames.
pub fn copy_frames(fs: &[AudioFrame]) -> (r: Vec<AudioFrame>)
    ensures
        frames_model(r@) == frames_model(fs@),
{
    let mut out: Vec<AudioFrame> = Vec::new();
    let mut i: usize = 0;
    while i < fs.len()
        invariant
            0 <= i <= fs@.len(),
            frames_model(out@) == frames_model(fs@.take(i as int)),
        decreases fs@.len() - i,
    {
        let f = fs[i].duplicate();
        proof {
            assert(frames_model(out@.push(f)) =~= frames_model(out@).push(frame_model(f)));
            assert(frames_model(fs@.take(i + 1)) =~= frames_model(fs@.take(i as int)).push(
                frame_model(fs@[i as int]),
            ));
        }
        out.push(f);
        i = i + 1;
    }
    assert(fs@.take(i as int) =~= fs@);
    out
}

/// Segmentation before any frame.
pub open spec fn seg_init() -> SegState {
    (Seq::empty(), Seq::empty(), None, None)
}

/// Segmentation after one more frame `f`. A gap since the last frame larger
/// than `max_gap + 1` ticks closes the open segment (kept only when it spans
/// at least `min` ticks) and opens a new one at `f`; a segment whose span
/// reaches `max` is closed at once.
pub open spec fn seg_step(st: SegState, f: FrameModel, max_gap: u64, min: u64, max: u64) -> SegState {
    let (segs, cur, start, last) = st;
    let new = match last {
        None => true,
        Some(lt) => (if f.0 >= lt {
            f.0 - lt
        } else {
            0
        }) > max_gap + 1,
    };
    let segs1 = if new {
        match (start, last) {
            (Some(s), Some(lt)) => if lt - s + 1 >= min {
                segs.push((s, lt, cur))
            } else {
                segs
            },
            _ => segs,
        }
    } else {
        segs
    };
    let cur1 = if new {
        seq![f]
    } else {
        cur.push(f)
    };
    let start1 = if new {
        Some(f.0)
    } else {
        start
    };
    match start1 {
        Some(s) => if f.0 - s + 1 >= max {
            (segs1.push((s, f.0, cur1)), Seq::empty(), None, None)
        } else {
            (segs1, cur1, start1, Some(f.0))
        },
        None => (segs1, cur1, start1, Some(f.0)),
    }
}

/// Segmentation after the first `n` frames.
pub open spec fn seg_state(fs: Seq<FrameModel>, n: int, max_gap: u64, min: u64, max: u64) -> SegState
    decreases n,
{
    if n <= 0 {
        seg_init()
    } else {
        seg_step(seg_state(fs, n - 1, max_gap, min, max), fs[n - 1], max_gap, min, max)
    }
}

/// The segments of a stream: the open segment at the end is kept when it
/// spans at least `min` ticks or when no other segment was produced.
pub open spec fn segmentation(fs: Seq<FrameModel>, max_gap: u64, min: u64, max: u64) -> Seq<SegModel> {
    let (segs, cur, start, last) = seg_state(fs, fs.len() as int, max_gap, min, max);
    match (start, last) {
        (Some(s), Some(lt)) => if lt - s + 1 >= min || segs.len() == 0 {
            segs.push((s, lt, cur))
        } else {
            segs
        },
        _ => segs,
    }
}

/// The frames of `fs` whose tick lies before `limit`, in order.
pub open spec fn frames_before(fs: Seq<FrameModel>, limit: int) -> Seq<FrameModel>
    decreases fs.len(),
{
    if fs.len() == 0 {
        Seq::empty()
    } else {
        let r = frames_before(fs.drop_last(), limit);
        if fs.last().0 < limit {
            r.push(fs.last())
        } else {
            r
        }
    }
}

/// Segment `i` after the overlap pass: extended by the next segment's frames
/// that lie within `overlap` ticks of its start, its end moved to the last
/// frame borrowed.
pub open spec fn overlapped(segs: Seq<SegModel>, overlap: u64, i: int) -> SegModel {
    let s = segs[i];
    if i + 1 < segs.len() {
        let next = segs[i + 1];
        let extra = frames_before(next.2, next.0 + overlap);
        if extra.len() > 0 {
            (s.0, extra.last().0, s.2 + extra)
        } else {
            s
        }
    } else {
        s
    }
}

/// Splits streams into speech segments.
#[derive(Debug, Clone)]
pub struct Segmenter {
    config: SegmentConfig,
}

impl Segmenter {
    /// The settings in use.
    pub closed spec fn cfg(&self) -> SegmentConfig {
        self.config
    }

    /// A segmenter with `config`.
    pub fn new(config: SegmentConfig) -> (r: Segmenter)
        ensures
            r.cfg() == config,
    {
        Segmenter { config }
    }

    /// A segmenter with the default settings.
    pub fn with_defaults() -> (r: Segmenter)
        ensures
            is_default_config(r.cfg()),
    {
        Segmenter::new(SegmentConfig::default_config())
    }

    /// The settings in use.
    pub fn config(&self) -> (r: &SegmentConfig)
        ensures
            *r == self.cfg(),
    {
        &self.config
    }

    /// The speech segments of one speaker's stream, numbered in order and
    /// tagged with `user_id`. No frames give no segments.
    pub fn segment_frames(&self, user_id: u64, frames: &[AudioFrame]) -> (r: Vec<SpeechSegment>)
        requires
            ticks_increasing(frames_model(frames@)),
        ensures
            segs_model(r@) == segmentation(
                frames_model(frames@),
                self.cfg().max_gap_ticks,
                self.cfg().min_segment_ticks,
                self.cfg().max_segment_ticks,
            ),
            forall|i: int| 0 <= i < r@.len() ==> (#[trigger] r@[i]).id == i && r@[i].user_id == user_id,
    {
        let ghost fs = frames_model(frames@);
        let max_gap = self.config.max_gap_ticks;
        let min = self.config.min_segment_ticks;
        let max = self.config.max_segment_ticks;
        let mut segments: Vec<SpeechSegment> = Vec::new();
        let mut cur: Vec<AudioFrame> = Vec::new();
        let mut start: Option<u64> = None;
        let mut last: Option<u64> = None;
        let mut i: usize = 0;
        while i < frames.len()
            invariant
                0 <= i <= frames@.len(),
                fs == frames_model(frames@),
                ticks_increasing(fs),
                max_gap == self.cfg().max_gap_ticks,
                min == self.cfg().min_segment_ticks,
                max == self.cfg().max_segment_ticks,
                (segs_model(segments@), frames_model(cur@), start, last) == seg_state(
                    fs,
                    i as int,
                    max_gap,
                    min,
                    max,
                ),
                forall|k: int|
                    0 <= k < segments@.len() ==> (#[trigger] segments@[k]).id == k
                        && segments@[k].user_id == user_id,
                start is Some <==> last is Some,
                start matches Some(s) ==> last matches Some(lt) && s <= lt && i > 0 && lt == fs[i
                    - 1].0,
            decreases frames@.len() - i,
        {
            let f = &frames[i];
            let ghost st = seg_state(fs, i as int, max_gap, min, max);
            assert(frame_model(*f) == fs[i as int]);
            proof {
                if i > 0 {
                    assert(fs[i - 1].0 < fs[i as int].0);
                }
            }
            let new = match last {
                None => true,
                Some(lt) => {
                    let g = if f.tick_index >= lt {
                        f.tick_index - lt
                    } else {
                        0
                    };
                    g >= 1 && g - 1 > max_gap
                },
            };
            if new {
                match (start, last) {
                    (Some(s), Some(lt)) => {
                        if (lt - s) as u128 + 1 >= min as u128 {
                            let ghost before = segs_model(segments@);
                            let seg = SpeechSegment {
                                id: segments.len(),
                                start_tick: s,
                                end_tick: lt,
                                frames: cur,
                                user_id,
                            };
                            segments.push(seg);
                            assert(segs_model(segments@) =~= before.push(seg_model(seg)));
                        }
                    },
                    _ => {},
                }
                cur = Vec::new();
                start = Some(f.tick_index);
            }
            let ghost before_cur = frames_model(cur@);
            let fc = f.duplicate();
            cur.push(fc);
            assert(frames_model(cur@) =~= before_cur.push(frame_model(*f)));
            proof {
                if new {
                    assert(before_cur =~= Seq::<FrameModel>::empty());
                    assert(frames_model(cur@) =~= seq![frame_model(*f)]);
                }
            }
            last = Some(f.tick_index);
            let s = match start {
                Some(s) => s,
                None => f.tick_index,
            };
            if (f.tick_index - s) as u128 + 1 >= max as u128 {
                let ghost before = segs_model(segments@);
                let seg = SpeechSegment {
                    id: segments.len(),
                    start_tick: s,
                    end_tick: f.tick_index,
                    frames: cur,
                    user_id,
                };
                segments.push(seg);
                assert(segs_model(segments@) =~= before.push(seg_model(seg)));
                cur = Vec::new();
                assert(frames_model(cur@) =~= Seq::<FrameModel>::empty());
                start = None;
                last = None;
            }
            i = i + 1;
        }
        assert(fs.len() == i);
        match (start, last) {
            (Some(s), Some(lt)) => {
                if (lt - s) as u128 + 1 >= min as u128 || segments.len() == 0 {
                    let ghost before = segs_model(segments@);
                    let seg = SpeechSegment {
                        id: segments.len(),
                        start_tick: s,
                        end_tick: lt,
                        frames: cur,
                        user_id,
                    };
                    segments.push(seg);
                    assert(segs_model(segments@) =~= before.push(seg_model(seg)));
                }
            },
            _ => {},
        }
        segments
    }

    /// The segments with the overlap pass applied: each is extended by the
    /// next segment's frames that lie within `overlap_ticks` of that
    /// segment's start. The given segments are left as they are.
    pub fn create_overlapping_segments(&self, segments: &[SpeechSegment]) -> (r: Vec<SpeechSegment>)
        ensures
            r@.len() == segments@.len(),
            forall|i: int|
                0 <= i < r@.len() ==> seg_model(#[trigger] r@[i]) == overlapped(
                    segs_model(segments@),
                    self.cfg().overlap_ticks,
                    i,
                ) && r@[i].id == segments@[i].id && r@[i].user_id == segments@[i].user_id,
    {
        let ghost sm = segs_model(segments@);
        let overlap = self.config.overlap_ticks;
        let mut result: Vec<SpeechSegment> = Vec::new();
        let mut i: usize = 0;
        while i < segments.len()
            invariant
                0 <= i <= segments@.len(),
                sm == segs_model(segments@),
                overlap == self.cfg().overlap_ticks,
                result@.len() == i,
                forall|k: int|
                    0 <= k < i ==> seg_model(#[trigger] result@[k]) == overlapped(sm, overlap, k)
                        && result@[k].id == segments@[k].id && result@[k].user_id
                        == segments@[k].user_id,
            decreases segments@.len() - i,
        {
            let seg = &segments[i];
            let mut out = seg.duplicate();
            assert(seg_model(out) == sm[i as int]);
            if i + 1 < segments.len() {
                let next = &segments[i + 1];
                assert(seg_model(*next) == sm[i + 1]);
                let limit = next.start_tick as u128 + overlap as u128;
                let ghost nf = frames_model(next.frames@);
                let mut extra: Vec<AudioFrame> = Vec::new();
                let mut k: usize = 0;
                while k < next.frames.len()
                    invariant
                        0 <= k <= next.frames@.len(),
                        nf == frames_model(next.frames@),
                        limit == next.start_tick + overlap,
                        frames_model(extra@) == frames_before(nf.take(k as int), limit as int),
                    decreases next.frames@.len() - k,
                {
                    assert(nf.take(k + 1).drop_last() =~= nf.take(k as int));
                    let fr = &next.frames[k];
                    assert(frame_model(*fr) == nf[k as int]);
                    if (fr.tick_index as u128) < limit {
                        let d = fr.duplicate();
                        let ghost before = frames_model(extra@);
                        extra.push(d);
                        assert(frames_model(extra@) =~= before.push(frame_model(d)));
                    }
                    k = k + 1;
                }
                assert(nf.take(k as int) =~= nf);
                if extra.len() > 0 {
                    let ghost e = frames_model(extra@);
                    let end = extra[extra.len() - 1].tick_index;
                    assert(end == e.last().0);
                    let ghost before = frames_model(out.frames@);
                    out.frames.append(&mut extra);
                    assert(frames_model(out.frames@) =~= before + e);
                    out.end_tick = end;
                }
            }
            result.push(out);
            i = i + 1;
        }
        result
    }
}

} // verus!
