//! Per-speaker tracks for transcription: the frames of all of a speaker's
//! streams merged by tick, and the continuous audio rebuilt from them.

use vstd::prelude::*;
use crate::audio::clamp_i16;
use crate::reconstruct::{silence, zeros};

verus! {

/// Samples per 20 ms tick at 48 kHz mono: the silence a missing tick stands for.
pub const SAMPLES_PER_TICK: usize = 960;

/// Ticks strictly increase along the entries.
pub open spec fn ticks_sorted(e: Seq<(u64, Seq<i16>)>) -> bool {
    forall|i: int, j: int| 0 <= i < j < e.len() ==> #[trigger] e[i].0 < #[trigger] e[j].0
}

/// `t` is the tick of some entry.
pub open spec fn has_tick(e: Seq<(u64, Seq<i16>)>, t: u64) -> bool {
    exists|i: int| 0 <= i < e.len() && (#[trigger] e[i]).0 == t
}

/// The map of tick to samples that a list of entries stands for.
pub open spec fn tick_map(e: Seq<(u64, Seq<i16>)>) -> Map<u64, Seq<i16>> {
    Map::new(
        |t: u64| has_tick(e, t),
        |t: u64| e[choose|i: int| 0 <= i < e.len() && (#[trigger] e[i]).0 == t].1,
    )
}

/// `add` mixed into `existing`: samples summed and clamped to the 16-bit
/// range, as long as `existing`; samples of `add` beyond it are dropped.
pub open spec fn mix_into(existing: Seq<i16>, add: Seq<i16>) -> Seq<i16> {
    Seq::new(
        existing.len(),
        |i: int|
            if i < add.len() {
                clamp_i16(existing[i] + add[i])
            } else {
                existing[i]
            },
    )
}

/// Mixing two tracks never wraps: a sum above the 16-bit range gives the
/// largest value, one below it the smallest, any other the sum itself.
pub proof fn lemma_mix_saturates(a: Seq<i16>, b: Seq<i16>, i: int)
    requires
        0 <= i < a.len(),
        i < b.len(),
    ensures
        a[i] + b[i] > 32767 ==> mix_into(a, b)[i] == 32767,
        a[i] + b[i] < -32768 ==> mix_into(a, b)[i] == -32768,
        -32768 <= a[i] + b[i] <= 32767 ==> mix_into(a, b)[i] == a[i] + b[i],
{
}

/// `b` merged into `a`: every tick of either; a tick of both gets `b`'s
/// samples mixed into `a`'s.
pub open spec fn merge_two(a: Map<u64, Seq<i16>>, b: Map<u64, Seq<i16>>) -> Map<u64, Seq<i16>> {
    Map::new(
        |t: u64| a.contains_key(t) || b.contains_key(t),
        |t: u64|
            if a.contains_key(t) && b.contains_key(t) {
                mix_into(a[t], b[t])
            } else if a.contains_key(t) {
                a[t]
            } else {
                b[t]
            },
    )
}

/// The maps merged in order.
pub open spec fn merge_all(ms: Seq<Map<u64, Seq<i16>>>) -> Map<u64, Seq<i16>>
    decreases ms.len(),
{
    if ms.len() == 0 {
        Map::empty()
    } else {
        merge_two(merge_all(ms.drop_last()), ms.last())
    }
}

proof fn lemma_tick_map_at(e: Seq<(u64, Seq<i16>)>, i: int)
    requires
        ticks_sorted(e),
        0 <= i < e.len(),
    ensures
        tick_map(e).contains_key(e[i].0),
        tick_map(e)[e[i].0] == e[i].1,
{
    let k = e[i].0;
    assert(has_tick(e, k));
    let j = choose|j: int| 0 <= j < e.len() && (#[trigger] e[j]).0 == k;
    if j < i {
        assert(e[j].0 < e[i].0);
    } else if j > i {
        assert(e[i].0 < e[j].0);
    }
}

/// Adding the next entry of sorted entries inserts its tick.
pub proof fn lemma_tick_map_take(e: Seq<(u64, Seq<i16>)>, k: int)
    requires
        ticks_sorted(e),
        0 <= k < e.len(),
    ensures
        tick_map(e.take(k + 1)) == tick_map(e.take(k)).insert(e[k].0, e[k].1),
        !tick_map(e.take(k)).contains_key(e[k].0),
{
    let a = e.take(k);
    let b = e.take(k + 1);
    assert(ticks_sorted(a));
    assert(ticks_sorted(b));
    if has_tick(a, e[k].0) {
        let j = choose|j: int| 0 <= j < a.len() && (#[trigger] a[j]).0 == e[k].0;
        assert(e[j].0 < e[k].0);
    }
    assert forall|t: u64| #[trigger] tick_map(b).contains_key(t) == tick_map(a).insert(
        e[k].0,
        e[k].1,
    ).contains_key(t) by {
        if has_tick(b, t) && t != e[k].0 {
            let j = choose|j: int| 0 <= j < b.len() && (#[trigger] b[j]).0 == t;
            assert(a[j].0 == t);
        }
        if has_tick(a, t) {
            let j = choose|j: int| 0 <= j < a.len() && (#[trigger] a[j]).0 == t;
            assert(b[j].0 == t);
        }
        if t == e[k].0 {
            assert(b[k].0 == t);
        }
    }
    assert forall|t: u64| #[trigger] tick_map(b).contains_key(t) implies tick_map(b)[t]
        == tick_map(a).insert(e[k].0, e[k].1)[t] by {
        let j = choose|j: int| 0 <= j < b.len() && (#[trigger] b[j]).0 == t;
        lemma_tick_map_at(b, j);
        if j < k {
            lemma_tick_map_at(a, j);
        }
    }
    assert(tick_map(b) =~= tick_map(a).insert(e[k].0, e[k].1));
}

/// A speaker's frames keyed by tick, at most one entry per tick.
#[derive(Debug, Clone)]
pub struct FrameMap {
    entries: Vec<(u64, Vec<i16>)>,
}

/// The models of the entries.
pub open spec fn entries_model(e: Seq<(u64, Vec<i16>)>) -> Seq<(u64, Seq<i16>)> {
    e.map_values(|p: (u64, Vec<i16>)| (p.0, p.1@))
}

impl View for FrameMap {
    type V = Map<u64, Seq<i16>>;

    closed spec fn view(&self) -> Map<u64, Seq<i16>> {
        tick_map(entries_model(self.entries@))
    }
}

impl FrameMap {
    /// Entries are kept ordered by tick, one per tick.
    pub closed spec fn wf(&self) -> bool {
        ticks_sorted(entries_model(self.entries@))
    }

    /// An empty map.
    pub fn new() -> (r: FrameMap)
        ensures
            r.wf(),
            r@ == Map::<u64, Seq<i16>>::empty(),
    {
        let r = FrameMap { entries: Vec::new() };
        assert(r@ =~= Map::<u64, Seq<i16>>::empty());
        r
    }

    /// Whether no tick is present.
    pub fn is_empty(&self) -> (r: bool)
        requires
            self.wf(),
        ensures
            r == (self@.dom() == Set::<u64>::empty()),
    {
        proof {
            let e = entries_model(self.entries@);
            if e.len() > 0 {
                lemma_tick_map_at(e, 0);
                assert(self@.dom().contains(e[0].0));
            } else {
                assert(self@.dom() =~= Set::<u64>::empty());
            }
        }
        self.entries.len() == 0
    }

    /// The samples at `tick`, if present.
    pub fn get(&self, tick: u64) -> (r: Option<&Vec<i16>>)
        requires
            self.wf(),
        ensures
            r matches Some(v) ==> self@.contains_key(tick) && self@[tick] == v@,
            r is None ==> !self@.contains_key(tick),
    {
        let ghost e = entries_model(self.entries@);
        let mut i: usize = 0;
        while i < self.entries.len()
            invariant
                0 <= i <= self.entries@.len(),
                e == entries_model(self.entries@),
                ticks_sorted(e),
                forall|j: int| 0 <= j < i ==> (#[trigger] e[j]).0 != tick,
            decreases self.entries@.len() - i,
        {
            if self.entries[i].0 == tick {
                proof {
                    lemma_tick_map_at(e, i as int);
                }
                return Some(&self.entries[i].1);
            }
            i = i + 1;
        }
        None
    }

    /// Adds `samples` at `tick`: a new tick takes them as they are; an
    /// existing one gets them mixed in (summed and clamped).
    pub fn insert_or_mix(&mut self, tick: u64, samples: Vec<i16>)
        requires
            old(self).wf(),
        ensures
            final(self).wf(),
            final(self)@ == old(self)@.insert(
                tick,
                if old(self)@.contains_key(tick) {
                    mix_into(old(self)@[tick], samples@)
                } else {
                    samples@
                },
            ),
    {
        let ghost e = entries_model(self.entries@);
        let mut p: usize = 0;
        while p < self.entries.len() && self.entries[p].0 < tick
            invariant
                0 <= p <= self.entries@.len(),
                e == entries_model(self.entries@),
                forall|j: int| 0 <= j < p ==> (#[trigger] e[j]).0 < tick,
            decreases self.entries@.len() - p,
        {
            p = p + 1;
        }
        let replace = p < self.entries.len() && self.entries[p].0 == tick;
        let ghost newv: Seq<i16>;
        if replace {
            let existing = &self.entries[p].1;
            let mut mixed: Vec<i16> = Vec::new();
            let mut i: usize = 0;
            while i < existing.len()
                invariant
                    0 <= i <= existing@.len(),
                    mixed@ == mix_into(existing@, samples@).take(i as int),
                decreases existing@.len() - i,
            {
                let v: i16 = if i < samples.len() {
                    let sum = existing[i] as i32 + samples[i] as i32;
                    if sum > 32767 {
                        32767
                    } else if sum < -32768 {
                        -32768
                    } else {
                        sum as i16
                    }
                } else {
                    existing[i]
                };
                mixed.push(v);
                i = i + 1;
                assert(mixed@ =~= mix_into(existing@, samples@).take(i as int));
            }
            assert(mixed@ =~= mix_into(existing@, samples@));
            proof {
                newv = mixed@;
                lemma_tick_map_at(e, p as int);
            }
            self.entries.set(p, (tick, mixed));
        } else {
            proof {
                newv = samples@;
                if has_tick(e, tick) {
                    let j = choose|j: int| 0 <= j < e.len() && (#[trigger] e[j]).0 == tick;
                    if j > p {
                        assert(e[p as int].0 < e[j].0);
                    }
                }
            }
            self.entries.insert(p, (tick, samples));
        }
        proof {
            let n = entries_model(self.entries@);
            let pi = p as int;
            if replace {
                assert(n =~= e.update(pi, (tick, newv)));
            } else {
                assert(n =~= e.insert(pi, (tick, newv)));
            }
            assert forall|i: int, j: int| 0 <= i < j < n.len() implies #[trigger] n[i].0
                < #[trigger] n[j].0 by {
                if !replace {
                    if i < pi && j > pi {
                        assert(n[j] == e[j - 1]);
                    } else if j > pi && i > pi {
                        assert(n[j] == e[j - 1] && n[i] == e[i - 1]);
                    } else if i == pi {
                        assert(n[j] == e[j - 1]);
                        if j - 1 > pi {
                            assert(e[pi].0 < e[j - 1].0);
                        }
                    }
                } else {
                    if i == pi && j > pi {
                        assert(e[pi].0 < e[j].0);
                    }
                }
            }
            let target = old(self)@.insert(tick, newv);
            assert(self@ =~= target) by {
                assert forall|k: u64| #[trigger] self@.contains_key(k) == target.contains_key(k) by {
                    if k == tick {
                        assert(n[pi].0 == tick);
                    } else if has_tick(e, k) {
                        let i = choose|i: int| 0 <= i < e.len() && (#[trigger] e[i]).0 == k;
                        if replace || i < pi {
                            assert(n[i].0 == k);
                        } else {
                            assert(n[i + 1].0 == k);
                        }
                    } else if has_tick(n, k) {
                        let i = choose|i: int| 0 <= i < n.len() && (#[trigger] n[i]).0 == k;
                        if replace || i < pi {
                            assert(e[i].0 == k);
                        } else {
                            assert(i != pi);
                            assert(e[i - 1].0 == k);
                        }
                    }
                }
                assert forall|k: u64| #[trigger] self@.contains_key(k) implies self@[k] == target[k] by {
                    if k == tick {
                        lemma_tick_map_at(n, pi);
                    } else {
                        let i = choose|i: int| 0 <= i < n.len() && (#[trigger] n[i]).0 == k;
                        lemma_tick_map_at(n, i);
                        if replace || i < pi {
                            lemma_tick_map_at(e, i);
                        } else {
                            lemma_tick_map_at(e, i - 1);
                        }
                    }
                }
            }
        }
    }

    /// Mixes every entry of `other` into this map.
    pub fn merge_from(&mut self, other: &FrameMap)
        requires
            old(self).wf(),
            other.wf(),
        ensures
            final(self).wf(),
            final(self)@ == merge_two(old(self)@, other@),
    {
        let ghost a0 = self@;
        let ghost oe = entries_model(other.entries@);
        let mut k: usize = 0;
        while k < other.entries.len()
            invariant
                0 <= k <= other.entries@.len(),
                self.wf(),
                oe == entries_model(other.entries@),
                ticks_sorted(oe),
                self@ == merge_two(a0, tick_map(oe.take(k as int))),
            decreases other.entries@.len() - k,
        {
            let t = other.entries[k].0;
            let s = other.entries[k].1.clone();
            proof {
                lemma_tick_map_take(oe, k as int);
            }
            let ghost before = self@;
            self.insert_or_mix(t, s);
            proof {
                let m0 = tick_map(oe.take(k as int));
                let m1 = tick_map(oe.take(k + 1));
                assert(oe[k as int] == (t, s@));
                assert(self@ =~= merge_two(a0, m1)) by {
                    assert forall|x: u64| #[trigger] self@.contains_key(x) == merge_two(
                        a0,
                        m1,
                    ).contains_key(x) by {}
                    assert forall|x: u64| #[trigger] self@.contains_key(x) implies self@[x]
                        == merge_two(a0, m1)[x] by {
                        if x == t {
                            assert(!m0.contains_key(t));
                        }
                    }
                }
            }
            k = k + 1;
        }
        assert(oe.take(k as int) =~= oe);
    }
}

/// The maps that a list of frame maps stands for.
pub open spec fn maps_view(ms: Seq<FrameMap>) -> Seq<Map<u64, Seq<i16>>> {
    ms.map_values(|m: FrameMap| m@)
}

/// The maps merged in order: the result holds every tick of any map; where
/// maps share a tick, each later map's samples are mixed into the samples
/// merged so far (summed and clamped, never wrapped).
pub fn merge_frame_maps(maps: Vec<FrameMap>) -> (r: FrameMap)
    requires
        forall|i: int| 0 <= i < maps@.len() ==> (#[trigger] maps@[i]).wf(),
    ensures
        r.wf(),
        r@ == merge_all(maps_view(maps@)),
{
    let ghost ms = maps_view(maps@);
    let mut merged = FrameMap::new();
    let mut i: usize = 0;
    while i < maps.len()
        invariant
            0 <= i <= maps@.len(),
            ms == maps_view(maps@),
            forall|j: int| 0 <= j < maps@.len() ==> (#[trigger] maps@[j]).wf(),
            merged.wf(),
            merged@ == merge_all(ms.take(i as int)),
        decreases maps@.len() - i,
    {
        assert(ms.take(i + 1).drop_last() =~= ms.take(i as int));
        merged.merge_from(&maps[i]);
        i = i + 1;
    }
    assert(ms.take(i as int) =~= ms);
    merged
}

/// The audio of ticks `first .. first + n`: each present tick's samples,
/// each absent tick a tick of silence.
pub open spec fn ticks_audio(m: Map<u64, Seq<i16>>, first: int, n: nat) -> Seq<i16>
    decreases n,
{
    if n == 0 {
        Seq::empty()
    } else {
        let t = first + n - 1;
        ticks_audio(m, first, (n - 1) as nat) + if m.contains_key(t as u64) {
            m[t as u64]
        } else {
            silence(SAMPLES_PER_TICK as nat)
        }
    }
}

/// The smallest and largest tick present.
pub open spec fn tick_span(m: Map<u64, Seq<i16>>, first: u64, last: u64) -> bool {
    &&& m.contains_key(first)
    &&& m.contains_key(last)
    &&& forall|t: u64| #[trigger] m.contains_key(t) ==> first <= t <= last
}

/// Continuous audio from the first present tick to the last, gaps filled
/// with silence, with the first and last tick; all zero when no tick is
/// present.
pub fn reconstruct_audio(frames: &FrameMap) -> (r: (Vec<i16>, u64, u64))
    requires
        frames.wf(),
        forall|first: u64, last: u64|
            tick_span(frames@, first, last) ==> #[trigger] ticks_audio(
                frames@,
                first as int,
                (last - first + 1) as nat,
            ).len() <= usize::MAX,
    ensures
        frames@.dom() == Set::<u64>::empty() ==> r.0@.len() == 0 && r.1 == 0 && r.2 == 0,
        frames@.dom() != Set::<u64>::empty() ==> tick_span(frames@, r.1, r.2) && r.0@ == ticks_audio(
            frames@,
            r.1 as int,
            (r.2 - r.1 + 1) as nat,
        ),
{
    let ghost e = entries_model(frames.entries@);
    let ghost m = frames@;
    if frames.entries.len() == 0 {
        assert(m.dom() =~= Set::<u64>::empty());
        return (Vec::new(), 0, 0);
    }
    let n = frames.entries.len();
    let first = frames.entries[0].0;
    let last = frames.entries[n - 1].0;
    proof {
        lemma_tick_map_at(e, 0);
        lemma_tick_map_at(e, n - 1);
        assert forall|t: u64| #[trigger] m.contains_key(t) implies first <= t <= last by {
            let j = choose|j: int| 0 <= j < e.len() && (#[trigger] e[j]).0 == t;
            if j > 0 {
                assert(e[0].0 < e[j].0);
            }
            if j < n - 1 {
                assert(e[j].0 < e[n - 1].0);
            }
        }
        assert(tick_span(m, first, last));
    }
    let mut audio: Vec<i16> = Vec::new();
    let mut next: u64 = first;
    let ghost mut done: nat = 0;
    let mut k: usize = 0;
    while k < n
        invariant
            0 < n == frames.entries@.len(),
            e == entries_model(frames.entries@),
            m == frames@,
            m == tick_map(e),
            ticks_sorted(e),
            first == e[0].0,
            last == e[n - 1].0,
            tick_span(m, first, last),
            ticks_audio(m, first as int, (last - first + 1) as nat).len() <= usize::MAX,
            0 <= k <= n,
            k < n ==> next <= e[k as int].0,
            k < n && k > 0 ==> next == e[k - 1].0 + 1,
            k == 0 ==> next == first,
            first <= next,
            k < n ==> done == next - first,
            k == n ==> done == last - first + 1,
            audio@ == ticks_audio(m, first as int, done),
        decreases n - k,
    {
        let t = frames.entries[k].0;
        assert(e[k as int].0 == t);
        while next < t
            invariant
                0 <= k < n == frames.entries@.len(),
                e == entries_model(frames.entries@),
                m == tick_map(e),
                ticks_sorted(e),
                first == e[0].0,
                last == e[n - 1].0,
                t == e[k as int].0,
                tick_span(m, first, last),
                ticks_audio(m, first as int, (last - first + 1) as nat).len() <= usize::MAX,
                k > 0 ==> next > e[k - 1].0,
                first <= next <= t,
                audio@ == ticks_audio(m, first as int, done),
                done == next - first,
            decreases t - next,
        {
            proof {
                if m.contains_key(next) {
                    let j = choose|j: int| 0 <= j < e.len() && (#[trigger] e[j]).0 == next;
                    if j < k {
                        if j < k - 1 {
                            assert(e[j].0 < e[k - 1].0);
                        }
                    } else if j > k {
                        assert(e[k as int].0 < e[j].0);
                    }
                }
                assert(ticks_audio(m, first as int, (next + 1 - first) as nat) == ticks_audio(
                    m,
                    first as int,
                    (next - first) as nat,
                ) + silence(SAMPLES_PER_TICK as nat));
                lemma_ticks_audio_prefix_len(m, first as int, (next + 1 - first) as nat, (last
                    - first + 1) as nat);
            }
            let mut z = zeros(SAMPLES_PER_TICK);
            audio.append(&mut z);
            next = next + 1;
            proof {
                done = (next - first) as nat;
            }
        }
        let samples = &frames.entries[k].1;
        proof {
            lemma_tick_map_at(e, k as int);
            assert(ticks_audio(m, first as int, (t + 1 - first) as nat) == ticks_audio(
                m,
                first as int,
                (t - first) as nat,
            ) + samples@);
            lemma_ticks_audio_prefix_len(m, first as int, (t + 1 - first) as nat, (last - first
                + 1) as nat);
            if k < n - 1 {
                assert(e[k as int].0 < e[k + 1].0);
            }
        }
        let mut i: usize = 0;
        let ghost pre = audio@;
        while i < samples.len()
            invariant
                0 <= i <= samples@.len(),
                audio@ == pre + samples@.take(i as int),
                pre.len() + samples@.len() <= usize::MAX,
            decreases samples@.len() - i,
        {
            audio.push(samples[i]);
            i = i + 1;
            assert(audio@ =~= pre + samples@.take(i as int));
        }
        assert(samples@.take(i as int) =~= samples@);
        proof {
            done = (t + 1 - first) as nat;
        }
        if k + 1 < n {
            next = t + 1;
        }
        k = k + 1;
    }
    (audio, first, last)
}

proof fn lemma_ticks_audio_prefix_len(m: Map<u64, Seq<i16>>, first: int, a: nat, b: nat)
    requires
        a <= b,
    ensures
        ticks_audio(m, first, a).len() <= ticks_audio(m, first, b).len(),
    decreases b,
{
    if a < b {
        lemma_ticks_audio_prefix_len(m, first, a, (b - 1) as nat);
    }
}

} // verus!
