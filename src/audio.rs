//! Sample-level audio operations: downmixing, mixing, resampling and the
//! formats the pipeline uses.

use vstd::prelude::*;
use std::collections::HashMap;
use vstd::std_specs::iter::IteratorSpec;
use vstd::slice::slice_to_vec;
use crate::frame::{frames_model, ticks_increasing, AudioFrame};
use crate::reconstruct::{rebuild_fits, rebuild_frames, rebuilt};

verus! {

/// Sample rate the transcription stage expects.
pub const TRANSCRIPTION_SAMPLE_RATE: u32 = 16000;

/// Integer division rounding toward zero, as Rust's `/` on signed integers.
pub open spec fn trunc_div(a: int, d: int) -> int {
    if a >= 0 {
        a / d
    } else {
        -((-a) / d)
    }
}

/// `x` clamped to the 16-bit signed range.
pub open spec fn clamp_i16(x: int) -> i16 {
    if x > 32767 {
        32767i16
    } else if x < -32768 {
        -32768i16
    } else {
        x as i16
    }
}

/// Stereo interleaved samples reduced to mono: each pair becomes its average
/// (rounded toward zero); a lone trailing sample is kept as it is.
pub open spec fn downmixed(s: Seq<i16>) -> Seq<i16> {
    Seq::new(
        ((s.len() + 1) / 2) as nat,
        |i: int|
            if 2 * i + 1 < s.len() {
                trunc_div(s[2 * i] + s[2 * i + 1], 2) as i16
            } else {
                s[2 * i]
            },
    )
}

/// Sum of sample `i` over the tracks that reach it.
pub open spec fn column_sum(ts: Seq<Seq<i16>>, i: int) -> int
    decreases ts.len(),
{
    if ts.len() == 0 {
        0
    } else {
        column_sum(ts.drop_last(), i) + if i < ts.last().len() {
            ts.last()[i] as int
        } else {
            0
        }
    }
}

/// Length of the longest track.
pub open spec fn longest(ts: Seq<Seq<i16>>) -> nat
    decreases ts.len(),
{
    if ts.len() == 0 {
        0
    } else if longest(ts.drop_last()) < ts.last().len() {
        ts.last().len()
    } else {
        longest(ts.drop_last())
    }
}

/// Tracks mixed into one as long as the longest: each sample is the
/// average over all tracks (rounded toward zero, a missing sample counting
/// as silence), clamped to the 16-bit range.
pub open spec fn mixed(ts: Seq<Seq<i16>>) -> Seq<i16> {
    if ts.len() == 0 {
        Seq::empty()
    } else {
        Seq::new(longest(ts), |i: int| clamp_i16(trunc_div(column_sum(ts, i), ts.len() as int)))
    }
}

/// Number of samples resampling `n` samples from rate `s` to rate `t` gives:
/// `n * t / s` rounded up.
pub open spec fn resampled_len(n: nat, s: nat, t: nat) -> nat {
    ((n * t + s - 1) / (s as int)) as nat
}

/// Output sample `i` of linear interpolation from rate `s` to rate `t`: the
/// source position is `i * s / t`; between two samples the value is
/// interpolated and rounded toward zero, past the last pair the last sample
/// is held.
pub open spec fn interpolated(x: Seq<i16>, s: nat, t: nat, i: int) -> i16 {
    let idx = (i * s) / (t as int);
    let rem = (i * s) % (t as int);
    if idx + 1 < x.len() {
        trunc_div(x[idx] * t + (x[idx + 1] - x[idx]) * rem, t as int) as i16
    } else if idx < x.len() {
        x[idx]
    } else {
        0i16
    }
}

/// `x` resampled from rate `s` to rate `t` by linear interpolation.
pub open spec fn resampled(x: Seq<i16>, s: nat, t: nat) -> Seq<i16> {
    if s == t {
        x
    } else {
        Seq::new(resampled_len(x.len(), s, t), |i: int| interpolated(x, s, t, i))
    }
}

/// Resampling from `s` to `t` is defined on `n` samples and fits in memory.
pub open spec fn resample_ok(n: nat, s: nat, t: nat) -> bool {
    s == t || (s > 0 && resampled_len(n, s, t) <= usize::MAX)
}

/// A PCM format: sample rate and channel count.
#[derive(Debug, Clone, Copy, PartialEq, Eq)]
pub struct AudioFormat {
    pub sample_rate: u32,
    pub channels: u16,
}

impl AudioFormat {
    /// What the voice transport delivers: 48 kHz stereo.
    pub fn discord_native() -> (r: AudioFormat)
        ensures
            r.sample_rate == 48000 && r.channels == 2,
    {
        AudioFormat { sample_rate: 48000, channels: 2 }
    }

    /// 48 kHz mono.
    pub open spec fn capture_mono_spec() -> AudioFormat {
        AudioFormat { sample_rate: 48000, channels: 1 }
    }

    /// What is stored: 48 kHz mono.
    pub fn capture_mono() -> (r: AudioFormat)
        ensures
            r == AudioFormat::capture_mono_spec(),
    {
        AudioFormat { sample_rate: 48000, channels: 1 }
    }

    /// What transcription takes: 16 kHz mono.
    pub fn transcription() -> (r: AudioFormat)
        ensures
            r.sample_rate == TRANSCRIPTION_SAMPLE_RATE && r.channels == 1,
    {
        AudioFormat { sample_rate: TRANSCRIPTION_SAMPLE_RATE, channels: 1 }
    }

    /// Samples in one 20 ms tick over all channels.
    pub fn samples_per_frame(&self) -> (r: usize)
        requires
            (self.sample_rate as int) * (self.channels as int) / 50 <= usize::MAX,
        ensures
            r == (self.sample_rate as int) * (self.channels as int) / 50,
    {
        assert((self.sample_rate as int) * (self.channels as int) <= 0xffff_ffff * 0xffff)
            by (nonlinear_arith);
        let p = (self.sample_rate as u64) * (self.channels as u64);
        (p / 50) as usize
    }

    /// Samples in one 20 ms tick of one channel.
    pub fn samples_per_tick_mono(&self) -> (r: usize)
        ensures
            r == self.sample_rate / 50,
    {
        (self.sample_rate / 50) as usize
    }
}

/// `a / d` rounded toward zero.
fn div_toward_zero(a: i128, d: u64) -> (r: i128)
    requires
        d > 0,
        -0x1_0000_0000_0000_0000_0000_0000 < a < 0x1_0000_0000_0000_0000_0000_0000,
    ensures
        r == trunc_div(a as int, d as int),
{
    if a >= 0 {
        ((a as u128) / (d as u128)) as i128
    } else {
        let m = (-a) as u128;
        -((m / (d as u128)) as i128)
    }
}

/// Stereo interleaved samples reduced to mono by averaging each pair.
pub fn stereo_to_mono(stereo: &[i16]) -> (r: Vec<i16>)
    ensures
        r@ == downmixed(stereo@),
{
    let n = stereo.len();
    let pairs = n / 2 + n % 2;
    let mut out: Vec<i16> = Vec::new();
    let mut k: usize = 0;
    while k < pairs
        invariant
            n == stereo@.len(),
            pairs == (n + 1) / 2,
            0 <= k <= pairs,
            out@.len() == k,
            forall|j: int| 0 <= j < out@.len() ==> #[trigger] out@[j] == downmixed(stereo@)[j],
        decreases pairs - k,
    {
        let i = 2 * k;
        let v = if i + 1 < n {
            let sum = stereo[i] as i128 + stereo[i + 1] as i128;
            div_toward_zero(sum, 2) as i16
        } else {
            stereo[i]
        };
        out.push(v);
        k = k + 1;
    }
    assert(out@ =~= downmixed(stereo@));
    out
}

/// The views of a list of tracks.
pub open spec fn tracks_view(ts: Seq<&[i16]>) -> Seq<Seq<i16>> {
    ts.map_values(|t: &[i16]| t@)
}

proof fn lemma_column_sum_bounds(ts: Seq<Seq<i16>>, i: int)
    ensures
        -32768 * ts.len() <= column_sum(ts, i) <= 32767 * ts.len(),
    decreases ts.len(),
{
    if ts.len() > 0 {
        lemma_column_sum_bounds(ts.drop_last(), i);
    }
}

/// Mixes the tracks into one as long as the longest: each sample is the
/// average over all tracks, clamped to the 16-bit range; it never wraps.
pub fn mix_tracks(tracks: &[&[i16]]) -> (r: Vec<i16>)
    ensures
        r@ == mixed(tracks_view(tracks@)),
{
    let ghost ts = tracks_view(tracks@);
    let nt = tracks.len();
    assert(usize::MAX <= 0xffff_ffff_ffff_ffff);
    if nt == 0 {
        return Vec::new();
    }
    let mut max_len: usize = 0;
    let mut t: usize = 0;
    while t < nt
        invariant
            0 <= t <= nt,
            nt == tracks@.len(),
            ts == tracks_view(tracks@),
            max_len == longest(ts.take(t as int)),
        decreases nt - t,
    {
        assert(ts.take(t + 1).drop_last() =~= ts.take(t as int));
        if tracks[t].len() > max_len {
            max_len = tracks[t].len();
        }
        t = t + 1;
    }
    assert(ts.take(nt as int) =~= ts);
    let mut sums: Vec<i128> = Vec::new();
    let mut k: usize = 0;
    while k < max_len
        invariant
            0 <= k <= max_len,
            sums@.len() == k,
            forall|j: int| 0 <= j < k ==> #[trigger] sums@[j] == 0,
        decreases max_len - k,
    {
        sums.push(0i128);
        k = k + 1;
    }
    let mut t: usize = 0;
    while t < nt
        invariant
            0 <= t <= nt,
            nt == tracks@.len(),
            nt <= usize::MAX,
            ts == tracks_view(tracks@),
            max_len == longest(ts),
            sums@.len() == max_len,
            forall|j: int| 0 <= j < max_len ==> #[trigger] sums@[j] == column_sum(ts.take(t as int), j),
        decreases nt - t,
    {
        let track = tracks[t];
        assert(track@ == ts[t as int]);
        assert(ts.take(t + 1).drop_last() =~= ts.take(t as int));
        assert(track@.len() <= longest(ts)) by {
            lemma_longest(ts, t as int);
        }
        let mut i: usize = 0;
        while i < track.len()
            invariant
                0 <= i <= track@.len(),
                track@.len() <= max_len,
                ts.len() == nt,
                t < nt,
                track@ == ts[t as int],
                nt <= usize::MAX,
                sums@.len() == max_len,
                ts.take(t + 1).drop_last() == ts.take(t as int),
                forall|j: int|
                    0 <= j < max_len ==> #[trigger] sums@[j] == if j < i {
                        column_sum(ts.take(t + 1), j)
                    } else {
                        column_sum(ts.take(t as int), j)
                    },
            decreases track@.len() - i,
        {
            proof {
                lemma_column_sum_bounds(ts.take(t as int), i as int);
                assert(ts.take(t as int).len() == t);
                assert(ts.take(t + 1).last() == track@);
                assert(sums@[i as int] == column_sum(ts.take(t as int), i as int));
                assert(column_sum(ts.take(t + 1), i as int) == column_sum(ts.take(t as int), i as int)
                    + track@[i as int]);
            }
            let v = sums[i] + track[i] as i128;
            sums.set(i, v);
            i = i + 1;

        }
        t = t + 1;
    }
    assert(ts.take(nt as int) =~= ts);
    let mut out: Vec<i16> = Vec::new();
    let mut i: usize = 0;
    while i < max_len
        invariant
            0 <= i <= max_len,
            nt == ts.len(),
            nt >= 1,
            max_len == longest(ts),
            sums@.len() == max_len,
            forall|j: int| 0 <= j < max_len ==> #[trigger] sums@[j] == column_sum(ts, j),
            out@.len() == i,
            forall|j: int| 0 <= j < i ==> #[trigger] out@[j] == mixed(ts)[j],
        decreases max_len - i,
    {
        proof {
            lemma_column_sum_bounds(ts, i as int);
            assert(usize::MAX <= 0xffff_ffff_ffff_ffff);
        }
        let avg = div_toward_zero(sums[i], nt as u64);
        let v: i16 = if avg > 32767 {
            32767
        } else if avg < -32768 {
            -32768
        } else {
            avg as i16
        };
        out.push(v);
        i = i + 1;
    }
    assert(out@ =~= mixed(ts));
    out
}

/// `ts` lists the buffers of `m`, one per key, in some order.
pub open spec fn enumerates(m: Map<u64, Vec<i16>>, ts: Seq<Seq<i16>>) -> bool {
    exists|ks: Seq<u64>|
        #![trigger ks.to_set()]
        ks.len() == ts.len() && ks.no_duplicates() && ks.to_set() == m.dom() && forall|i: int|
            0 <= i < ts.len() ==> #[trigger] ts[i] == m[ks[i]]@
}

proof fn lemma_column_sum_remove(ts: Seq<Seq<i16>>, j: int, i: int)
    requires
        0 <= j < ts.len(),
    ensures
        column_sum(ts, i) == column_sum(ts.remove(j), i) + if i < ts[j].len() {
            ts[j][i] as int
        } else {
            0
        },
        longest(ts) == if longest(ts.remove(j)) < ts[j].len() {
            ts[j].len()
        } else {
            longest(ts.remove(j))
        },
    decreases ts.len(),
{
    if j == ts.len() - 1 {
        assert(ts.remove(j) =~= ts.drop_last());
    } else {
        lemma_column_sum_remove(ts.drop_last(), j, i);
        assert(ts.remove(j).drop_last() =~= ts.drop_last().remove(j));
        assert(ts.remove(j).last() == ts.last());
        assert(ts.drop_last()[j] == ts[j]);
    }
}

/// The buffers of `m` under the keys `ks`, in that order.
pub open spec fn tracks_of(m: Map<u64, Vec<i16>>, ks: Seq<u64>) -> Seq<Seq<i16>> {
    ks.map_values(|k: u64| m[k]@)
}

proof fn lemma_keys_order_free(m: Map<u64, Vec<i16>>, a: Seq<u64>, b: Seq<u64>, i: int)
    requires
        a.no_duplicates(),
        b.no_duplicates(),
        a.to_set() == b.to_set(),
    ensures
        a.len() == b.len(),
        column_sum(tracks_of(m, a), i) == column_sum(tracks_of(m, b), i),
        longest(tracks_of(m, a)) == longest(tracks_of(m, b)),
    decreases a.len(),
{
    if a.len() == 0 {
        if b.len() > 0 {
            assert(b.to_set().contains(b[0]));
        }
        assert(tracks_of(m, a) =~= tracks_of(m, b));
    } else {
        let x = a.last();
        assert(a.to_set().contains(x));
        let j = choose|j: int| 0 <= j < b.len() && b[j] == x;
        let a1 = a.drop_last();
        let b1 = b.remove(j);
        assert(a1.no_duplicates()) by {
            assert forall|p: int, q: int| 0 <= p < a1.len() && 0 <= q < a1.len() && p != q implies a1[p]
                != a1[q] by {
                assert(a1[p] == a[p] && a1[q] == a[q]);
            }
        }
        assert(b1.no_duplicates()) by {
            assert forall|p: int, q: int| 0 <= p < b1.len() && 0 <= q < b1.len() && p != q implies b1[p]
                != b1[q] by {
                let pp = if p < j { p } else { p + 1 };
                let qq = if q < j { q } else { q + 1 };
                assert(b1[p] == b[pp] && b1[q] == b[qq]);
            }
        }
        assert(a1.to_set() =~= b1.to_set()) by {
            assert forall|y: u64| a1.to_set().contains(y) implies b1.to_set().contains(y) by {
                let p = choose|p: int| 0 <= p < a1.len() && a1[p] == y;
                assert(a[p] == y);
                assert(y != x) by {
                    assert(a[a.len() - 1] == x);
                }
                assert(b.to_set().contains(y));
                let q = choose|q: int| 0 <= q < b.len() && b[q] == y;
                assert(q != j);
                if q < j {
                    assert(b1[q] == y);
                } else {
                    assert(b1[q - 1] == y);
                }
            }
            assert forall|y: u64| b1.to_set().contains(y) implies a1.to_set().contains(y) by {
                let q = choose|q: int| 0 <= q < b1.len() && b1[q] == y;
                let qq = if q < j { q } else { q + 1 };
                assert(b[qq] == y);
                assert(y != x);
                assert(a.to_set().contains(y));
                let p = choose|p: int| 0 <= p < a.len() && a[p] == y;
                assert(p != a.len() - 1);
                assert(a1[p] == y);
            }
        }
        lemma_keys_order_free(m, a1, b1, i);
        let ta = tracks_of(m, a);
        let tb = tracks_of(m, b);
        assert(ta.drop_last() =~= tracks_of(m, a1));
        assert(tb.remove(j) =~= tracks_of(m, b1));
        lemma_column_sum_remove(tb, j, i);
        assert(tb[j] == ta.last());
    }
}

/// The mix of a map's buffers does not depend on the order in which they
/// are taken.
pub proof fn lemma_mix_order_free(m: Map<u64, Vec<i16>>, ts1: Seq<Seq<i16>>, ts2: Seq<Seq<i16>>)
    requires
        enumerates(m, ts1),
        enumerates(m, ts2),
    ensures
        mixed(ts1) == mixed(ts2),
{
    let k1 = choose|ks: Seq<u64>|
        #![trigger ks.to_set()]
        ks.len() == ts1.len() && ks.no_duplicates() && ks.to_set() == m.dom() && forall|i: int|
            0 <= i < ts1.len() ==> #[trigger] ts1[i] == m[ks[i]]@;
    let k2 = choose|ks: Seq<u64>|
        #![trigger ks.to_set()]
        ks.len() == ts2.len() && ks.no_duplicates() && ks.to_set() == m.dom() && forall|i: int|
            0 <= i < ts2.len() ==> #[trigger] ts2[i] == m[ks[i]]@;
    assert(ts1 =~= tracks_of(m, k1));
    assert(ts2 =~= tracks_of(m, k2));
    lemma_keys_order_free(m, k1, k2, 0);
    assert forall|i: int| 0 <= i < longest(ts1) implies #[trigger] mixed(ts1)[i] == mixed(ts2)[i] by {
        lemma_keys_order_free(m, k1, k2, i);
    }
    assert(mixed(ts1) =~= mixed(ts2));
}

/// Mixes every speaker's buffer into one, as `mix_tracks` does (the
/// average over all buffers, clamped): the sum does not depend on the order
/// in which the buffers are taken.
pub fn mix_audio_buffers(buffers: &HashMap<u64, Vec<i16>>) -> (r: Vec<i16>)
    ensures
        exists|ts: Seq<Seq<i16>>| enumerates(buffers@, ts) && r@ == mixed(ts),
{
    broadcast use vstd::std_specs::hash::group_hash_axioms;
    let mut tracks: Vec<&[i16]> = Vec::new();
    let ghost mut ks: Seq<u64> = Seq::empty();
    let ghost v = vstd::std_specs::hash::spec_hash_map_iter(buffers).remaining();
    for kv in it: buffers.iter()
        invariant
            it.seq() == v,
            tracks@.len() == it.index(),
            ks.len() == it.index(),
            forall|j: int| 0 <= j < it.index() ==> ks[j] == *(#[trigger] v[j]).0,
            forall|j: int| 0 <= j < it.index() ==> (#[trigger] tracks@[j])@ == (*v[j].1)@,
    {
        tracks.push(kv.1.as_slice());
        proof {
            ks = ks.push(*kv.0);
        }
    }
    let r = mix_tracks(tracks.as_slice());
    proof {
        assert(ks.len() == v.len());
        let m = buffers@;
        let ts = tracks_view(tracks@);
        assert(v.len() == m.dom().len());
        assert forall|i: int| 0 <= i < ts.len() implies #[trigger] ts[i] == m[ks[i]]@ by {
            assert(m.contains_key(*v[i].0) && m[*v[i].0] == *v[i].1);
        }
        assert(ks.no_duplicates()) by {
            assert forall|i: int, j: int| 0 <= i < ks.len() && 0 <= j < ks.len() && i != j implies ks[i]
                != ks[j] by {
                assert(v.no_duplicates());
                if ks[i] == ks[j] {
                    assert(m[*v[i].0] == *v[i].1 && m[*v[j].0] == *v[j].1);
                    assert(v[i] == v[j]);
                }
            }
        }
        assert(ks.to_set() =~= m.dom()) by {
            assert forall|k: u64| #[trigger] m.dom().contains(k) implies ks.to_set().contains(k) by {
                assert(v.contains((&k, &m[k])));
                let j = choose|j: int| 0 <= j < v.len() && v[j] == (&k, &m[k]);
                assert(ks[j] == k);
            }
            assert forall|k: u64| #[trigger] ks.to_set().contains(k) implies m.dom().contains(k) by {
                let j = choose|j: int| 0 <= j < ks.len() && ks[j] == k;
                assert(m.contains_key(*v[j].0));
            }
        }
        assert(enumerates(m, ts));
    }
    r
}

proof fn lemma_longest(ts: Seq<Seq<i16>>, k: int)
    requires
        0 <= k < ts.len(),
    ensures
        ts[k].len() <= longest(ts),
    decreases ts.len(),
{
    if k < ts.len() - 1 {
        lemma_longest(ts.drop_last(), k);
        assert(ts.drop_last()[k] == ts[k]);
    }
}

/// Continuous PCM of a stream: the frames placed at `(tick - first) *
/// samples_per_tick`, each copied whole as far as the buffer reaches (a long
/// frame runs into the following ticks until a later frame overwrites
/// them); every uncovered sample is silence.
pub fn rebuild_pcm_from_frames(frames: &[AudioFrame], samples_per_tick: usize) -> (r: Vec<i16>)
    requires
        ticks_increasing(frames_model(frames@)),
        rebuild_fits(frames_model(frames@), samples_per_tick as nat),
    ensures
        r@ == rebuilt(frames_model(frames@), samples_per_tick as nat, false),
{
    rebuild_frames(frames, samples_per_tick, false)
}

proof fn lemma_interpolation_in_range(a: int, b: int, rem: int, t: int)
    requires
        -32768 <= a <= 32767,
        -32768 <= b <= 32767,
        0 <= rem < t,
    ensures
        -32768 <= trunc_div(a * t + (b - a) * rem, t) <= 32767,
{
    let v = a * t + (b - a) * rem;
    assert(-32768 * t <= v <= 32767 * t) by (nonlinear_arith)
        requires
            -32768 <= a <= 32767,
            -32768 <= b <= 32767,
            0 <= rem < t,
            v == a * t + (b - a) * rem,
    ;
    if v >= 0 {
        assert(v / t <= 32767) by (nonlinear_arith)
            requires
                0 <= v <= 32767 * t,
                t > 0,
        ;
        assert(v / t >= 0) by (nonlinear_arith)
            requires
                0 <= v,
                t > 0,
        ;
    } else {
        assert((-v) / t <= 32768) by (nonlinear_arith)
            requires
                0 <= -v <= 32768 * t,
                t > 0,
        ;
        assert((-v) / t >= 0) by (nonlinear_arith)
            requires
                0 <= -v,
                t > 0,
        ;
    }
}

fn interpolate(samples: &[i16], source_rate: u32, target_rate: u32) -> (r: Vec<i16>)
    requires
        source_rate != target_rate,
        resample_ok(samples@.len(), source_rate as nat, target_rate as nat),
    ensures
        r@ == resampled(samples@, source_rate as nat, target_rate as nat),
{
    let n = samples.len();
    let s = source_rate as u128;
    let t = target_rate as u128;
    let ghost len = resampled_len(n as nat, s as nat, t as nat);
    assert((n as int) * (t as int) <= 0xffff_ffff_ffff_ffff * 0xffff_ffff) by (nonlinear_arith)
        requires
            n <= 0xffff_ffff_ffff_ffff,
            t <= 0xffff_ffff,
    ;
    let out_len = ((n as u128) * t + s - 1) / s;
    assert(out_len == len);
    let out_len = out_len as usize;
    let mut out: Vec<i16> = Vec::new();
    let mut i: usize = 0;
    while i < out_len
        invariant
            0 <= i <= out_len,
            out_len == len,
            n == samples@.len(),
            s == source_rate,
            t == target_rate,
            s > 0,
            len == resampled_len(n as nat, s as nat, t as nat),
            out@.len() == i,
            forall|j: int|
                0 <= j < i ==> #[trigger] out@[j] == interpolated(samples@, s as nat, t as nat, j),
        decreases out_len - i,
    {
        proof {
            assert(t > 0) by {
                if t == 0 {
                    let si = s as int;
                    assert(len == (si - 1) / si);
                    assert((si - 1) / si == 0) by (nonlinear_arith)
                        requires
                            si > 0,
                    ;
                }
            }
            assert((i as int) * (s as int) <= 0xffff_ffff_ffff_ffff * 0xffff_ffff) by (nonlinear_arith)
                requires
                    i <= 0xffff_ffff_ffff_ffff,
                    s <= 0xffff_ffff,
            ;
        }
        let pos = (i as u128) * s;
        let idx = pos / t;
        let rem = pos % t;
        let v: i16 = if idx + 1 < n as u128 {
            let a = samples[idx as usize] as i128;
            let b = samples[idx as usize + 1] as i128;
            proof {
                assert(-0x8000 * (t as int) <= (a as int) * (t as int) <= 0x8000 * (t as int)) by (nonlinear_arith)
                    requires
                        -32768 <= a <= 32767,
                        t >= 0,
                ;
                assert(-0x10000 * (t as int) <= (b - a) * (rem as int) <= 0x10000 * (t as int)) by (nonlinear_arith)
                    requires
                        -65535 <= b - a <= 65535,
                        0 <= rem < t,
                ;
                lemma_interpolation_in_range(a as int, b as int, rem as int, t as int);
            }
            let num = a * (t as i128) + (b - a) * (rem as i128);
            div_toward_zero(num, t as u64) as i16
        } else if idx < n as u128 {
            samples[idx as usize]
        } else {
            0
        };
        out.push(v);
        i = i + 1;
    }
    assert(out@ =~= resampled(samples@, s as nat, t as nat));
    out
}

/// Resamples by linear interpolation (source position `i * source_rate /
/// target_rate`); equal rates give the samples back unchanged.
pub fn downsample(samples: &[i16], source_rate: u32, target_rate: u32) -> (r: Vec<i16>)
    requires
        resample_ok(samples@.len(), source_rate as nat, target_rate as nat),
    ensures
        r@ == resampled(samples@, source_rate as nat, target_rate as nat),
{
    if source_rate == target_rate {
        return slice_to_vec(samples);
    }
    interpolate(samples, source_rate, target_rate)
}

/// Resamples by linear interpolation (source position `i * source_rate /
/// target_rate`); equal rates give the samples back unchanged.
pub fn upsample(samples: &[i16], source_rate: u32, target_rate: u32) -> (r: Vec<i16>)
    requires
        resample_ok(samples@.len(), source_rate as nat, target_rate as nat),
    ensures
        r@ == resampled(samples@, source_rate as nat, target_rate as nat),
{
    if source_rate == target_rate {
        return slice_to_vec(samples);
    }
    interpolate(samples, source_rate, target_rate)
}

/// Resamples to `target_rate`, down or up as the rates require.
pub fn resample(samples: &[i16], source_rate: u32, target_rate: u32) -> (r: Vec<i16>)
    requires
        resample_ok(samples@.len(), source_rate as nat, target_rate as nat),
    ensures
        r@ == resampled(samples@, source_rate as nat, target_rate as nat),
{
    if source_rate == target_rate {
        slice_to_vec(samples)
    } else if source_rate > target_rate {
        downsample(samples, source_rate, target_rate)
    } else {
        upsample(samples, source_rate, target_rate)
    }
}

/// The samples after the transcription preparation of a stream in `fmt`:
/// downmixed when stereo, then resampled to the transcription rate.
pub open spec fn prepared(x: Seq<i16>, fmt: AudioFormat) -> Seq<i16> {
    let mono = if fmt.channels == 2 {
        downmixed(x)
    } else {
        x
    };
    resampled(mono, fmt.sample_rate as nat, TRANSCRIPTION_SAMPLE_RATE as nat)
}

/// Converts audio in `source_format` to mono at the transcription rate.
pub fn prepare_for_transcription(samples: &[i16], source_format: AudioFormat) -> (r: Vec<i16>)
    requires
        resample_ok(
            (if source_format.channels == 2 {
                downmixed(samples@).len()
            } else {
                samples@.len()
            }),
            source_format.sample_rate as nat,
            TRANSCRIPTION_SAMPLE_RATE as nat,
        ),
    ensures
        r@ == prepared(samples@, source_format),
{
    let mut processed = slice_to_vec(samples);
    if source_format.channels == 2 {
        processed = stereo_to_mono(&processed);
    }
    if source_format.sample_rate != TRANSCRIPTION_SAMPLE_RATE {
        processed = resample(&processed, source_format.sample_rate, TRANSCRIPTION_SAMPLE_RATE);
    }
    processed
}

} // verus!
