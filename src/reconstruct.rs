//! Reconstruction of continuous PCM from a stream's sparse frames: every
//! absent tick is silence.

use vstd::prelude::*;
use crate::frame::{frame_model, frames_model, ticks_increasing, AudioFrame};

verus! {

/// `n` samples of silence.
pub open spec fn silence(n: nat) -> Seq<i16> {
    Seq::new(n, |i: int| 0i16)
}

/// How many samples of a frame whose samples are `len` long, placed at
/// offset `start` of a buffer of `total` samples, are copied: at most one
/// tick's worth when `per_tick`, else as many as fit before the end.
pub open spec fn copy_len(len: nat, start: int, spt: nat, total: nat, per_tick: bool) -> int {
    if per_tick {
        if len < spt {
            len as int
        } else {
            spt as int
        }
    } else {
        if start + len <= total {
            len as int
        } else {
            total - start
        }
    }
}

/// Sample `j` of the buffer rebuilt from the first `n` frames, each placed
/// at `(tick - first) * spt`: the sample of the last frame that covers `j`,
/// or silence when none does.
pub open spec fn rebuilt_sample(
    fs: Seq<(u64, Seq<i16>)>,
    n: int,
    first: u64,
    spt: nat,
    total: nat,
    per_tick: bool,
    j: int,
) -> i16
    decreases n,
{
    if n <= 0 {
        0i16
    } else {
        let f = fs[n - 1];
        let start = (f.0 - first) * spt;
        if start <= j < start + copy_len(f.1.len(), start, spt, total, per_tick) {
            f.1[j - start]
        } else {
            rebuilt_sample(fs, n - 1, first, spt, total, per_tick, j)
        }
    }
}

/// The whole rebuilt buffer: from the first frame's tick to the last one's,
/// `spt` samples per tick.
pub open spec fn rebuilt(fs: Seq<(u64, Seq<i16>)>, spt: nat, per_tick: bool) -> Seq<i16> {
    if fs.len() == 0 {
        Seq::empty()
    } else {
        let first = fs[0].0;
        let total = ((fs.last().0 - first + 1) * spt) as nat;
        Seq::new(total, |j: int| rebuilt_sample(fs, fs.len() as int, first, spt, total, per_tick, j))
    }
}

/// The rebuilt buffer fits in memory.
pub open spec fn rebuild_fits(fs: Seq<(u64, Seq<i16>)>, spt: nat) -> bool {
    fs.len() > 0 ==> (fs.last().0 - fs[0].0 + 1) * spt <= usize::MAX
}

/// A buffer of `n` zero samples.
pub fn zeros(n: usize) -> (r: Vec<i16>)
    ensures
        r@ == silence(n as nat),
{
    let mut v: Vec<i16> = Vec::new();
    let mut i: usize = 0;
    while i < n
        invariant
            0 <= i <= n,
            v@ == silence(i as nat),
        decreases n - i,
    {
        v.push(0i16);
        i = i + 1;
        assert(v@ =~= silence(i as nat));
    }
    v
}

/// Shared body of both reconstructions.
pub fn rebuild_frames(frames: &[AudioFrame], samples_per_tick: usize, per_tick: bool) -> (r: Vec<i16>)
    requires
        ticks_increasing(frames_model(frames@)),
        rebuild_fits(frames_model(frames@), samples_per_tick as nat),
    ensures
        r@ == rebuilt(frames_model(frames@), samples_per_tick as nat, per_tick),
{
    let ghost fs = frames_model(frames@);
    if frames.len() == 0 {
        assert(Seq::<i16>::empty() =~= rebuilt(fs, samples_per_tick as nat, per_tick));
        return Vec::new();
    }
    let spt = samples_per_tick;
    let first = frames[0].tick_index;
    let last = frames[frames.len() - 1].tick_index;
    proof {
        assert(fs[0].0 == first && fs.last().0 == last);
        if frames.len() > 1 {
            assert(fs[0].0 < fs[fs.len() - 1].0);
        }
    }
    if spt == 0 {
        assert(((last - first + 1) * 0) as nat == 0);
        assert(rebuilt(fs, 0, per_tick).len() == 0);
        assert(Seq::<i16>::empty() =~= rebuilt(fs, 0, per_tick));
        return Vec::new();
    }
    assert((last - first + 1) * (spt as int) <= usize::MAX);
    assert(last - first + 1 <= usize::MAX) by (nonlinear_arith)
        requires
            (last - first + 1) * (spt as int) <= usize::MAX,
            spt >= 1,
    ;
    let ticks = (last - first) + 1;
    let total = (ticks as usize) * spt;
    let ghost tot = total as nat;
    let mut pcm = zeros(total);
    let mut i: usize = 0;
    while i < frames.len()
        invariant
            0 <= i <= frames@.len(),
            fs == frames_model(frames@),
            ticks_increasing(fs),
            fs.len() == frames@.len(),
            fs[0].0 == first,
            fs.last().0 == last,
            spt == samples_per_tick,
            spt >= 1,
            total as int == (last - first + 1) * spt,
            last - first + 1 <= usize::MAX,
            tot == total as nat,
            pcm@.len() == total,
            forall|j: int|
                0 <= j < total ==> #[trigger] pcm@[j] == rebuilt_sample(
                    fs,
                    i as int,
                    first,
                    spt as nat,
                    tot,
                    per_tick,
                    j,
                ),
        decreases frames@.len() - i,
    {
        let f = &frames[i];
        assert(frame_model(*f) == fs[i as int]);
        assert(first <= f.tick_index <= last) by {
            if i > 0 {
                assert(fs[0].0 < fs[i as int].0);
            }
            if i < fs.len() - 1 {
                assert(fs[i as int].0 < fs[fs.len() - 1].0);
            }
        }
        assert(f.tick_index - first < usize::MAX);
        let rel = (f.tick_index - first) as usize;
        assert((rel as int) * (spt as int) < total) by (nonlinear_arith)
            requires
                rel <= last - first,
                total as int == (last - first + 1) * spt,
                spt >= 1,
        ;
        let start = rel * spt;
        let len = f.samples.len();
        let n = if per_tick {
            if len < spt {
                len
            } else {
                spt
            }
        } else {
            if len <= total - start {
                len
            } else {
                total - start
            }
        };
        if per_tick {
            assert(n as int == copy_len(len as nat, start as int, spt as nat, tot, per_tick));
        } else {
            assert(start <= total);
            assert(n as int == copy_len(len as nat, start as int, spt as nat, tot, per_tick));
        }
        assert(start + n <= total) by (nonlinear_arith)
            requires
                per_tick ==> n <= spt,
                !per_tick ==> n <= total - start,
                start == rel * spt,
                rel <= last - first,
                total as int == (last - first + 1) * spt,
        ;
        let mut k: usize = 0;
        while k < n
            invariant
                0 <= k <= n,
                n <= len,
                len == f.samples@.len(),
                start + n <= total,
                pcm@.len() == total,
                forall|j: int|
                    0 <= j < total ==> #[trigger] pcm@[j] == if start <= j < start + k {
                        f.samples@[j - start]
                    } else {
                        rebuilt_sample(fs, i as int, first, spt as nat, tot, per_tick, j)
                    },
            decreases n - k,
        {
            pcm.set(start + k, f.samples[k]);
            k = k + 1;
        }
        proof {
            assert forall|j: int| 0 <= j < total implies #[trigger] pcm@[j] == rebuilt_sample(
                fs,
                i + 1,
                first,
                spt as nat,
                tot,
                per_tick,
                j,
            ) by {
                assert(fs[i as int].0 - first == rel);
            }
        }
        i = i + 1;
    }
    assert(pcm@ =~= rebuilt(fs, spt as nat, per_tick));
    pcm
}

/// Continuous PCM of a stream: one tick of `samples_per_tick` samples for
/// every tick from the first frame's to the last one's; a present tick holds
/// its frame's samples (at most one tick's worth), every other sample is
/// silence. Absent ticks and explicitly silent ones give the same output.
pub fn rebuild_continuous_pcm(frames: &[AudioFrame], samples_per_tick: usize) -> (r: Vec<i16>)
    requires
        ticks_increasing(frames_model(frames@)),
        rebuild_fits(frames_model(frames@), samples_per_tick as nat),
    ensures
        r@ == rebuilt(frames_model(frames@), samples_per_tick as nat, true),
{
    rebuild_frames(frames, samples_per_tick, true)
}

/// Some frame among the first `n` sits at the tick of sample `j` and
/// reaches its offset within that tick.
pub open spec fn has_sample(fs: Seq<(u64, Seq<i16>)>, n: int, first: u64, spt: nat, j: int) -> bool {
    exists|i: int|
        0 <= i < n && (#[trigger] fs[i]).0 - first == j / (spt as int) && j % (spt as int) < fs[i].1.len()
}

/// Sample `j` of a rebuilt stream said directly: the sample at the same
/// offset of the frame at sample `j`'s tick, or silence when that tick is
/// absent or its frame is shorter.
pub open spec fn direct_sample(fs: Seq<(u64, Seq<i16>)>, n: int, first: u64, spt: nat, j: int) -> i16 {
    if has_sample(fs, n, first, spt, j) {
        let i = choose|i: int|
            0 <= i < n && (#[trigger] fs[i]).0 - first == j / (spt as int) && j % (spt as int)
                < fs[i].1.len();
        fs[i].1[j % (spt as int)]
    } else {
        0i16
    }
}

proof fn lemma_tick_of_sample(a: int, spt: int, j: int)
    requires
        spt > 0,
        a >= 0,
        j >= 0,
    ensures
        (a * spt <= j < a * spt + spt) <==> (j / spt == a),
        j / spt == a ==> j % spt == j - a * spt,
{
    vstd::arithmetic::div_mod::lemma_fundamental_div_mod(j, spt);
    let q = j / spt;
    let r = j % spt;
    assert(0 <= r < spt) by {
        vstd::arithmetic::div_mod::lemma_mod_pos_bound(j, spt);
    }
    if a * spt <= j < a * spt + spt {
        assert(q == a) by (nonlinear_arith)
            requires
                j == spt * q + r,
                0 <= r < spt,
                a * spt <= j < a * spt + spt,
        ;
    }
    if q == a {
        assert(a * spt <= j < a * spt + spt) by (nonlinear_arith)
            requires
                j == spt * q + r,
                0 <= r < spt,
                q == a,
        ;
    }
}

proof fn lemma_rebuilt_is_direct(
    fs: Seq<(u64, Seq<i16>)>,
    n: int,
    first: u64,
    spt: nat,
    t: nat,
    j: int,
)
    requires
        0 <= n <= fs.len(),
        ticks_increasing(fs),
        forall|i: int| 0 <= i < fs.len() ==> first <= (#[trigger] fs[i]).0,
        spt > 0,
        j >= 0,
    ensures
        rebuilt_sample(fs, n, first, spt, t, true, j) == direct_sample(fs, n, first, spt, j),
    decreases n,
{
    if n > 0 {
        lemma_rebuilt_is_direct(fs, n - 1, first, spt, t, j);
        let f = fs[n - 1];
        let a = f.0 - first;
        let si = spt as int;
        lemma_tick_of_sample(a, si, j);
        let start = a * si;
        let covers = start <= j < start + copy_len(f.1.len(), start, spt, t, true);
        if covers {
            assert(j / si == a && j % si == j - start && j % si < f.1.len());
            assert(has_sample(fs, n, first, spt, j));
            let i = choose|i: int|
                0 <= i < n && (#[trigger] fs[i]).0 - first == j / si && j % si < fs[i].1.len();
            if i < n - 1 {
                assert(fs[i].0 < fs[n - 1].0);
            }
        } else {
            if j / si == a && j % si < f.1.len() {
                assert(j % si < si) by {
                    vstd::arithmetic::div_mod::lemma_mod_pos_bound(j, si);
                }
            }
            assert(!(j / si == a && j % si < f.1.len()));
            if has_sample(fs, n, first, spt, j) {
                let i = choose|i: int|
                    0 <= i < n && (#[trigger] fs[i]).0 - first == j / si && j % si < fs[i].1.len();
                assert(i != n - 1);
                assert(has_sample(fs, n - 1, first, spt, j));
                let i2 = choose|i: int|
                    0 <= i < n - 1 && (#[trigger] fs[i]).0 - first == j / si && j % si < fs[i].1.len();
                if i < i2 {
                    assert(fs[i].0 < fs[i2].0);
                } else if i2 < i {
                    assert(fs[i2].0 < fs[i].0);
                }
            } else {
                if has_sample(fs, n - 1, first, spt, j) {
                    let i = choose|i: int|
                        0 <= i < n - 1 && (#[trigger] fs[i]).0 - first == j / si && j % si
                            < fs[i].1.len();
                    assert(has_sample(fs, n, first, spt, j));
                }
            }
        }
    }
}

/// Sample `j` of a stream's rebuilt buffer is the sample at the same offset
/// of the frame at sample `j`'s tick, or silence when no frame reaches it.
pub proof fn lemma_rebuilt_direct(fs: Seq<(u64, Seq<i16>)>, spt: nat, j: int)
    requires
        fs.len() > 0,
        ticks_increasing(fs),
        spt > 0,
        0 <= j < rebuilt(fs, spt, true).len(),
    ensures
        rebuilt(fs, spt, true)[j] == direct_sample(fs, fs.len() as int, fs[0].0, spt, j),
{
    assert forall|i: int| 0 <= i < fs.len() implies fs[0].0 <= (#[trigger] fs[i]).0 by {
        if i > 0 {
            assert(fs[0].0 < fs[i].0);
        }
    }
    let total = ((fs.last().0 - fs[0].0 + 1) * spt) as nat;
    lemma_rebuilt_is_direct(fs, fs.len() as int, fs[0].0, spt, total, j);
}

/// A tick that arrived as silence rebuilds exactly as a tick that never
/// arrived: adding an all-zero frame at an absent tick strictly between the
/// first and the last leaves the rebuilt buffer unchanged.
pub proof fn lemma_silence_is_absence(fs: Seq<(u64, Seq<i16>)>, p: int, tick: u64, len: nat, spt: nat)
    requires
        ticks_increasing(fs),
        0 < p < fs.len(),
        fs[p - 1].0 < tick < fs[p].0,
        spt > 0,
    ensures
        rebuilt(fs.insert(p, (tick, silence(len))), spt, true) == rebuilt(fs, spt, true),
{
    let gs = fs.insert(p, (tick, silence(len)));
    let first = fs[0].0;
    let n = fs.len() as int;
    assert(gs[0] == fs[0]);
    assert(gs.last() == fs.last());
    assert(ticks_increasing(gs)) by {
        assert forall|a: int, b: int| 0 <= a < b < gs.len() implies #[trigger] gs[a].0
            < #[trigger] gs[b].0 by {
            if a < p && b > p {
                assert(gs[b] == fs[b - 1]);
                if b - 1 > p - 1 && a < p - 1 {
                    assert(fs[a].0 < fs[p - 1].0);
                }
                if a < p - 1 {
                    assert(fs[a].0 < fs[p - 1].0);
                }
            } else if a > p {
                assert(gs[a] == fs[a - 1] && gs[b] == fs[b - 1]);
            } else if a == p {
                assert(gs[b] == fs[b - 1]);
                if b - 1 > p {
                    assert(fs[p].0 < fs[b - 1].0);
                }
            } else if b == p {
                if a < p - 1 {
                    assert(fs[a].0 < fs[p - 1].0);
                }
            }
        }
    }
    let rg = rebuilt(gs, spt, true);
    let rf = rebuilt(fs, spt, true);
    assert(rg.len() == rf.len());
    assert forall|j: int| 0 <= j < rf.len() implies #[trigger] rg[j] == rf[j] by {
        lemma_rebuilt_direct(fs, spt, j);
        lemma_rebuilt_direct(gs, spt, j);
        let si = spt as int;
        if has_sample(gs, n + 1, first, spt, j) {
            let i = choose|i: int|
                0 <= i < n + 1 && (#[trigger] gs[i]).0 - first == j / si && j % si < gs[i].1.len();
            if i == p {
                assert(gs[i].1[j % si] == 0);
                if has_sample(fs, n, first, spt, j) {
                    let k = choose|k: int|
                        0 <= k < n && (#[trigger] fs[k]).0 - first == j / si && j % si < fs[k].1.len();
                    if k < p {
                        if k < p - 1 {
                            assert(fs[k].0 < fs[p - 1].0);
                        }
                    } else {
                        if k > p {
                            assert(fs[p].0 < fs[k].0);
                        }
                    }
                }
            } else {
                let k = if i < p {
                    i
                } else {
                    i - 1
                };
                assert(gs[i] == fs[k]);
                assert(has_sample(fs, n, first, spt, j));
                let k2 = choose|k: int|
                    0 <= k < n && (#[trigger] fs[k]).0 - first == j / si && j % si < fs[k].1.len();
                if k < k2 {
                    assert(fs[k].0 < fs[k2].0);
                } else if k2 < k {
                    assert(fs[k2].0 < fs[k].0);
                }
            }
        } else {
            if has_sample(fs, n, first, spt, j) {
                let k = choose|k: int|
                    0 <= k < n && (#[trigger] fs[k]).0 - first == j / si && j % si < fs[k].1.len();
                let i = if k < p {
                    k
                } else {
                    k + 1
                };
                assert(gs[i] == fs[k]);
                assert(has_sample(gs, n + 1, first, spt, j));
            }
        }
    }
    assert(rg =~= rf);
}

/// One tick of a frame: its first `spt` samples, silence after a shorter
/// frame's end.
pub open spec fn padded(s: Seq<i16>, spt: nat) -> Seq<i16> {
    Seq::new(spt, |i: int| if i < s.len() { s[i] } else { 0i16 })
}

/// The tick a streaming rebuilder started at `start` expects after `fs`.
pub open spec fn stream_next(fs: Seq<(u64, Seq<i16>)>, start: u64) -> int {
    if fs.len() == 0 {
        start as int
    } else {
        fs.last().0 + 1
    }
}

/// Everything a streaming rebuilder started at `start` emits for `fs`, fed
/// in order: before each frame, silence for the ticks skipped since the
/// expected one, then the frame's samples.
pub open spec fn streamed(fs: Seq<(u64, Seq<i16>)>, start: u64, spt: nat) -> Seq<i16>
    decreases fs.len(),
{
    if fs.len() == 0 {
        Seq::empty()
    } else {
        let prev = fs.drop_last();
        let gap = fs.last().0 - stream_next(prev, start);
        streamed(prev, start, spt) + silence((if gap > 0 {
            gap * spt
        } else {
            0
        }) as nat) + padded(fs.last().1, spt)
    }
}

proof fn lemma_rebuilt_sample_prefix(
    fs: Seq<(u64, Seq<i16>)>,
    k: int,
    m: int,
    first: u64,
    spt: nat,
    t1: nat,
    t2: nat,
    j: int,
)
    requires
        0 <= k <= m <= fs.len(),
    ensures
        rebuilt_sample(fs, k, first, spt, t1, true, j) == rebuilt_sample(
            fs.take(m),
            k,
            first,
            spt,
            t2,
            true,
            j,
        ),
    decreases k,
{
    if k > 0 {
        assert(fs.take(m)[k - 1] == fs[k - 1]);
        lemma_rebuilt_sample_prefix(fs, k - 1, m, first, spt, t1, t2, j);
    }
}

proof fn lemma_rebuilt_sample_past(
    fs: Seq<(u64, Seq<i16>)>,
    k: int,
    first: u64,
    spt: nat,
    t: nat,
    j: int,
)
    requires
        0 < k <= fs.len(),
        ticks_increasing(fs),
        first <= fs[0].0,
        (fs[k - 1].0 - first + 1) * spt <= j,
    ensures
        rebuilt_sample(fs, k, first, spt, t, true, j) == 0,
    decreases k,
{
    let f = fs[k - 1];
    let start = (f.0 - first) * spt;
    assert(start + spt <= j) by (nonlinear_arith)
        requires
            start == (f.0 - first) * spt,
            (f.0 - first + 1) * spt <= j,
    ;
    assert(copy_len(f.1.len(), start, spt, t, true) <= spt);
    assert(rebuilt_sample(fs, k, first, spt, t, true, j) == rebuilt_sample(
        fs,
        k - 1,
        first,
        spt,
        t,
        true,
        j,
    ));
    if k > 1 {
        assert(fs[k - 2].0 < fs[k - 1].0);
        assert((fs[k - 2].0 - first + 1) * spt <= (fs[k - 1].0 - first + 1) * spt) by (nonlinear_arith)
            requires
                fs[k - 2].0 < fs[k - 1].0,
        ;
        lemma_rebuilt_sample_past(fs, k - 1, first, spt, t, j);
    }
}

/// Feeding a stream's frames in order to a rebuilder started at the first
/// frame's tick emits exactly the buffer `rebuild_continuous_pcm` builds.
pub proof fn lemma_streaming_matches_full(fs: Seq<(u64, Seq<i16>)>, spt: nat)
    requires
        fs.len() > 0,
        ticks_increasing(fs),
    ensures
        streamed(fs, fs[0].0, spt) == rebuilt(fs, spt, true),
    decreases fs.len(),
{
    let first = fs[0].0;
    let n = fs.len() as int;
    let last = fs.last();
    let prev = fs.drop_last();
    let total = ((last.0 - first + 1) * spt) as nat;
    assert((last.0 - first + 1) * spt >= 0) by (nonlinear_arith)
        requires
            last.0 >= first,
    ;
    if n == 1 {
        assert(prev =~= Seq::<(u64, Seq<i16>)>::empty());
        assert(fs.last() == fs[0]);
        assert(last.0 == first);
        assert(silence(0) =~= Seq::<i16>::empty());
        assert(streamed(prev, first, spt) =~= Seq::<i16>::empty());
        assert(streamed(fs, first, spt) =~= padded(last.1, spt));
        assert(total == spt) by (nonlinear_arith)
            requires
                last.0 == first,
                total == (last.0 - first + 1) * spt,
        ;
        assert((last.0 - first) * spt == 0) by (nonlinear_arith)
            requires
                last.0 == first,
        ;
        assert forall|j: int| 0 <= j < total implies #[trigger] rebuilt(fs, spt, true)[j] == padded(
            last.1,
            spt,
        )[j] by {
            assert(rebuilt(fs, spt, true)[j] == rebuilt_sample(fs, 1, first, spt, total, true, j));
            assert(fs[0] == last);
            assert((fs[0].0 - first) * spt == 0);
            assert(rebuilt_sample(fs, 0, first, spt, total, true, j) == 0);
            if j < last.1.len() {
                assert(padded(last.1, spt)[j] == last.1[j]);
            } else {
                assert(padded(last.1, spt)[j] == 0);
            }
        }
        assert(streamed(fs, first, spt) =~= rebuilt(fs, spt, true));
    } else {
        assert(ticks_increasing(prev));
        assert(prev[0] == fs[0]);
        lemma_streaming_matches_full(prev, spt);
        let pl = prev.last().0;
        assert(pl == fs[n - 2].0);
        assert(pl < last.0);
        let ptotal = ((pl - first + 1) * spt) as nat;
        assert((pl - first + 1) * spt >= 0) by (nonlinear_arith)
            requires
                pl >= first,
        ;
        let gap = (last.0 - pl - 1) * spt;
        assert(gap >= 0) by (nonlinear_arith)
            requires
                last.0 > pl,
                gap == (last.0 - pl - 1) * spt,
        ;
        assert(ptotal + gap + spt == total) by (nonlinear_arith)
            requires
                ptotal == (pl - first + 1) * spt,
                gap == (last.0 - pl - 1) * spt,
                total == (last.0 - first + 1) * spt,
        ;
        let lstart = (last.0 - first) * spt;
        assert(lstart == ptotal + gap) by (nonlinear_arith)
            requires
                ptotal == (pl - first + 1) * spt,
                gap == (last.0 - pl - 1) * spt,
                lstart == (last.0 - first) * spt,
        ;
        let st = streamed(fs, first, spt);
        let ps = streamed(prev, first, spt);
        assert(ps == rebuilt(prev, spt, true));
        assert(ps.len() == ptotal);
        assert(stream_next(prev, first) == pl + 1);
        assert(st == ps + silence(gap as nat) + padded(last.1, spt));
        let full = rebuilt(fs, spt, true);
        assert forall|j: int| 0 <= j < total implies #[trigger] st[j] == full[j] by {
            assert(full[j] == rebuilt_sample(fs, n, first, spt, total, true, j));
            if j < lstart {
                assert(!(lstart <= j));
                assert(full[j] == rebuilt_sample(fs, n - 1, first, spt, total, true, j));
                lemma_rebuilt_sample_prefix(fs, n - 1, n - 1, first, spt, total, ptotal, j);
                assert(fs.take(n - 1) =~= prev);
                if j < ptotal {
                    assert(st[j] == ps[j]);
                    assert(ps[j] == rebuilt_sample(prev, n - 1, first, spt, ptotal, true, j));
                } else {
                    assert(st[j] == silence(gap as nat)[j - ptotal]);
                    lemma_rebuilt_sample_past(prev, n - 1, first, spt, ptotal, j);
                }
            } else {
                assert(st[j] == padded(last.1, spt)[j - lstart]);
                if j >= lstart + copy_len(last.1.len(), lstart, spt, total, true) {
                    assert(full[j] == rebuilt_sample(fs, n - 1, first, spt, total, true, j));
                    lemma_rebuilt_sample_prefix(fs, n - 1, n - 1, first, spt, total, ptotal, j);
                    assert(fs.take(n - 1) =~= prev);
                    lemma_rebuilt_sample_past(prev, n - 1, first, spt, ptotal, j);
                }
            }
        }
        assert(st.len() == total);
        assert(st =~= full);
    }
}

/// Rebuilds a stream incrementally, holding only the next expected tick:
/// each frame yields the silence for the ticks skipped before it, then its
/// samples.
#[derive(Debug, Clone)]
pub struct StreamingPcmRebuilder {
    samples_per_tick: usize,
    current_tick: u64,
}

impl StreamingPcmRebuilder {
    /// Samples in one tick of silence.
    pub closed spec fn spt(&self) -> nat {
        self.samples_per_tick as nat
    }

    /// The tick the next frame is expected at.
    pub closed spec fn next_tick(&self) -> u64 {
        self.current_tick
    }

    /// A rebuilder whose output starts at `start_tick`.
    pub fn new(samples_per_tick: usize, start_tick: u64) -> (r: StreamingPcmRebuilder)
        ensures
            r.spt() == samples_per_tick,
            r.next_tick() == start_tick,
    {
        StreamingPcmRebuilder { samples_per_tick, current_tick: start_tick }
    }

    /// The PCM for `frame`: silence for every tick between the expected one
    /// and the frame's, then the frame's samples. The next expected tick is
    /// the one after the frame's.
    pub fn process_frame(&mut self, frame: &AudioFrame) -> (r: Vec<i16>)
        requires
            frame.tick_index < u64::MAX,
            frame.tick_index >= old(self).next_tick() ==> (frame.tick_index - old(
                self,
            ).next_tick()) * old(self).spt() + old(self).spt() <= usize::MAX,
        ensures
            r@ == silence(
                (if frame.tick_index >= old(self).next_tick() {
                    (frame.tick_index - old(self).next_tick()) * old(self).spt()
                } else {
                    0
                }) as nat,
            ) + padded(frame.samples@, old(self).spt()),
            final(self).next_tick() == frame.tick_index + 1,
            final(self).spt() == old(self).spt(),
    {
        let spt = self.samples_per_tick;
        let mut output: Vec<i16> = Vec::new();
        let ghost start = self.current_tick;
        let mut cur = self.current_tick;
        while cur < frame.tick_index
            invariant
                start <= cur,
                cur <= frame.tick_index || start > frame.tick_index,
                start > frame.tick_index ==> cur == start,
                start <= frame.tick_index ==> (frame.tick_index - start) * spt + spt
                    <= usize::MAX,
                output@ == silence(output@.len()),
                output@.len() == (cur - start) * spt,
            decreases frame.tick_index - cur,
        {
            assert((cur - start + 1) * spt <= (frame.tick_index - start) * spt) by (nonlinear_arith)
                requires
                    cur < frame.tick_index,
                    start <= cur,
            ;
            let mut k: usize = 0;
            while k < spt
                invariant
                    0 <= k <= spt,
                    (cur - start + 1) * spt <= usize::MAX,
                    output@ == silence(output@.len()),
                    output@.len() == (cur - start) * spt + k,
                decreases spt - k,
            {
                output.push(0i16);
                k = k + 1;
                assert(output@ =~= silence(output@.len()));
            }
            assert((cur - start) * spt + spt == (cur + 1 - start) * spt) by (nonlinear_arith);
            cur = cur + 1;
        }
        let mut i: usize = 0;
        let ghost pre = output@;
        let ghost tick = padded(frame.samples@, spt as nat);
        while i < spt
            invariant
                0 <= i <= spt,
                tick == padded(frame.samples@, spt as nat),
                output@ == pre + tick.take(i as int),
            decreases spt - i,
        {
            let v = if i < frame.samples.len() {
                frame.samples[i]
            } else {
                0i16
            };
            output.push(v);
            i = i + 1;
            assert(output@ =~= pre + tick.take(i as int));
        }
        assert(tick.take(i as int) =~= tick);
        proof {
            let gap = (if frame.tick_index >= start {
                (frame.tick_index - start) * spt
            } else {
                0
            }) as nat;
            if frame.tick_index >= start {
                assert(cur == frame.tick_index);
            } else {
                assert(cur == start);
            }
            assert(pre.len() == gap);
            assert(pre =~= silence(gap));
        }
        self.current_tick = frame.tick_index + 1;
        output
    }
}

} // verus!
