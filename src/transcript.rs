//! What is kept of a speech-to-text engine's raw segments: text trimmed,
//! empty segments dropped, and runs of identical text (a symptom of
//! hallucination) cut after two.

use vstd::prelude::*;

verus! {

/// Consecutive identical segments allowed before the rest of the run is dropped.
pub const MAX_REPEATS: u64 = 2;

/// A transcribed segment; times in centiseconds from the chunk's start.
#[derive(Debug, Clone)]
pub struct TimedText {
    pub start_cs: i64,
    pub end_cs: i64,
    pub text: String,
}

/// The model of a segment.
pub open spec fn timed_model(t: TimedText) -> (i64, i64, Seq<char>) {
    (t.start_cs, t.end_cs, t.text@)
}

/// The models of a list of segments.
pub open spec fn timed_models(ts: Seq<TimedText>) -> Seq<(i64, i64, Seq<char>)> {
    ts.map_values(|t: TimedText| timed_model(t))
}

/// What `str::trim` gives for the characters `s`.
pub uninterp spec fn trimmed_of(s: Seq<char>) -> Seq<char>;

/// Relies on `str::trim` (std): the text without leading and trailing white
/// space, which depends on the characters alone; an empty text stays empty.
#[verifier::external_body]
fn trim_text(s: &str) -> (r: String)
    ensures
        r@ == trimmed_of(s@),
        s@.len() == 0 ==> r@.len() == 0,
{
    s.trim().to_string()
}

/// Filter state: kept segments, last kept text, length of the current run
/// of repeats.
pub type KeepState = (Seq<(i64, i64, Seq<char>)>, Option<Seq<char>>, nat);

/// The filter after the first `n` (already trimmed) segments: an empty text
/// is skipped; a text equal to the last kept one extends the run of
/// repeats and is dropped once the run reaches `MAX_REPEATS`; any other text
/// is kept and ends the run.
pub open spec fn keep_state(segs: Seq<(i64, i64, Seq<char>)>, n: int) -> KeepState
    decreases n,
{
    if n <= 0 {
        (Seq::empty(), None, 0)
    } else {
        let (out, last, count) = keep_state(segs, n - 1);
        let s = segs[n - 1];
        if s.2.len() == 0 {
            (out, last, count)
        } else if last == Some(s.2) {
            if count + 1 >= MAX_REPEATS {
                (out, last, count + 1)
            } else {
                (out.push(s), last, count + 1)
            }
        } else {
            (out.push(s), Some(s.2), 0)
        }
    }
}

/// The texts joined with single spaces.
pub open spec fn joined(ts: Seq<(i64, i64, Seq<char>)>) -> Seq<char>
    decreases ts.len(),
{
    if ts.len() == 0 {
        Seq::empty()
    } else if ts.len() == 1 {
        ts[0].2
    } else {
        joined(ts.drop_last()) + seq![' '] + ts.last().2
    }
}

/// The segments kept of already trimmed `segs`, in order.
pub fn keep_segments(segs: &[TimedText]) -> (r: Vec<TimedText>)
    ensures
        timed_models(r@) == keep_state(timed_models(segs@), segs@.len() as int).0,
{
    let ghost sm = timed_models(segs@);
    let mut out: Vec<TimedText> = Vec::new();
    let mut last: Option<String> = None;
    let mut count: u64 = 0;
    let mut i: usize = 0;
    while i < segs.len()
        invariant
            0 <= i <= segs@.len(),
            sm == timed_models(segs@),
            count <= i,
            keep_state(sm, i as int) == (
                timed_models(out@),
                match last {
                    Some(s) => Some(s@),
                    None => None::<Seq<char>>,
                },
                count as nat,
            ),
        decreases segs@.len() - i,
    {
        let s = &segs[i];
        assert(sm[i as int] == timed_model(*s));
        if s.text.as_str().is_empty() {
        } else {
            let repeat = match &last {
                Some(l) => *l == s.text,
                None => false,
            };
            let ghost before = timed_models(out@);
            if repeat {
                count = count + 1;
                if count < MAX_REPEATS {
                    let t = TimedText { start_cs: s.start_cs, end_cs: s.end_cs, text: s.text.clone() };
                    out.push(t);
                    assert(timed_models(out@) =~= before.push(timed_model(*s)));
                }
            } else {
                let t = TimedText { start_cs: s.start_cs, end_cs: s.end_cs, text: s.text.clone() };
                out.push(t);
                assert(timed_models(out@) =~= before.push(timed_model(*s)));
                last = Some(s.text.clone());
                count = 0;
            }
        }
        i = i + 1;
    }
    out
}

/// The texts of `segs` joined with single spaces.
pub fn join_texts(segs: &[TimedText]) -> (r: String)
    ensures
        r@ == joined(timed_models(segs@)),
{
    let ghost sm = timed_models(segs@);
    let mut out = String::new();
    let mut i: usize = 0;
    while i < segs.len()
        invariant
            0 <= i <= segs@.len(),
            sm == timed_models(segs@),
            out@ == joined(sm.take(i as int)),
        decreases segs@.len() - i,
    {
        assert(sm.take(i + 1).drop_last() =~= sm.take(i as int));
        if i > 0 {
            out.append(" ");
        }
        out.append(segs[i].text.as_str());
        proof {
            reveal_strlit(" ");
            if i == 0 {
                assert(out@ =~= joined(sm.take(1)));
            } else {
                assert(sm.take(i + 1).last() == sm[i as int]);
                assert(out@ =~= joined(sm.take(i + 1)));
            }
        }
        i = i + 1;
    }
    assert(sm.take(i as int) =~= sm);
    out
}

/// The trimmed form of raw segments.
pub open spec fn trimmed_models(segs: Seq<TimedText>) -> Seq<(i64, i64, Seq<char>)> {
    segs.map_values(|t: TimedText| (t.start_cs, t.end_cs, trimmed_of(t.text@)))
}

/// The engine's raw segments made ready for a transcript: trimmed, empty
/// and hallucinated repeats dropped; with the kept texts joined.
pub fn collect_segments(raw: &[TimedText]) -> (r: (Vec<TimedText>, String))
    ensures
        timed_models(r.0@) == keep_state(trimmed_models(raw@), raw@.len() as int).0,
        r.1@ == joined(timed_models(r.0@)),
{
    let mut trimmed: Vec<TimedText> = Vec::new();
    let mut i: usize = 0;
    while i < raw.len()
        invariant
            0 <= i <= raw@.len(),
            timed_models(trimmed@) == trimmed_models(raw@).take(i as int),
        decreases raw@.len() - i,
    {
        let s = &raw[i];
        let t = TimedText { start_cs: s.start_cs, end_cs: s.end_cs, text: trim_text(s.text.as_str()) };
        let ghost before = timed_models(trimmed@);
        let ghost tm = timed_model(t);
        assert(trimmed_models(raw@)[i as int] == tm);
        trimmed.push(t);
        assert(timed_models(trimmed@) =~= before.push(tm));
        assert(timed_models(trimmed@) =~= trimmed_models(raw@).take(i + 1));
        i = i + 1;
    }
    assert(trimmed_models(raw@).take(i as int) =~= trimmed_models(raw@));
    let kept = keep_segments(trimmed.as_slice());
    let text = join_texts(kept.as_slice());
    (kept, text)
}

} // verus!
