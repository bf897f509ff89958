//! The sparse stream format: a fixed header, then one record per present
//! tick, `[tick u64 LE][count u16 LE][count x i16 LE]`. Silence is never
//! stored; an absent tick is silent.

use vstd::prelude::*;
use crate::bytes::{
    i16_at, le16, le32, le64, lemma_i16_round_trip, lemma_u16_round_trip, lemma_u32_round_trip,
    lemma_u64_round_trip, push_u16, push_u32, push_u64, read_i16, read_u16, read_u32, read_u64,
    u16_at, u32_at, u64_at,
};
use crate::frame::{
    frame_model, frames_model, AudioFrame, FileHeader, MAGIC_0, MAGIC_1, MAGIC_2, MAGIC_3,
    MAX_RECORD_SAMPLES, VERSION,
};

verus! {

/// Why a stream could not be encoded or decoded.
#[derive(Debug, Clone, Copy, PartialEq, Eq, Structural)]
pub enum CodecError {
    /// Fewer bytes than a header holds.
    TruncatedHeader,
    /// The first four bytes are not the format's magic.
    BadMagic,
    /// The header names a version this reader does not know.
    UnsupportedVersion(u8),
    /// A record is cut short: its fixed part or its samples run past the end.
    TruncatedRecord,
    /// A frame holds more samples than a record's count can express.
    FrameTooLong,
    /// A log already holds as many frames as its counter can count.
    LogFull,
    /// An identity snapshot whose length does not match its entry count, or
    /// whose stream identifiers are not strictly ascending.
    MalformedSnapshot,
}

/// The bytes of a header.
pub open spec fn header_bytes(h: FileHeader) -> Seq<u8> {
    seq![MAGIC_0, MAGIC_1, MAGIC_2, MAGIC_3, h.version] + le32(h.sample_rate) + le16(h.channels)
}

/// The bytes of a run of samples, each little-endian.
pub open spec fn sample_bytes(s: Seq<i16>) -> Seq<u8> {
    Seq::new(
        2 * s.len(),
        |j: int|
            if j % 2 == 0 {
                (s[j / 2] as u16) as u8
            } else {
                ((s[j / 2] as u16) >> 8u16) as u8
            },
    )
}

/// The bytes of one record.
pub open spec fn record_bytes(f: (u64, Seq<i16>)) -> Seq<u8> {
    le64(f.0) + le16(f.1.len() as u16) + sample_bytes(f.1)
}

/// The bytes of a sequence of records, in order.
pub open spec fn records_bytes(fs: Seq<(u64, Seq<i16>)>) -> Seq<u8>
    decreases fs.len(),
{
    if fs.len() == 0 {
        Seq::empty()
    } else {
        record_bytes(fs[0]) + records_bytes(fs.drop_first())
    }
}

/// Every frame fits in one record.
pub open spec fn records_fit(fs: Seq<(u64, Seq<i16>)>) -> bool {
    forall|i: int| 0 <= i < fs.len() ==> (#[trigger] fs[i]).1.len() <= MAX_RECORD_SAMPLES
}

/// The `n` samples stored from `at` on.
pub open spec fn samples_at(b: Seq<u8>, at: int, n: nat) -> Seq<i16> {
    Seq::new(n, |i: int| i16_at(b, at + 2 * i))
}

/// The header that `b` starts with, or why there is none.
pub open spec fn header_of(b: Seq<u8>) -> Result<FileHeader, CodecError> {
    if b.len() < 11 {
        Err(CodecError::TruncatedHeader)
    } else if b[0] != MAGIC_0 || b[1] != MAGIC_1 || b[2] != MAGIC_2 || b[3] != MAGIC_3 {
        Err(CodecError::BadMagic)
    } else if b[4] != VERSION {
        Err(CodecError::UnsupportedVersion(b[4]))
    } else {
        Ok(FileHeader { version: b[4], sample_rate: u32_at(b, 5), channels: u16_at(b, 9) })
    }
}

/// The record starting at `pos` with the position after it; `None` at the end.
pub open spec fn record_at(b: Seq<u8>, pos: int) -> Result<
    Option<((u64, Seq<i16>), int)>,
    CodecError,
> {
    if pos >= b.len() {
        Ok(None)
    } else if b.len() - pos < 10 {
        Err(CodecError::TruncatedRecord)
    } else {
        let n = u16_at(b, pos + 8) as nat;
        if b.len() - pos - 10 < 2 * n {
            Err(CodecError::TruncatedRecord)
        } else {
            Ok(Some(((u64_at(b, pos), samples_at(b, pos + 10, n)), pos + 10 + 2 * n)))
        }
    }
}

/// All records from `pos` to the end, or the first reason one fails.
pub open spec fn records_from(b: Seq<u8>, pos: int) -> Result<Seq<(u64, Seq<i16>)>, CodecError>
    decreases b.len() - pos,
{
    if pos < 0 || pos >= b.len() {
        Ok(Seq::empty())
    } else {
        match record_at(b, pos) {
            Err(e) => Err(e),
            Ok(None) => Ok(Seq::empty()),
            Ok(Some((f, next))) => match records_from(b, next) {
                Ok(rest) => Ok(seq![f] + rest),
                Err(e) => Err(e),
            },
        }
    }
}

/// A whole stream: its header and its records.
pub open spec fn stream_of(b: Seq<u8>) -> Result<(FileHeader, Seq<(u64, Seq<i16>)>), CodecError> {
    match header_of(b) {
        Err(e) => Err(e),
        Ok(h) => match records_from(b, 11) {
            Ok(fs) => Ok((h, fs)),
            Err(e) => Err(e),
        },
    }
}

/// Appending a frame appends its record.
pub proof fn lemma_records_bytes_push(fs: Seq<(u64, Seq<i16>)>, f: (u64, Seq<i16>))
    ensures
        records_bytes(fs.push(f)) == records_bytes(fs) + record_bytes(f),
    decreases fs.len(),
{
    if fs.len() == 0 {
        assert(fs.push(f).drop_first() =~= Seq::<(u64, Seq<i16>)>::empty());
        assert(fs.push(f)[0] == f);
        assert(records_bytes(Seq::<(u64, Seq<i16>)>::empty()) == Seq::<u8>::empty());
        assert(records_bytes(fs.push(f)) == record_bytes(f) + records_bytes(
            fs.push(f).drop_first(),
        ));
        assert(records_bytes(fs.push(f)) =~= records_bytes(fs) + record_bytes(f));
    } else {
        assert(fs.push(f).drop_first() =~= fs.drop_first().push(f));
        assert(fs.push(f)[0] == fs[0]);
        lemma_records_bytes_push(fs.drop_first(), f);
        assert(records_bytes(fs.push(f)) == record_bytes(fs[0]) + records_bytes(
            fs.drop_first().push(f),
        ));
        assert(records_bytes(fs) == record_bytes(fs[0]) + records_bytes(fs.drop_first()));
        assert(records_bytes(fs.push(f)) =~= records_bytes(fs) + record_bytes(f));
    }
}

proof fn lemma_sample_bytes_round_trip(b: Seq<u8>, at: int, s: Seq<i16>)
    requires
        0 <= at,
        at + 2 * s.len() <= b.len(),
        b.subrange(at, at + 2 * s.len()) == sample_bytes(s),
    ensures
        samples_at(b, at, s.len()) == s,
{
    assert forall|i: int| 0 <= i < s.len() implies #[trigger] samples_at(b, at, s.len())[i]
        == s[i] by {
        let sb = sample_bytes(s);
        assert(b[at + 2 * i] == sb[2 * i]);
        assert(b[at + 2 * i + 1] == sb[2 * i + 1]);
        assert((2 * i) % 2 == 0 && (2 * i) / 2 == i);
        assert((2 * i + 1) % 2 == 1 && (2 * i + 1) / 2 == i);
        lemma_i16_round_trip(s[i]);
        let e = le16(s[i] as u16);
        assert(u16_at(b, at + 2 * i) == u16_at(e, 0));
    }
    assert(samples_at(b, at, s.len()) =~= s);
}

proof fn lemma_records_round_trip(p: Seq<u8>, fs: Seq<(u64, Seq<i16>)>)
    requires
        records_fit(fs),
    ensures
        records_from(p + records_bytes(fs), p.len() as int) == Ok::<
            Seq<(u64, Seq<i16>)>,
            CodecError,
        >(fs),
    decreases fs.len(),
{
    let b = p + records_bytes(fs);
    let pl = p.len() as int;
    if fs.len() == 0 {
        assert(b =~= p);
        assert(fs =~= Seq::<(u64, Seq<i16>)>::empty());
    } else {
        let f = fs[0];
        let rest = fs.drop_first();
        let n = f.1.len();
        assert(n <= MAX_RECORD_SAMPLES);
        let r = record_bytes(f);
        assert(b =~= (p + r) + records_bytes(rest));
        assert(r.len() == 10 + 2 * n);
        // the tick
        assert forall|k: int| 0 <= k < 8 implies b[pl + k] == #[trigger] le64(f.0)[k] by {
            assert(b[pl + k] == r[k]);
        }
        lemma_u64_round_trip(f.0);
        assert(u64_at(b, pl) == u64_at(le64(f.0), 0));
        // the count
        assert(b[pl + 8] == le16(n as u16)[0]);
        assert(b[pl + 9] == le16(n as u16)[1]);
        lemma_u16_round_trip(n as u16);
        assert(u16_at(b, pl + 8) == u16_at(le16(n as u16), 0));
        assert(u16_at(b, pl + 8) as nat == n);
        // the samples
        assert(b.subrange(pl + 10, pl + 10 + 2 * n) =~= sample_bytes(f.1)) by {
            assert forall|j: int| 0 <= j < 2 * n implies #[trigger] b.subrange(
                pl + 10,
                pl + 10 + 2 * n,
            )[j] == sample_bytes(f.1)[j] by {
                assert(b[pl + 10 + j] == r[10 + j]);
            }
        }
        lemma_sample_bytes_round_trip(b, pl + 10, f.1);
        assert(record_at(b, pl) == Ok::<Option<((u64, Seq<i16>), int)>, CodecError>(
            Some((f, pl + 10 + 2 * n)),
        ));
        assert forall|i: int| 0 <= i < rest.len() implies (#[trigger] rest[i]).1.len()
            <= MAX_RECORD_SAMPLES by {
            assert(rest[i] == fs[i + 1]);
        }
        lemma_records_round_trip(p + r, rest);
        assert((p + r).len() == pl + 10 + 2 * n);
        assert(fs =~= seq![f] + rest);
    }
}

/// Decoding what was encoded gives back every frame, tick and samples, in order.
pub proof fn lemma_stream_round_trip(h: FileHeader, fs: Seq<(u64, Seq<i16>)>)
    requires
        h.version == VERSION,
        records_fit(fs),
    ensures
        stream_of(header_bytes(h) + records_bytes(fs)) == Ok::<
            (FileHeader, Seq<(u64, Seq<i16>)>),
            CodecError,
        >((h, fs)),
{
    let hb = header_bytes(h);
    let b = hb + records_bytes(fs);
    assert(hb.len() == 11);
    lemma_u32_round_trip(h.sample_rate);
    lemma_u16_round_trip(h.channels);
    assert forall|k: int| 0 <= k < 11 implies b[k] == #[trigger] hb[k] by {}
    assert(u32_at(b, 5) == u32_at(le32(h.sample_rate), 0));
    assert(u16_at(b, 9) == u16_at(le16(h.channels), 0));
    assert(header_of(b) == Ok::<FileHeader, CodecError>(h));
    lemma_records_round_trip(hb, fs);
}

/// Appends the record of `f`.
pub fn encode_record(out: &mut Vec<u8>, f: &AudioFrame)
    requires
        f.samples@.len() <= MAX_RECORD_SAMPLES,
    ensures
        final(out)@ == old(out)@ + record_bytes(frame_model(*f)),
{
    let n = f.samples.len();
    let start = Ghost(out@);
    push_u64(out, f.tick_index);
    push_u16(out, n as u16);
    let mid = Ghost(out@);
    let mut i: usize = 0;
    while i < n
        invariant
            0 <= i <= n,
            n == f.samples@.len(),
            out@ == mid@ + sample_bytes(f.samples@.take(i as int)),
            mid@ == start@ + le64(f.tick_index) + le16(n as u16),
        decreases n - i,
    {
        let v = f.samples[i] as u16;
        out.push(v as u8);
        out.push((v >> 8u16) as u8);
        assert(sample_bytes(f.samples@.take(i + 1)) =~= sample_bytes(f.samples@.take(i as int))
            + seq![v as u8, (v >> 8u16) as u8]);
        i = i + 1;
    }
    assert(f.samples@.take(n as int) =~= f.samples@);
    assert(out@ =~= start@ + record_bytes(frame_model(*f)));
}

/// The records of `frames`, in order; fails if a frame is too long for one record.
pub fn encode_records(frames: &[AudioFrame]) -> (r: Result<Vec<u8>, CodecError>)
    ensures
        r is Ok <==> records_fit(frames_model(frames@)),
        r is Err ==> r == Err::<Vec<u8>, CodecError>(CodecError::FrameTooLong),
        r matches Ok(b) ==> b@ == records_bytes(frames_model(frames@)),
{
    let mut out: Vec<u8> = Vec::new();
    let mut i: usize = 0;
    while i < frames.len()
        invariant
            0 <= i <= frames@.len(),
            out@ == records_bytes(frames_model(frames@.take(i as int))),
            records_fit(frames_model(frames@.take(i as int))),
        decreases frames@.len() - i,
    {
        if frames[i].samples.len() > MAX_RECORD_SAMPLES {
            assert(frames_model(frames@)[i as int].1.len() > MAX_RECORD_SAMPLES);
            return Err(CodecError::FrameTooLong);
        }
        encode_record(&mut out, &frames[i]);
        proof {
            let m = frames_model(frames@.take(i as int));
            assert(frames_model(frames@.take(i + 1)) =~= m.push(frame_model(frames@[i as int])));
            lemma_records_bytes_push(m, frame_model(frames@[i as int]));
        }
        i = i + 1;
    }
    assert(frames@.take(i as int) =~= frames@);
    Ok(out)
}

/// A whole stream: the header of `h`, then the records of `frames`.
pub fn encode_stream(h: &FileHeader, frames: &[AudioFrame]) -> (r: Result<Vec<u8>, CodecError>)
    ensures
        r is Ok <==> records_fit(frames_model(frames@)),
        r is Err ==> r == Err::<Vec<u8>, CodecError>(CodecError::FrameTooLong),
        r matches Ok(b) ==> b@ == header_bytes(*h) + records_bytes(frames_model(frames@)),
{
    let mut out: Vec<u8> = Vec::new();
    h.write_to(&mut out);
    assert(out@ =~= header_bytes(*h));
    match encode_records(frames) {
        Ok(body) => {
            let mut body = body;
            out.append(&mut body);
            Ok(out)
        },
        Err(e) => Err(e),
    }
}

impl FileHeader {
    /// Appends the bytes of the header.
    pub fn write_to(&self, out: &mut Vec<u8>)
        ensures
            final(out)@ == old(out)@ + header_bytes(*self),
    {
        let ghost start = out@;
        out.push(MAGIC_0);
        out.push(MAGIC_1);
        out.push(MAGIC_2);
        out.push(MAGIC_3);
        out.push(self.version);
        push_u32(out, self.sample_rate);
        push_u16(out, self.channels);
        assert(out@ =~= start + header_bytes(*self));
    }

    /// Reads the header at the start of `b`: an unknown magic or version is
    /// refused rather than guessed at.
    pub fn read_from(b: &[u8]) -> (r: Result<FileHeader, CodecError>)
        ensures
            r == header_of(b@),
    {
        if b.len() < 11 {
            return Err(CodecError::TruncatedHeader);
        }
        if b[0] != MAGIC_0 || b[1] != MAGIC_1 || b[2] != MAGIC_2 || b[3] != MAGIC_3 {
            return Err(CodecError::BadMagic);
        }
        if b[4] != VERSION {
            return Err(CodecError::UnsupportedVersion(b[4]));
        }
        Ok(FileHeader { version: b[4], sample_rate: read_u32(b, 5), channels: read_u16(b, 9) })
    }
}

/// Reads the record at `pos`: the frame and the position after it, or
/// `None` at the end of `b`.
pub fn decode_record(b: &[u8], pos: usize) -> (r: Result<Option<(AudioFrame, usize)>, CodecError>)
    ensures
        match (r, record_at(b@, pos as int)) {
            (Ok(None), Ok(None)) => true,
            (Ok(Some((f, next))), Ok(Some((m, mnext)))) => frame_model(f) == m && next == mnext,
            (Err(e), Err(me)) => e == me,
            _ => false,
        },
{
    if pos >= b.len() {
        return Ok(None);
    }
    if b.len() - pos < 10 {
        return Err(CodecError::TruncatedRecord);
    }
    let tick = read_u64(b, pos);
    let n = read_u16(b, pos + 8) as usize;
    if b.len() - pos - 10 < 2 * n {
        return Err(CodecError::TruncatedRecord);
    }
    let at = pos + 10;
    let blen = b.len();
    let mut samples: Vec<i16> = Vec::new();
    let mut i: usize = 0;
    while i < n
        invariant
            0 <= i <= n,
            at + 2 * n <= b@.len(),
            blen == b@.len(),
            samples@ == samples_at(b@, at as int, i as nat),
        decreases n - i,
    {
        samples.push(read_i16(b, at + 2 * i));
        assert(samples@ =~= samples_at(b@, at as int, (i + 1) as nat));
        i = i + 1;
    }
    Ok(Some((AudioFrame { tick_index: tick, samples }, at + 2 * n)))
}

/// All records from `pos` on, in order.
pub fn decode_records(b: &[u8], pos: usize) -> (r: Result<Vec<AudioFrame>, CodecError>)
    ensures
        match (r, records_from(b@, pos as int)) {
            (Ok(fs), Ok(ms)) => frames_model(fs@) == ms,
            (Err(e), Err(me)) => e == me,
            _ => false,
        },
{
    let mut out: Vec<AudioFrame> = Vec::new();
    let mut cur = pos;
    loop
        invariant
            pos <= cur,
            records_from(b@, pos as int) == match records_from(b@, cur as int) {
                Ok(rest) => Ok(frames_model(out@) + rest),
                Err(e) => Err(e),
            },
        decreases b@.len() - cur,
    {
        if cur >= b.len() {
            assert(frames_model(out@) + Seq::empty() =~= frames_model(out@));
            return Ok(out);
        }
        match decode_record(b, cur) {
            Err(e) => {
                return Err(e);
            },
            Ok(None) => {
                assert(frames_model(out@) + Seq::empty() =~= frames_model(out@));
                return Ok(out);
            },
            Ok(Some((f, next))) => {
                proof {
                    let m = frame_model(f);
                    assert(frames_model(out@.push(f)) =~= frames_model(out@).push(m));
                    match records_from(b@, next as int) {
                        Ok(rest) => {
                            assert(frames_model(out@) + (seq![m] + rest) =~= frames_model(
                                out@.push(f),
                            ) + rest);
                        },
                        Err(_) => {},
                    }
                }
                out.push(f);
                cur = next;
            },
        }
    }
}

/// A whole stream: its header and all its records.
pub fn decode_stream(b: &[u8]) -> (r: Result<(FileHeader, Vec<AudioFrame>), CodecError>)
    ensures
        match (r, stream_of(b@)) {
            (Ok((h, fs)), Ok((mh, ms))) => h == mh && frames_model(fs@) == ms,
            (Err(e), Err(me)) => e == me,
            _ => false,
        },
{
    let h = match FileHeader::read_from(b) {
        Ok(h) => h,
        Err(e) => {
            return Err(e);
        },
    };
    match decode_records(b, 11) {
        Ok(fs) => Ok((h, fs)),
        Err(e) => Err(e),
    }
}

} // verus!
