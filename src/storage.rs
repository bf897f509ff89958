//! Building and reading one stream's append-only log in memory. The bytes
//! are what goes to (or came from) the stream's file.

use vstd::prelude::*;
use crate::codec::{
    decode_record, decode_records, encode_record, header_bytes,
    header_of, lemma_records_bytes_push, lemma_stream_round_trip, record_at, records_bytes,
    records_fit, records_from, stream_of, CodecError,
};
use crate::frame::{frame_model, frames_model, AudioFrame, FileHeader, MAX_RECORD_SAMPLES, VERSION};

verus! {

/// Reading records one at a time gives what reading them all gives: the
/// first record, then the records after it.
pub proof fn lemma_cursor_agrees(b: Seq<u8>, pos: int)
    requires
        0 <= pos < b.len(),
        records_from(b, pos) is Ok,
    ensures
        match (record_at(b, pos), records_from(b, pos)) {
            (Ok(Some((f, next))), Ok(fs)) => fs.len() > 0 && fs[0] == f && records_from(b, next)
                == Ok::<Seq<(u64, Seq<i16>)>, CodecError>(fs.drop_first()),
            _ => false,
        },
{
    match record_at(b, pos) {
        Ok(Some((f, next))) => {
            let rest = records_from(b, next);
            match rest {
                Ok(r) => {
                    assert((seq![f] + r).drop_first() =~= r);
                },
                Err(_) => {},
            }
        },
        _ => {},
    }
}

/// Where a forward reader starting at `pos` stands after `k` records.
pub open spec fn cursor_pos(b: Seq<u8>, pos: int, k: nat) -> int
    decreases k,
{
    if k == 0 {
        pos
    } else {
        match record_at(b, pos) {
            Ok(Some((_, next))) => cursor_pos(b, next, (k - 1) as nat),
            _ => pos,
        }
    }
}

proof fn lemma_cursor_walk(b: Seq<u8>, pos: int, fs: Seq<(u64, Seq<i16>)>)
    requires
        0 <= pos,
        records_from(b, pos) == Ok::<Seq<(u64, Seq<i16>)>, CodecError>(fs),
    ensures
        forall|k: nat|
            k < fs.len() ==> #[trigger] record_at(b, cursor_pos(b, pos, k)) == Ok::<
                Option<((u64, Seq<i16>), int)>,
                CodecError,
            >(Some((fs[k as int], cursor_pos(b, pos, k + 1)))),
        record_at(b, cursor_pos(b, pos, fs.len())) == Ok::<
            Option<((u64, Seq<i16>), int)>,
            CodecError,
        >(None),
    decreases fs.len(),
{
    if pos >= b.len() {
        assert(fs.len() == 0);
    } else if fs.len() == 0 {
        match record_at(b, pos) {
            Ok(Some((f, next))) => {
                match records_from(b, next) {
                    Ok(rest) => assert((seq![f] + rest).len() > 0),
                    Err(_) => {},
                }
            },
            _ => {},
        }
    } else {
        lemma_cursor_agrees(b, pos);
        match record_at(b, pos) {
            Ok(Some((f, next))) => {
                let rest = fs.drop_first();
                lemma_cursor_walk(b, next, rest);
                assert forall|k: nat| k < fs.len() implies #[trigger] record_at(
                    b,
                    cursor_pos(b, pos, k),
                ) == Ok::<Option<((u64, Seq<i16>), int)>, CodecError>(
                    Some((fs[k as int], cursor_pos(b, pos, k + 1))),
                ) by {
                    if k > 0 {
                        let k1 = (k - 1) as nat;
                        assert(cursor_pos(b, pos, k) == cursor_pos(b, next, k1));
                        assert(cursor_pos(b, pos, k + 1) == cursor_pos(b, next, k1 + 1));
                        assert(record_at(b, cursor_pos(b, next, k1)) == Ok::<
                            Option<((u64, Seq<i16>), int)>,
                            CodecError,
                        >(Some((rest[k1 as int], cursor_pos(b, next, k1 + 1)))));
                    } else {
                        assert(cursor_pos(b, pos, 1) == cursor_pos(b, next, 0));
                    }
                }
                assert(cursor_pos(b, pos, fs.len()) == cursor_pos(b, next, rest.len()));
            },
            _ => {},
        }
    }
}

/// Reading a written log forward one frame at a time, from just after its
/// header, yields every frame written, tick and samples, in order, and then
/// the end: each step is what `read_frame` (and the iterator's `next`)
/// returns at the reader's position.
pub proof fn lemma_iterator_round_trip(h: FileHeader, fs: Seq<(u64, Seq<i16>)>)
    requires
        h.version == VERSION,
        records_fit(fs),
    ensures
        header_of(header_bytes(h) + records_bytes(fs)) == Ok::<FileHeader, CodecError>(h),
        forall|k: nat|
            k < fs.len() ==> #[trigger] record_at(
                header_bytes(h) + records_bytes(fs),
                cursor_pos(header_bytes(h) + records_bytes(fs), 11, k),
            ) == Ok::<Option<((u64, Seq<i16>), int)>, CodecError>(
                Some((fs[k as int], cursor_pos(header_bytes(h) + records_bytes(fs), 11, k + 1))),
            ),
        record_at(
            header_bytes(h) + records_bytes(fs),
            cursor_pos(header_bytes(h) + records_bytes(fs), 11, fs.len()),
        ) == Ok::<Option<((u64, Seq<i16>), int)>, CodecError>(None),
{
    let b = header_bytes(h) + records_bytes(fs);
    lemma_stream_round_trip(h, fs);
    assert(stream_of(b) == Ok::<(FileHeader, Seq<(u64, Seq<i16>)>), CodecError>((h, fs)));
    assert(header_of(b) == Ok::<FileHeader, CodecError>(h));
    assert(records_from(b, 11) == Ok::<Seq<(u64, Seq<i16>)>, CodecError>(fs));
    lemma_cursor_walk(b, 11, fs);
}

/// Appends frames to one stream's log, header first.
pub struct SparseAudioWriter {
    header: FileHeader,
    bytes: Vec<u8>,
    frames: Ghost<Seq<(u64, Seq<i16>)>>,
    frames_written: u64,
}

impl SparseAudioWriter {
    /// The frames written so far.
    pub closed spec fn written_frames(&self) -> Seq<(u64, Seq<i16>)> {
        self.frames@
    }

    /// The bytes of the log so far.
    pub closed spec fn log(&self) -> Seq<u8> {
        self.bytes@
    }

    /// The header the log starts with.
    pub closed spec fn head(&self) -> FileHeader {
        self.header
    }

    /// The log is the header's bytes followed by one record per frame written.
    pub closed spec fn wf(&self) -> bool {
        &&& self.bytes@ == header_bytes(self.header) + records_bytes(self.frames@)
        &&& records_fit(self.frames@)
        &&& self.header.version == VERSION
        &&& self.frames_written == self.frames@.len()
    }

    /// A log holding only a current-version header with these parameters.
    pub fn create(sample_rate: u32, channels: u16) -> (r: SparseAudioWriter)
        ensures
            r.wf(),
            r.head() == FileHeader::new_spec(sample_rate, channels),
            r.written_frames().len() == 0,
    {
        let header = FileHeader::new(sample_rate, channels);
        let mut bytes: Vec<u8> = Vec::new();
        header.write_to(&mut bytes);
        assert(bytes@ =~= header_bytes(header));
        let r = SparseAudioWriter {
            header,
            bytes,
            frames: Ghost(Seq::empty()),
            frames_written: 0,
        };
        assert(r.bytes@ =~= header_bytes(header) + records_bytes(Seq::empty()));
        r
    }

    /// Appends the record of `frame`. A frame longer than a record can hold,
    /// or a log whose frame counter is exhausted, is refused and nothing
    /// changes.
    pub fn write_frame(&mut self, frame: &AudioFrame) -> (r: Result<(), CodecError>)
        requires
            old(self).wf(),
        ensures
            final(self).wf(),
            final(self).head() == old(self).head(),
            frame.samples@.len() > MAX_RECORD_SAMPLES ==> r == Err::<(), CodecError>(
                CodecError::FrameTooLong,
            ),
            frame.samples@.len() <= MAX_RECORD_SAMPLES && old(self).written_frames().len()
                == u64::MAX ==> r == Err::<(), CodecError>(CodecError::LogFull),
            frame.samples@.len() <= MAX_RECORD_SAMPLES && old(self).written_frames().len()
                < u64::MAX ==> r is Ok,
            r is Ok ==> final(self).written_frames() == old(self).written_frames().push(
                frame_model(*frame),
            ),
            r is Err ==> final(self).written_frames() == old(self).written_frames(),
    {
        if frame.samples.len() > MAX_RECORD_SAMPLES {
            return Err(CodecError::FrameTooLong);
        }
        if self.frames_written == u64::MAX {
            return Err(CodecError::LogFull);
        }
        encode_record(&mut self.bytes, frame);
        proof {
            lemma_records_bytes_push(self.frames@, frame_model(*frame));
            let old_frames = self.frames@;
            self.frames = Ghost(old_frames.push(frame_model(*frame)));
            assert(self.bytes@ =~= header_bytes(self.header) + records_bytes(self.frames@));
            assert forall|i: int| 0 <= i < self.frames@.len() implies (#[trigger] self.frames@[i]).1.len()
                <= MAX_RECORD_SAMPLES by {
                if i < old_frames.len() {
                    assert(self.frames@[i] == old_frames[i]);
                }
            }
        }
        self.frames_written = self.frames_written + 1;
        Ok(())
    }

    /// The header of the log.
    pub fn header(&self) -> (r: &FileHeader)
        ensures
            *r == self.head(),
    {
        &self.header
    }

    /// Number of frames written.
    pub fn frames_written(&self) -> (r: u64)
        requires
            self.wf(),
        ensures
            r == self.written_frames().len(),
    {
        self.frames_written
    }

    /// The finished log.
    pub fn finalize(self) -> (r: Vec<u8>)
        requires
            self.wf(),
        ensures
            r@ == header_bytes(self.head()) + records_bytes(self.written_frames()),
            records_fit(self.written_frames()),
            self.head().version == VERSION,
    {
        self.bytes
    }
}

/// Reads one stream's log forward, one record at a time, holding only its
/// position.
#[derive(Debug)]
pub struct SparseAudioReader {
    bytes: Vec<u8>,
    header: FileHeader,
    pos: usize,
}

impl SparseAudioReader {
    /// The log being read.
    pub closed spec fn log(&self) -> Seq<u8> {
        self.bytes@
    }

    /// Where the next record starts.
    pub closed spec fn position(&self) -> int {
        self.pos as int
    }

    /// The header read from the log.
    pub closed spec fn head(&self) -> FileHeader {
        self.header
    }

    /// Reads the header; an unknown magic or version, or a log shorter than
    /// a header, is refused.
    pub fn open(bytes: Vec<u8>) -> (r: Result<SparseAudioReader, CodecError>)
        ensures
            match (r, header_of(bytes@)) {
                (Ok(rd), Ok(h)) => rd.head() == h && rd.log() == bytes@ && rd.position() == 11,
                (Err(e), Err(he)) => e == he,
                _ => false,
            },
    {
        match FileHeader::read_from(bytes.as_slice()) {
            Ok(header) => Ok(SparseAudioReader { bytes, header, pos: 11 }),
            Err(e) => Err(e),
        }
    }

    /// The header read from the log.
    pub fn header(&self) -> (r: &FileHeader)
        ensures
            *r == self.head(),
    {
        &self.header
    }

    /// The next frame, or `None` at the end of the log. A record cut short
    /// is an error, not the end.
    pub fn read_frame(&mut self) -> (r: Result<Option<AudioFrame>, CodecError>)
        ensures
            final(self).log() == old(self).log(),
            final(self).head() == old(self).head(),
            match (r, record_at(old(self).log(), old(self).position())) {
                (Ok(None), Ok(None)) => final(self).position() == old(self).position(),
                (Ok(Some(f)), Ok(Some((m, next)))) => frame_model(f) == m && final(self).position()
                    == next,
                (Err(e), Err(me)) => e == me && final(self).position() == old(self).position(),
                _ => false,
            },
    {
        match decode_record(self.bytes.as_slice(), self.pos) {
            Ok(None) => Ok(None),
            Ok(Some((f, next))) => {
                self.pos = next;
                Ok(Some(f))
            },
            Err(e) => Err(e),
        }
    }

    /// A forward iterator over the remaining frames.
    pub fn into_iter(self) -> (r: SparseAudioIterator)
        ensures
            r.reader() == self,
    {
        SparseAudioIterator { reader: self, failed: false }
    }

    /// All remaining frames, in order; the first record that fails to decode
    /// fails the whole read.
    pub fn read_all_frames(&mut self) -> (r: Result<Vec<AudioFrame>, CodecError>)
        ensures
            final(self).log() == old(self).log(),
            final(self).head() == old(self).head(),
            match (r, records_from(old(self).log(), old(self).position())) {
                (Ok(fs), Ok(ms)) => frames_model(fs@) == ms,
                (Err(e), Err(me)) => e == me,
                _ => false,
            },
    {
        let r = decode_records(self.bytes.as_slice(), self.pos);
        if r.is_ok() {
            self.pos = self.bytes.len();
        }
        r
    }
}

/// Yields a log's frames one at a time with constant memory; stops after
/// the first error.
#[derive(Debug)]
pub struct SparseAudioIterator {
    reader: SparseAudioReader,
    failed: bool,
}

impl SparseAudioIterator {
    /// The underlying reader.
    pub closed spec fn reader(&self) -> SparseAudioReader {
        self.reader
    }

    /// Whether an error has ended the iteration.
    pub closed spec fn has_failed(&self) -> bool {
        self.failed
    }

    /// The next frame, the error that stops the iteration, or `None` at the
    /// end (and after an error).
    pub fn next(&mut self) -> (r: Option<Result<AudioFrame, CodecError>>)
        ensures
            final(self).reader().log() == old(self).reader().log(),
            old(self).has_failed() ==> r is None && final(self).has_failed(),
            !old(self).has_failed() ==> match (r, record_at(
                old(self).reader().log(),
                old(self).reader().position(),
            )) {
                (None, Ok(None)) => !final(self).has_failed(),
                (Some(Ok(f)), Ok(Some((m, next)))) => frame_model(f) == m
                    && final(self).reader().position() == next && !final(self).has_failed(),
                (Some(Err(e)), Err(me)) => e == me && final(self).has_failed(),
                _ => false,
            },
    {
        if self.failed {
            return None;
        }
        match self.reader.read_frame() {
            Ok(Some(f)) => Some(Ok(f)),
            Ok(None) => None,
            Err(e) => {
                self.failed = true;
                Some(Err(e))
            },
        }
    }
}

} // verus!
