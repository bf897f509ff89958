//! The audio frame, the per-stream file header and their mathematical models.

use vstd::prelude::*;

verus! {

/// Magic bytes at the start of every stream file.
pub const MAGIC_0: u8 = 0x57;
pub const MAGIC_1: u8 = 0x52;
pub const MAGIC_2: u8 = 0x54;
pub const MAGIC_3: u8 = 0x59;

/// The only file format version this library writes and reads.
pub const VERSION: u8 = 1;

/// Largest number of samples one stored record can carry (its count is a `u16`).
pub const MAX_RECORD_SAMPLES: usize = 65535;

/// One 20 ms tick of decoded mono audio for one stream.
#[derive(Debug, Clone)]
pub struct AudioFrame {
    /// Logical tick counter value assigned at ingestion.
    pub tick_index: u64,
    /// Mono 16-bit PCM samples.
    pub samples: Vec<i16>,
}

/// The model of a frame: its tick and its samples.
pub open spec fn frame_model(f: AudioFrame) -> (u64, Seq<i16>) {
    (f.tick_index, f.samples@)
}

/// The models of a sequence of frames, in order.
pub open spec fn frames_model(fs: Seq<AudioFrame>) -> Seq<(u64, Seq<i16>)> {
    fs.map_values(|f: AudioFrame| frame_model(f))
}

/// Ticks strictly increase along the sequence.
pub open spec fn ticks_increasing(fs: Seq<(u64, Seq<i16>)>) -> bool {
    forall|i: int, j: int| 0 <= i < j < fs.len() ==> #[trigger] fs[i].0 < #[trigger] fs[j].0
}

impl AudioFrame {
    /// Creates a frame at `tick_index` holding `samples`.
    pub fn new(tick_index: u64, samples: Vec<i16>) -> (r: AudioFrame)
        ensures
            r.tick_index == tick_index,
            r.samples@ == samples@,
    {
        AudioFrame { tick_index, samples }
    }

    /// A copy of the frame with the same tick and samples.
    pub fn duplicate(&self) -> (r: AudioFrame)
        ensures
            frame_model(r) == frame_model(*self),
    {
        AudioFrame { tick_index: self.tick_index, samples: self.samples.clone() }
    }
}

/// Per-stream persisted metadata, written once when the stream file is created.
#[derive(Debug, Clone, Copy, PartialEq, Eq)]
pub struct FileHeader {
    pub version: u8,
    pub sample_rate: u32,
    pub channels: u16,
}

impl FileHeader {
    /// A header of the current format version.
    pub open spec fn new_spec(sample_rate: u32, channels: u16) -> FileHeader {
        FileHeader { version: VERSION, sample_rate, channels }
    }

    /// A header of the current format version.
    pub fn new(sample_rate: u32, channels: u16) -> (r: FileHeader)
        ensures
            r == FileHeader::new_spec(sample_rate, channels),
    {
        FileHeader { version: VERSION, sample_rate, channels }
    }

    /// Header size in bytes: magic, version, sample rate, channel count.
    pub fn size() -> (r: usize)
        ensures
            r == 11,
    {
        4 + 1 + 4 + 2
    }
}

} // verus!
