//! Multi-speaker voice capture core: a sparse tick-indexed audio log, its
//! reconstruction into continuous PCM, speaker identity tracking, speech
//! segmentation and the recording-session state machine.

pub mod audio;
pub mod bytes;
pub mod codec;
pub mod export;
pub mod frame;
pub mod identity;
pub mod merge;
pub mod models;
pub mod naming;
pub mod reconstruct;
pub mod segment;
pub mod session;
pub mod storage;
pub mod text;
pub mod transcript;
pub mod transcription;
pub mod wav;
pub mod writer;
