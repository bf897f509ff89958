//! The in-memory WAV form of transcription audio: 16 kHz, mono, 16-bit PCM.

use vstd::prelude::*;
use crate::bytes::{le16, le32, push_u16, push_u32};
use crate::codec::sample_bytes;

verus! {

/// Sample rate of the WAV audio handed to transcription.
pub const WAV_SAMPLE_RATE: u32 = 16000;

/// The ASCII bytes of a four-letter chunk tag.
pub open spec fn tag(a: char, b: char, c: char, d: char) -> Seq<u8> {
    seq![a as u8, b as u8, c as u8, d as u8]
}

/// The 44-byte header of a mono 16-bit WAV file at 16 kHz holding `n`
/// samples.
pub open spec fn wav_header(n: nat) -> Seq<u8> {
    let data_size = (2 * n) as u32;
    tag('R', 'I', 'F', 'F') + le32((36 + 2 * n) as u32) + tag('W', 'A', 'V', 'E') + tag(
        'f',
        'm',
        't',
        ' ',
    ) + le32(16u32) + le16(1u16) + le16(1u16) + le32(WAV_SAMPLE_RATE) + le32(32000u32) + le16(2u16)
        + le16(16u16) + tag('d', 'a', 't', 'a') + le32(data_size)
}

fn push_tag(out: &mut Vec<u8>, a: u8, b: u8, c: u8, d: u8)
    ensures
        final(out)@ == old(out)@ + seq![a, b, c, d],
{
    out.push(a);
    out.push(b);
    out.push(c);
    out.push(d);
    assert(final(out)@ =~= old(out)@ + seq![a, b, c, d]);
}

/// The samples as a WAV file: the header, then each sample little-endian.
pub fn samples_to_wav_bytes(samples: &[i16]) -> (r: Vec<u8>)
    requires
        36 + 2 * samples@.len() <= u32::MAX,
    ensures
        r@ == wav_header(samples@.len()) + sample_bytes(samples@),
{
    let n = samples.len();
    let data_size = (n * 2) as u32;
    let mut out: Vec<u8> = Vec::new();
    push_tag(&mut out, 0x52, 0x49, 0x46, 0x46);
    push_u32(&mut out, 36 + data_size);
    push_tag(&mut out, 0x57, 0x41, 0x56, 0x45);
    push_tag(&mut out, 0x66, 0x6d, 0x74, 0x20);
    push_u32(&mut out, 16);
    push_u16(&mut out, 1);
    push_u16(&mut out, 1);
    push_u32(&mut out, WAV_SAMPLE_RATE);
    push_u32(&mut out, WAV_SAMPLE_RATE * 2);
    push_u16(&mut out, 2);
    push_u16(&mut out, 16);
    push_tag(&mut out, 0x64, 0x61, 0x74, 0x61);
    push_u32(&mut out, data_size);
    proof {
        assert(out@ =~= wav_header(n as nat));
    }
    let ghost head = out@;
    let mut i: usize = 0;
    while i < n
        invariant
            0 <= i <= n,
            n == samples@.len(),
            out@ == head + sample_bytes(samples@.take(i as int)),
        decreases n - i,
    {
        let v = samples[i] as u16;
        out.push(v as u8);
        out.push((v >> 8u16) as u8);
        assert(sample_bytes(samples@.take(i + 1)) =~= sample_bytes(samples@.take(i as int)) + seq![
            v as u8,
            (v >> 8u16) as u8,
        ]);
        i = i + 1;
    }
    assert(samples@.take(i as int) =~= samples@);
    out
}

} // verus!
