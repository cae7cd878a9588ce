//! G.729 framing. The codec itself is a native library that the embedding
//! application links; what is fixed here is how audio and payload are cut
//! into the units that the codec takes, and how its output is put together.

use vstd::prelude::*;

verus! {

/// Samples in one G.729 frame (10 ms at 8 kHz).
pub const G729_FRAME_SAMPLES: usize = 80;

/// Bytes in one encoded G.729 frame (80 bits).
pub const G729_FRAME_BYTES: usize = 10;

/// Number of frames that `samples` samples are encoded as: the whole frames;
/// an incomplete last one is dropped.
pub open spec fn whole_frames(samples: int) -> int {
    samples / 80
}

/// Number of chunks that a payload of `bytes` bytes is decoded as: the whole
/// frames, and a shorter last chunk if it has at least two bytes.
pub open spec fn payload_chunks(bytes: int) -> int {
    if bytes % 10 >= 2 {
        bytes / 10 + 1
    } else {
        bytes / 10
    }
}

/// Where chunk `index` of a payload of `bytes` bytes ends.
pub open spec fn chunk_end(bytes: int, index: int) -> int {
    if 10 * index + 10 <= bytes {
        10 * index + 10
    } else {
        bytes
    }
}

/// Number of frames to hand to the encoder for `samples` samples.
pub fn frame_count(samples: usize) -> (frames: usize)
    ensures
        frames == whole_frames(samples as int),
{
    samples / G729_FRAME_SAMPLES
}

/// Frame `index` of `pcm`: 80 consecutive samples.
pub fn frame(pcm: &[i16], index: usize) -> (samples: &[i16])
    requires
        index < whole_frames(pcm.len() as int),
    ensures
        samples@ == pcm@.subrange(80 * index, 80 * index + 80),
{
    let start: usize = index * G729_FRAME_SAMPLES;
    vstd::slice::slice_subrange(pcm, start, start + G729_FRAME_SAMPLES)
}

/// Appends to `payload` the first `produced` bytes of what the encoder wrote
/// for one frame.
pub fn append_bitstream(payload: &mut Vec<u8>, bitstream: &[u8; 10], produced: u8)
    requires
        produced <= 10,
    ensures
        final(payload)@ == old(payload)@ + bitstream@.subrange(0, produced as int),
{
    let ghost before = payload@;
    let mut i: usize = 0;
    while i < produced as usize
        invariant
            i <= produced <= 10,
            payload@ == before + bitstream@.subrange(0, i as int),
        decreases produced - i,
    {
        payload.push(bitstream[i]);
        i += 1;
        assert(bitstream@.subrange(0, i as int) =~= bitstream@.subrange(0, i - 1).push(
            bitstream@[i - 1],
        ));
    }
}

/// Number of chunks to hand to the decoder for a payload of `bytes` bytes.
pub fn chunk_count(bytes: usize) -> (chunks: usize)
    ensures
        chunks == payload_chunks(bytes as int),
{
    if bytes % G729_FRAME_BYTES >= 2 {
        bytes / G729_FRAME_BYTES + 1
    } else {
        bytes / G729_FRAME_BYTES
    }
}

/// Chunk `index` of `payload`: ten bytes, or what is left of the payload.
pub fn chunk(payload: &[u8], index: usize) -> (bytes: &[u8])
    requires
        index < payload_chunks(payload.len() as int),
    ensures
        bytes@ == payload@.subrange(10 * index, chunk_end(payload.len() as int, index as int)),
        2 <= bytes.len() <= 10,
{
    let start: usize = index * G729_FRAME_BYTES;
    let end: usize = if payload.len() - start >= G729_FRAME_BYTES {
        start + G729_FRAME_BYTES
    } else {
        payload.len()
    };
    vstd::slice::slice_subrange(payload, start, end)
}

/// Appends to `samples` the 80 samples that the decoder wrote for one chunk.
pub fn append_frame(samples: &mut Vec<i16>, decoded: &[i16; 80])
    ensures
        final(samples)@ == old(samples)@ + decoded@,
{
    let ghost before = samples@;
    let mut i: usize = 0;
    while i < 80
        invariant
            i <= 80,
            samples@ == before + decoded@.subrange(0, i as int),
        decreases 80 - i,
    {
        samples.push(decoded[i]);
        i += 1;
        assert(decoded@.subrange(0, i as int) =~= decoded@.subrange(0, i - 1).push(decoded@[i - 1]));
    }
    assert(decoded@.subrange(0, 80) =~= decoded@);
}

} // verus!
