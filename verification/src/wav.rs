//! A minimal reader for RIFF/WAVE containers that hold 16-bit mono PCM.
//!
//! The container is walked chunk by chunk until the `data` chunk is found.
//! Where there is none, or the walk runs into a chunk that claims more bytes
//! than the file has, everything after a 44-byte header is taken as audio.

use vstd::prelude::*;

verus! {

/// Length of the RIFF header: `RIFF`, the file size, `WAVE`.
pub const RIFF_HEADER_LEN: usize = 12;

/// Length of a chunk header: four bytes of identifier, four of size.
pub const CHUNK_HEADER_LEN: usize = 8;

/// Where audio is assumed to start in a file without a usable `data` chunk.
pub const FALLBACK_HEADER_LEN: usize = 44;

/// Why a buffer is not a usable WAVE file.
#[derive(Debug, Clone, Copy, PartialEq, Eq, Structural)]
pub enum WavError {
    /// Fewer than twelve bytes.
    TooSmall,
    /// The buffer does not start with `RIFF`, a size and `WAVE`.
    InvalidFormat,
    /// No `data` chunk, and no more than 44 bytes to fall back on.
    NoAudioData,
}

/// Whether the four bytes at `pos` are the given ASCII letters.
pub open spec fn tag_at(buf: Seq<u8>, pos: int, a: u8, b: u8, c: u8, d: u8) -> bool {
    buf[pos] == a && buf[pos + 1] == b && buf[pos + 2] == c && buf[pos + 3] == d
}

/// Whether `buf` starts with `RIFF`, four bytes of size, and `WAVE`.
pub open spec fn has_riff_wave_header(buf: Seq<u8>) -> bool {
    tag_at(buf, 0, 0x52, 0x49, 0x46, 0x46) && tag_at(buf, 8, 0x57, 0x41, 0x56, 0x45)
}

/// The size that the chunk header at `pos` announces: four bytes, least
/// significant first.
pub open spec fn chunk_size_at(buf: Seq<u8>, pos: int) -> int {
    buf[pos + 4] + buf[pos + 5] * 0x100 + buf[pos + 6] * 0x1_0000 + buf[pos + 7] * 0x100_0000
}

/// Start and length of the first `data` chunk found by walking the chunks
/// from `pos`. The walk ends without a result at the end of the buffer or at
/// a chunk that claims more bytes than are left. A chunk of odd size is
/// followed by one byte of padding.
pub open spec fn find_data_chunk(buf: Seq<u8>, pos: int) -> Option<(int, int)>
    decreases buf.len() + 1 - pos,
{
    if pos < 0 || pos + 8 >= buf.len() {
        None
    } else {
        let size = chunk_size_at(buf, pos);
        if pos + 8 + size > buf.len() {
            None
        } else if tag_at(buf, pos, 0x64, 0x61, 0x74, 0x61) {
            Some((pos + 8, size))
        } else {
            find_data_chunk(buf, pos + 8 + size + size % 2)
        }
    }
}

/// Start and length of the audio bytes of a file with a RIFF/WAVE header:
/// the first `data` chunk, else all that follows the first 44 bytes.
pub open spec fn audio_region(buf: Seq<u8>) -> Option<(int, int)> {
    match find_data_chunk(buf, 12) {
        Some(region) => Some(region),
        None => if buf.len() > 44 {
            Some((44, buf.len() - 44))
        } else {
            None
        },
    }
}

/// The signed 16-bit number that two bytes spell, least significant first.
pub open spec fn le_i16(lo: u8, hi: u8) -> i16 {
    if hi >= 128 {
        (hi * 256 + lo - 0x1_0000) as i16
    } else {
        (hi * 256 + lo) as i16
    }
}

/// The samples in a run of bytes: one for each whole pair; an odd last byte
/// is left out.
pub open spec fn samples_of(data: Seq<u8>) -> Seq<i16> {
    Seq::new(data.len() / 2, |i: int| le_i16(data[2 * i], data[2 * i + 1]))
}

/// What reading `buf` as a WAVE file gives: its samples, or the reason why
/// it has none.
pub open spec fn wav_samples(buf: Seq<u8>) -> Result<Seq<i16>, WavError> {
    if buf.len() < 12 {
        Err(WavError::TooSmall)
    } else if !has_riff_wave_header(buf) {
        Err(WavError::InvalidFormat)
    } else {
        match audio_region(buf) {
            Some((start, len)) => Ok(samples_of(buf.subrange(start, start + len))),
            None => Err(WavError::NoAudioData),
        }
    }
}

/// The audio region lies inside the buffer.
pub proof fn lemma_data_chunk_in_bounds(buf: Seq<u8>, pos: int)
    ensures
        match find_data_chunk(buf, pos) {
            Some((start, len)) => pos + 8 <= start && 0 <= len && start + len <= buf.len(),
            None => true,
        },
    decreases buf.len() + 1 - pos,
{
    if !(pos < 0 || pos + 8 >= buf.len()) {
        let size = chunk_size_at(buf, pos);
        if pos + 8 + size <= buf.len() && !tag_at(buf, pos, 0x64, 0x61, 0x74, 0x61) {
            lemma_data_chunk_in_bounds(buf, pos + 8 + size + size % 2);
        }
    }
}

/// Decoded audio: 16-bit mono samples and their rate.
pub struct WavAudio {
    pub samples: Vec<i16>,
    pub sample_rate: u32,
}

fn has_tag(buffer: &[u8], pos: usize, a: u8, b: u8, c: u8, d: u8) -> (yes: bool)
    requires
        pos + 4 <= buffer.len(),
    ensures
        yes == tag_at(buffer@, pos as int, a, b, c, d),
{
    buffer[pos] == a && buffer[pos + 1] == b && buffer[pos + 2] == c && buffer[pos + 3] == d
}

/// Start and length of the first `data` chunk, walking from the end of the
/// RIFF header.
fn locate_data_chunk(buffer: &[u8]) -> (region: Option<(usize, usize)>)
    requires
        buffer.len() >= 12,
    ensures
        match region {
            Some((start, len)) => find_data_chunk(buffer@, 12) == Some((start as int, len as int)),
            None => find_data_chunk(buffer@, 12) is None,
        },
{
    let total: usize = buffer.len();
    let mut pos: usize = RIFF_HEADER_LEN;
    loop
        invariant
            total == buffer.len(),
            12 <= pos,
            find_data_chunk(buffer@, pos as int) == find_data_chunk(buffer@, 12),
        decreases buffer.len() - pos,
    {
        if total < CHUNK_HEADER_LEN || pos >= total - CHUNK_HEADER_LEN {
            return None;
        }
        let size: u64 = buffer[pos + 4] as u64 + buffer[pos + 5] as u64 * 0x100 + buffer[pos
            + 6] as u64 * 0x1_0000 + buffer[pos + 7] as u64 * 0x100_0000;
        let room: usize = total - pos - CHUNK_HEADER_LEN;
        if size > room as u64 {
            return None;
        }
        let chunk_size: usize = size as usize;
        if has_tag(buffer, pos, 0x64, 0x61, 0x74, 0x61) {
            return Some((pos + CHUNK_HEADER_LEN, chunk_size));
        }
        let padding: usize = chunk_size % 2;
        if padding > room - chunk_size {
            // The padding byte would lie past the end: the walk ends here.
            assert(find_data_chunk(buffer@, pos + 8 + chunk_size + padding) is None);
            return None;
        }
        pos = pos + CHUNK_HEADER_LEN + chunk_size + padding;
    }
}

/// Start and length of the audio bytes of a buffer that has a RIFF/WAVE
/// header.
fn locate_audio(buffer: &[u8]) -> (region: Option<(usize, usize)>)
    requires
        buffer.len() >= 12,
    ensures
        match region {
            Some((start, len)) => audio_region(buffer@) == Some((start as int, len as int))
                && start + len <= buffer.len(),
            None => audio_region(buffer@) is None,
        },
{
    match locate_data_chunk(buffer) {
        Some(region) => {
            proof {
                lemma_data_chunk_in_bounds(buffer@, 12);
            }
            Some(region)
        },
        None => {
            if buffer.len() > FALLBACK_HEADER_LEN {
                Some((FALLBACK_HEADER_LEN, buffer.len() - FALLBACK_HEADER_LEN))
            } else {
                None
            }
        },
    }
}

/// The samples in `len` bytes of `buffer` from `start` on.
fn read_samples(buffer: &[u8], start: usize, len: usize) -> (samples: Vec<i16>)
    requires
        start + len <= buffer.len(),
    ensures
        samples@ == samples_of(buffer@.subrange(start as int, start + len)),
{
    let ghost data = buffer@.subrange(start as int, start + len);
    let count: usize = len / 2;
    let mut samples: Vec<i16> = Vec::with_capacity(count);
    let mut i: usize = 0;
    while i < count
        invariant
            i <= count,
            count == len / 2,
            start + len <= buffer.len(),
            data == buffer@.subrange(start as int, start + len),
            samples.len() == i,
            forall|j: int| 0 <= j < i ==> samples[j] == le_i16(data[2 * j], data[2 * j + 1]),
        decreases count - i,
    {
        let at: usize = start + 2 * i;
        let lo: u8 = buffer[at];
        let hi: u8 = buffer[at + 1];
        assert(lo == data[2 * i] && hi == data[2 * i + 1]);
        let wide: i32 = hi as i32 * 256 + lo as i32;
        let sample: i16 = if hi >= 128 {
            (wide - 0x1_0000) as i16
        } else {
            wide as i16
        };
        samples.push(sample);
        i += 1;
    }
    assert(samples@ =~= samples_of(data));
    samples
}

impl WavAudio {
    /// Reads the contents of a WAVE file. The rate is taken to be 8 kHz.
    pub fn from_bytes(buffer: &[u8]) -> (result: Result<WavAudio, WavError>)
        ensures
            match result {
                Ok(audio) => wav_samples(buffer@) == Ok::<Seq<i16>, WavError>(audio.samples@)
                    && audio.sample_rate == 8000,
                Err(e) => wav_samples(buffer@) == Err::<Seq<i16>, WavError>(e),
            },
    {
        if buffer.len() < RIFF_HEADER_LEN {
            return Err(WavError::TooSmall);
        }
        if !has_tag(buffer, 0, 0x52, 0x49, 0x46, 0x46) || !has_tag(
            buffer,
            8,
            0x57,
            0x41,
            0x56,
            0x45,
        ) {
            return Err(WavError::InvalidFormat);
        }
        match locate_audio(buffer) {
            Some((start, len)) => {
                let samples = read_samples(buffer, start, len);
                Ok(WavAudio { samples, sample_rate: 8000 })
            },
            None => Err(WavError::NoAudioData),
        }
    }
}

} // verus!
