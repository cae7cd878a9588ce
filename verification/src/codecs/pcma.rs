//! G.711 A-law (PCMA).

use super::codec_data::{
    alaw_compress, alaw_expand, alaw_magnitude, alaw_segment, lemma_alaw_round_trip_error,
    lemma_alaw_table_is_canonical, lemma_mantissa_bits, ALAW_TO_LINEAR_LUT,
};
use super::{CodecType, Decoder, Encoder};
use vstd::prelude::*;

verus! {

pub struct PcmaEncoder;

pub struct PcmaDecoder;

/// The payload of a run of samples: one A-law octet for each.
pub open spec fn alaw_payload(pcm: Seq<i16>) -> Seq<u8> {
    pcm.map_values(|s: i16| alaw_compress(s))
}

/// The samples of an A-law payload: one table entry for each octet.
pub open spec fn alaw_samples(payload: Seq<u8>) -> Seq<i16> {
    payload.map_values(|b: u8| ALAW_TO_LINEAR_LUT[b as int])
}

impl PcmaEncoder {
    /// Compresses one sample by scaling its magnitude to twelve bits and
    /// searching the segment there.
    pub fn linear_to_alaw(pcm_val: i16) -> (code: u8)
        ensures
            code == alaw_compress(pcm_val),
    {
        let mut pcm: i32 = pcm_val as i32;
        let mask: u8;
        if pcm >= 0 {
            mask = 0xD5;
        } else {
            mask = 0x55;
            pcm = -pcm - 1;
        }
        assert(pcm == alaw_magnitude(pcm_val));
        let magnitude: u16 = pcm as u16;
        let effective: u16 = magnitude >> 3;
        assert(effective == magnitude / 8) by (bit_vector)
            requires
                effective == magnitude >> 3,
        ;

        let segment: u8;
        let shift: u16;
        if effective < 32 {
            segment = 0;
            shift = 1;
        } else if effective < 64 {
            segment = 1;
            shift = 1;
        } else if effective < 128 {
            segment = 2;
            shift = 2;
        } else if effective < 256 {
            segment = 3;
            shift = 3;
        } else if effective < 512 {
            segment = 4;
            shift = 4;
        } else if effective < 1024 {
            segment = 5;
            shift = 5;
        } else if effective < 2048 {
            segment = 6;
            shift = 6;
        } else {
            segment = 7;
            shift = 7;
        }
        assert(segment == alaw_segment(magnitude as int));
        proof {
            lemma_mantissa_bits(effective, shift);
            // Scaling by eight first and by the segment's step afterwards
            // divides by the step on the 16-bit scale.
            assert(effective / 2 == magnitude / 16);
            assert(effective / 4 == magnitude / 32);
            assert(effective / 8 == magnitude / 64);
            assert(effective / 16 == magnitude / 128);
            assert(effective / 32 == magnitude / 256);
            assert(effective / 64 == magnitude / 512);
            assert(effective / 128 == magnitude / 1024);
        }
        let mantissa: u8 = ((effective >> shift) & 0x0F) as u8;
        let result: u8 = (segment << 4) | mantissa;
        proof {
            assert(result == 16 * segment + mantissa && (result ^ 0xD5u8) == ((128 + result) as u8)
                ^ 0x55u8) by (bit_vector)
                requires
                    result == (segment << 4) | mantissa,
                    segment < 8,
                    mantissa < 16,
            ;
        }
        result ^ mask
    }
}

impl Encoder for PcmaEncoder {
    fn get_type(&self) -> (codec: CodecType)
        ensures
            codec == CodecType::PCMA,
    {
        CodecType::PCMA
    }

    fn encode(&mut self, pcm_samples: &[i16]) -> (payload: Vec<u8>)
        ensures
            payload@ == alaw_payload(pcm_samples@),
    {
        let mut payload: Vec<u8> = Vec::with_capacity(pcm_samples.len());
        let mut i: usize = 0;
        while i < pcm_samples.len()
            invariant
                i <= pcm_samples.len(),
                payload.len() == i,
                forall|j: int| 0 <= j < i ==> payload[j] == alaw_compress(#[trigger] pcm_samples[j]),
            decreases pcm_samples.len() - i,
        {
            payload.push(Self::linear_to_alaw(pcm_samples[i]));
            i += 1;
        }
        assert(payload@ =~= alaw_payload(pcm_samples@));
        payload
    }
}

impl Decoder for PcmaDecoder {
    fn get_type(&self) -> (codec: CodecType)
        ensures
            codec == CodecType::PCMA,
    {
        CodecType::PCMA
    }

    fn decode(&mut self, payload: &[u8]) -> (samples: Vec<i16>)
        ensures
            samples@ == alaw_samples(payload@),
    {
        let mut samples: Vec<i16> = Vec::with_capacity(payload.len());
        let mut i: usize = 0;
        while i < payload.len()
            invariant
                i <= payload.len(),
                samples.len() == i,
                forall|j: int| 0 <= j < i ==> samples[j] == ALAW_TO_LINEAR_LUT[#[trigger] payload[j] as int],
            decreases payload.len() - i,
        {
            samples.push(ALAW_TO_LINEAR_LUT[payload[i] as usize]);
            i += 1;
        }
        assert(samples@ =~= alaw_samples(payload@));
        samples
    }
}

/// Decoding an A-law payload yields, octet by octet, the amplitude that G.711
/// assigns to it.
pub proof fn lemma_alaw_samples_are_canonical(payload: Seq<u8>, i: int)
    requires
        0 <= i < payload.len(),
    ensures
        alaw_samples(payload)[i] == alaw_expand(payload[i]),
{
    lemma_alaw_table_is_canonical(payload[i]);
}

/// For every signal, every sample that comes back from encoding and decoding
/// is within 512 of the one that went in. The mean squared error is thus at
/// most 512 squared, and the peak signal-to-noise ratio, 32767 squared over
/// it, is above 4095, or 36 dB.
pub proof fn lemma_alaw_signal_error(pcm: Seq<i16>, i: int)
    requires
        0 <= i < pcm.len(),
    ensures
        -512 <= alaw_samples(alaw_payload(pcm))[i] - pcm[i] <= 512,
{
    lemma_alaw_table_is_canonical(alaw_compress(pcm[i]));
    lemma_alaw_round_trip_error(pcm[i]);
}

} // verus!
