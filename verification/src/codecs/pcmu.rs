//! G.711 mu-law (PCMU).

use super::codec_data::{
    alaw_segment, lemma_mantissa_bits, lemma_pack_fields, lemma_ulaw_round_trip_error,
    lemma_ulaw_table_is_canonical, ulaw_compress, ulaw_expand, ulaw_magnitude, ULAW_BIAS,
    ULAW_CLIP, ULAW_TO_LINEAR_LUT,
};
use super::{CodecType, Decoder, Encoder};
use vstd::prelude::*;

verus! {

pub struct PcmuEncoder;

pub struct PcmuDecoder;

/// The payload of a run of samples: one mu-law octet for each.
pub open spec fn ulaw_payload(pcm: Seq<i16>) -> Seq<u8> {
    pcm.map_values(|s: i16| ulaw_compress(s))
}

/// The samples of a mu-law payload: one table entry for each octet.
pub open spec fn ulaw_samples(payload: Seq<u8>) -> Seq<i16> {
    payload.map_values(|b: u8| ULAW_TO_LINEAR_LUT[b as int])
}

impl PcmuEncoder {
    /// Compresses one sample, working on the widened magnitude.
    pub fn linear_to_ulaw(pcm_val: i16) -> (code: u8)
        ensures
            code == ulaw_compress(pcm_val),
    {
        let mut pcm: i32 = pcm_val as i32;
        let sign: u8 = if pcm < 0 {
            if pcm == i16::MIN as i32 {
                pcm = i16::MAX as i32;
            } else {
                pcm = -pcm;
            }
            0x80
        } else {
            0x00
        };
        if pcm > ULAW_CLIP {
            pcm = ULAW_CLIP;
        }
        pcm += ULAW_BIAS;
        assert(pcm == ulaw_magnitude(pcm_val));

        let exponent: u8 = if pcm >= 16384 {
            7
        } else if pcm >= 8192 {
            6
        } else if pcm >= 4096 {
            5
        } else if pcm >= 2048 {
            4
        } else if pcm >= 1024 {
            3
        } else if pcm >= 512 {
            2
        } else if pcm >= 256 {
            1
        } else {
            0
        };
        assert(exponent == alaw_segment(pcm as int));

        let magnitude: u16 = pcm as u16;
        let shift: u16 = (exponent + 3) as u16;
        proof {
            lemma_mantissa_bits(magnitude, shift);
        }
        let mantissa: u8 = ((magnitude >> shift) & 0x0F) as u8;
        let val: u8 = sign | (exponent << 4) | mantissa;
        proof {
            lemma_pack_fields(sign, exponent, mantissa);
            assert(!val == 255 - val) by (bit_vector);
        }
        !val
    }
}

impl Encoder for PcmuEncoder {
    fn get_type(&self) -> (codec: CodecType)
        ensures
            codec == CodecType::PCMU,
    {
        CodecType::PCMU
    }

    fn encode(&mut self, pcm_samples: &[i16]) -> (payload: Vec<u8>)
        ensures
            payload@ == ulaw_payload(pcm_samples@),
    {
        let mut payload: Vec<u8> = Vec::with_capacity(pcm_samples.len());
        let mut i: usize = 0;
        while i < pcm_samples.len()
            invariant
                i <= pcm_samples.len(),
                payload.len() == i,
                forall|j: int| 0 <= j < i ==> payload[j] == ulaw_compress(#[trigger] pcm_samples[j]),
            decreases pcm_samples.len() - i,
        {
            payload.push(Self::linear_to_ulaw(pcm_samples[i]));
            i += 1;
        }
        assert(payload@ =~= ulaw_payload(pcm_samples@));
        payload
    }
}

impl Decoder for PcmuDecoder {
    fn get_type(&self) -> (codec: CodecType)
        ensures
            codec == CodecType::PCMU,
    {
        CodecType::PCMU
    }

    fn decode(&mut self, payload: &[u8]) -> (samples: Vec<i16>)
        ensures
            samples@ == ulaw_samples(payload@),
    {
        let mut samples: Vec<i16> = Vec::with_capacity(payload.len());
        let mut i: usize = 0;
        while i < payload.len()
            invariant
                i <= payload.len(),
                samples.len() == i,
                forall|j: int| 0 <= j < i ==> samples[j] == ULAW_TO_LINEAR_LUT[#[trigger] payload[j] as int],
            decreases payload.len() - i,
        {
            samples.push(ULAW_TO_LINEAR_LUT[payload[i] as usize]);
            i += 1;
        }
        assert(samples@ =~= ulaw_samples(payload@));
        samples
    }
}

/// Decoding a mu-law payload yields, octet by octet, the amplitude that G.711
/// assigns to it.
pub proof fn lemma_ulaw_samples_are_canonical(payload: Seq<u8>, i: int)
    requires
        0 <= i < payload.len(),
    ensures
        ulaw_samples(payload)[i] == ulaw_expand(payload[i]),
{
    lemma_ulaw_table_is_canonical(payload[i]);
}

/// For every signal that stays within the clipping level of 32635, every
/// sample that comes back from encoding and decoding is within 512 of the one
/// that went in. The mean squared error is thus at most 512 squared, and the
/// peak signal-to-noise ratio, 32767 squared over it, is above 4095, or
/// 36 dB.
pub proof fn lemma_ulaw_signal_error(pcm: Seq<i16>, i: int)
    requires
        0 <= i < pcm.len(),
        -32635 <= pcm[i] <= 32635,
    ensures
        -512 <= ulaw_samples(ulaw_payload(pcm))[i] - pcm[i] <= 512,
{
    lemma_ulaw_table_is_canonical(ulaw_compress(pcm[i]));
    lemma_ulaw_round_trip_error(pcm[i]);
}

} // verus!
