//! G.711 in one codec object that speaks either law, chosen at construction.

use super::codec_data::{
    alaw_compress, alaw_expand, alaw_magnitude, alaw_segment, lemma_alaw_table_is_canonical,
    lemma_mantissa_bits, lemma_pack_fields, lemma_ulaw_table_is_canonical, ulaw_compress,
    ulaw_expand, ulaw_magnitude, ALAW_TOGGLE, ALAW_TO_LINEAR_LUT, ULAW_TO_LINEAR_LUT,
};
use super::pcma::{alaw_payload, alaw_samples};
use super::pcmu::{ulaw_payload, ulaw_samples};
use super::{CodecType, Decoder, Encoder};
use vstd::prelude::*;

verus! {

pub struct G711 {
    codec_type: CodecType,
}

impl G711 {
    /// The payload format this codec was made for.
    pub closed spec fn codec_type(&self) -> CodecType {
        self.codec_type
    }

    /// The payload of `pcm`: one octet per sample under either law, nothing
    /// for any other format.
    pub open spec fn encoded(&self, pcm: Seq<i16>) -> Seq<u8> {
        match self.codec_type() {
            CodecType::PCMA => alaw_payload(pcm),
            CodecType::PCMU => ulaw_payload(pcm),
            _ => Seq::empty(),
        }
    }

    /// The samples of `payload`: one per octet under either law, nothing for
    /// any other format.
    pub open spec fn decoded(&self, payload: Seq<u8>) -> Seq<i16> {
        match self.codec_type() {
            CodecType::PCMA => alaw_samples(payload),
            CodecType::PCMU => ulaw_samples(payload),
            _ => Seq::empty(),
        }
    }

    pub fn new(codec_type: CodecType) -> (g: G711)
        ensures
            g.codec_type() == codec_type,
    {
        G711 { codec_type }
    }

    /// The payload format this codec was made for.
    pub fn get_type(&self) -> (codec: CodecType)
        ensures
            codec == self.codec_type(),
    {
        self.codec_type
    }

    /// Compresses one sample by searching the segment on the 16-bit scale.
    pub fn linear_to_alaw(pcm_val: i16) -> (code: u8)
        ensures
            code == alaw_compress(pcm_val),
    {
        let sign: u8 = if pcm_val < 0 {
            0x00
        } else {
            0x80
        };
        let abs: u16 = if pcm_val < 0 {
            (!pcm_val) as u16
        } else {
            pcm_val as u16
        };
        assert(abs == alaw_magnitude(pcm_val)) by {
            assert(pcm_val < 0 ==> !pcm_val == -pcm_val - 1) by (bit_vector);
        }

        let exponent: u8;
        let shift: u16;
        if abs < 256 {
            exponent = 0;
            shift = 4;
        } else if abs < 512 {
            exponent = 1;
            shift = 4;
        } else if abs < 1024 {
            exponent = 2;
            shift = 5;
        } else if abs < 2048 {
            exponent = 3;
            shift = 6;
        } else if abs < 4096 {
            exponent = 4;
            shift = 7;
        } else if abs < 8192 {
            exponent = 5;
            shift = 8;
        } else if abs < 16384 {
            exponent = 6;
            shift = 9;
        } else {
            exponent = 7;
            shift = 10;
        }
        proof {
            lemma_mantissa_bits(abs, shift);
        }
        let mantissa: u8 = ((abs >> shift) & 0x0F) as u8;
        let out: u8 = sign | (exponent << 4) | mantissa;
        proof {
            lemma_pack_fields(sign, exponent, mantissa);
        }
        out ^ ALAW_TOGGLE
    }

    /// Expands one A-law octet by table lookup.
    pub fn alaw_to_linear(alaw_val: u8) -> (pcm: i16)
        ensures
            pcm == ALAW_TO_LINEAR_LUT[alaw_val as int],
            pcm == alaw_expand(alaw_val),
    {
        proof {
            lemma_alaw_table_is_canonical(alaw_val);
        }
        ALAW_TO_LINEAR_LUT[alaw_val as usize]
    }

    /// Compresses one sample, working on the unsigned magnitude.
    pub fn linear_to_ulaw(pcm_val: i16) -> (code: u8)
        ensures
            code == ulaw_compress(pcm_val),
    {
        let sign: u8 = if pcm_val < 0 {
            0x80
        } else {
            0x00
        };
        let mut abs: u16 = if pcm_val == i16::MIN {
            i16::MAX as u16
        } else if pcm_val < 0 {
            (-pcm_val) as u16
        } else {
            pcm_val as u16
        };
        if abs > 32635 {
            abs = 32635;
        }
        abs = abs + 0x84;
        assert(abs == ulaw_magnitude(pcm_val));

        let exponent: u8 = if abs < 0x100 {
            0
        } else if abs < 0x200 {
            1
        } else if abs < 0x400 {
            2
        } else if abs < 0x800 {
            3
        } else if abs < 0x1000 {
            4
        } else if abs < 0x2000 {
            5
        } else if abs < 0x4000 {
            6
        } else {
            7
        };
        assert(exponent == alaw_segment(abs as int));
        let shift: u16 = (exponent + 3) as u16;
        proof {
            lemma_mantissa_bits(abs, shift);
        }
        let mantissa: u8 = ((abs >> shift) & 0x0F) as u8;
        let out: u8 = sign | (exponent << 4) | mantissa;
        proof {
            lemma_pack_fields(sign, exponent, mantissa);
            assert(!out == 255 - out) by (bit_vector);
        }
        !out
    }

    /// Expands one mu-law octet by table lookup.
    pub fn ulaw_to_linear(ulaw_val: u8) -> (pcm: i16)
        ensures
            pcm == ULAW_TO_LINEAR_LUT[ulaw_val as int],
            pcm == ulaw_expand(ulaw_val),
    {
        proof {
            lemma_ulaw_table_is_canonical(ulaw_val);
        }
        ULAW_TO_LINEAR_LUT[ulaw_val as usize]
    }
}

impl Encoder for G711 {
    fn get_type(&self) -> (codec: CodecType)
        ensures
            codec == self.codec_type(),
    {
        self.codec_type
    }

    fn encode(&mut self, pcm_samples: &[i16]) -> (payload: Vec<u8>)
        ensures
            payload@ == old(self).encoded(pcm_samples@),
            final(self).codec_type() == old(self).codec_type(),
    {
        let mut payload: Vec<u8> = Vec::new();
        match self.codec_type {
            CodecType::PCMA => {
                let mut i: usize = 0;
                while i < pcm_samples.len()
                    invariant
                        i <= pcm_samples.len(),
                        payload.len() == i,
                        forall|j: int|
                            0 <= j < i ==> payload[j] == alaw_compress(#[trigger] pcm_samples[j]),
                    decreases pcm_samples.len() - i,
                {
                    payload.push(Self::linear_to_alaw(pcm_samples[i]));
                    i += 1;
                }
                assert(payload@ =~= alaw_payload(pcm_samples@));
            },
            CodecType::PCMU => {
                let mut i: usize = 0;
                while i < pcm_samples.len()
                    invariant
                        i <= pcm_samples.len(),
                        payload.len() == i,
                        forall|j: int|
                            0 <= j < i ==> payload[j] == ulaw_compress(#[trigger] pcm_samples[j]),
                    decreases pcm_samples.len() - i,
                {
                    payload.push(Self::linear_to_ulaw(pcm_samples[i]));
                    i += 1;
                }
                assert(payload@ =~= ulaw_payload(pcm_samples@));
            },
            _ => {},
        }
        payload
    }
}

impl Decoder for G711 {
    fn get_type(&self) -> (codec: CodecType)
        ensures
            codec == self.codec_type(),
    {
        self.codec_type
    }

    fn decode(&mut self, payload: &[u8]) -> (samples: Vec<i16>)
        ensures
            samples@ == old(self).decoded(payload@),
            final(self).codec_type() == old(self).codec_type(),
    {
        let mut samples: Vec<i16> = Vec::new();
        match self.codec_type {
            CodecType::PCMA => {
                let mut i: usize = 0;
                while i < payload.len()
                    invariant
                        i <= payload.len(),
                        samples.len() == i,
                        forall|j: int|
                            0 <= j < i ==> samples[j] == ALAW_TO_LINEAR_LUT[#[trigger] payload[j] as int],
                    decreases payload.len() - i,
                {
                    samples.push(Self::alaw_to_linear(payload[i]));
                    i += 1;
                }
                assert(samples@ =~= alaw_samples(payload@));
            },
            CodecType::PCMU => {
                let mut i: usize = 0;
                while i < payload.len()
                    invariant
                        i <= payload.len(),
                        samples.len() == i,
                        forall|j: int|
                            0 <= j < i ==> samples[j] == ULAW_TO_LINEAR_LUT[#[trigger] payload[j] as int],
                    decreases payload.len() - i,
                {
                    samples.push(Self::ulaw_to_linear(payload[i]));
                    i += 1;
                }
                assert(samples@ =~= ulaw_samples(payload@));
            },
            _ => {},
        }
        samples
    }
}

} // verus!
