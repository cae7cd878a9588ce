//! Codec identities, the encoder and decoder capabilities, and the factory
//! that hands out a codec for a negotiated payload type.

use vstd::prelude::*;

pub mod codec_data;
pub mod g711;
pub mod g729;
pub mod pcma;
pub mod pcmu;

pub use pcma::{alaw_payload, alaw_samples, PcmaDecoder, PcmaEncoder};
pub use pcmu::{ulaw_payload, ulaw_samples, PcmuDecoder, PcmuEncoder};

verus! {

/// The closed set of payload formats this library can carry.
#[derive(Debug, Clone, Copy, PartialEq, Eq, Structural)]
pub enum CodecType {
    G729,
    PCMU,
    PCMA,
    /// RFC 4733 telephone events (DTMF).
    TelephoneEvent,
}

impl CodecType {
    /// The RTP payload type that identifies this format on the wire.
    pub open spec fn payload_type(self) -> u8 {
        match self {
            CodecType::G729 => 18,
            CodecType::PCMU => 0,
            CodecType::PCMA => 8,
            CodecType::TelephoneEvent => 101,
        }
    }

    /// Samples in one frame of `ptime_ms` milliseconds at this format's
    /// clock: `rate * ptime / 1000`.
    pub open spec fn frame_samples(self, ptime_ms: u8) -> int {
        (8000 * ptime_ms) / 1000
    }

    /// Payload bytes in one frame of `ptime_ms` milliseconds: one per sample
    /// for G.711, one per millisecond for G.729, four for a telephone event.
    pub open spec fn frame_bytes(self, ptime_ms: u8) -> int {
        match self {
            CodecType::G729 => ptime_ms as int,
            CodecType::PCMU | CodecType::PCMA => self.frame_samples(ptime_ms),
            CodecType::TelephoneEvent => 4,
        }
    }

    /// The nominal sampling rate in hertz.
    pub fn sample_rate(&self) -> (rate: u32)
        ensures
            rate == 8000,
    {
        match self {
            CodecType::PCMU | CodecType::PCMA | CodecType::G729 | CodecType::TelephoneEvent => 8000,
        }
    }

    /// The format that an RTP payload type names, if it is one of this set.
    pub fn from_u8(id: u8) -> (codec: Option<CodecType>)
        ensures
            match codec {
                Some(c) => c.payload_type() == id,
                None => forall|c: CodecType| c.payload_type() != id,
            },
    {
        match id {
            18 => Some(CodecType::G729),
            0 => Some(CodecType::PCMU),
            8 => Some(CodecType::PCMA),
            101 => Some(CodecType::TelephoneEvent),
            _ => None,
        }
    }

    /// The RTP payload type of this format.
    pub fn to_u8(&self) -> (id: u8)
        ensures
            id == self.payload_type(),
    {
        match self {
            CodecType::G729 => 18,
            CodecType::PCMU => 0,
            CodecType::PCMA => 8,
            CodecType::TelephoneEvent => 101,
        }
    }

    /// Samples in one frame of `ptime_ms` milliseconds, 160 for 20 ms.
    pub fn samples_per_frame(&self, ptime_ms: u8) -> (samples: usize)
        ensures
            samples == self.frame_samples(ptime_ms),
            samples == 8 * ptime_ms,
    {
        let rate = self.sample_rate();
        assert((8000 * ptime_ms) / 1000 == 8 * ptime_ms) by (nonlinear_arith);
        (rate as usize * ptime_ms as usize) / 1000
    }

    /// Payload bytes in one frame of `ptime_ms` milliseconds.
    pub fn payload_size_bytes(&self, ptime_ms: u8) -> (bytes: usize)
        ensures
            bytes == self.frame_bytes(ptime_ms),
    {
        match self {
            CodecType::G729 => ptime_ms as usize,
            CodecType::PCMU | CodecType::PCMA => self.samples_per_frame(ptime_ms),
            CodecType::TelephoneEvent => 4,
        }
    }
}

/// A payload type names at most one format.
pub proof fn lemma_payload_type_identifies(a: CodecType, b: CodecType)
    ensures
        a.payload_type() == b.payload_type() ==> a == b,
{
}

/// Turns linear 16-bit PCM into the payload of one codec. What the payload
/// is, each codec says for itself.
pub trait Encoder: Send {
    fn encode(&mut self, pcm_samples: &[i16]) -> Vec<u8>;

    fn get_type(&self) -> CodecType;
}

/// Turns the payload of one codec back into linear 16-bit PCM. What the
/// samples are, each codec says for itself.
pub trait Decoder: Send {
    fn decode(&mut self, payload: &[u8]) -> Vec<i16>;

    fn get_type(&self) -> CodecType;
}

/// Encoder for formats that carry no audio: telephone events are produced
/// by the signalling layer, so nothing is ever encoded here.
pub struct NoOpEncoder;

impl Encoder for NoOpEncoder {
    fn encode(&mut self, _pcm: &[i16]) -> (payload: Vec<u8>)
        ensures
            payload@ == Seq::<u8>::empty(),
    {
        Vec::new()
    }

    fn get_type(&self) -> (codec: CodecType)
        ensures
            codec == CodecType::TelephoneEvent,
    {
        CodecType::TelephoneEvent
    }
}

/// Decoder for formats that carry no audio.
pub struct NoOpDecoder;

impl Decoder for NoOpDecoder {
    fn decode(&mut self, _payload: &[u8]) -> (samples: Vec<i16>)
        ensures
            samples@ == Seq::<i16>::empty(),
    {
        Vec::new()
    }

    fn get_type(&self) -> (codec: CodecType)
        ensures
            codec == CodecType::TelephoneEvent,
    {
        CodecType::TelephoneEvent
    }
}

/// An encoder of any format that needs no native codec.
pub enum AnyEncoder {
    Pcmu(PcmuEncoder),
    Pcma(PcmaEncoder),
    TelephoneEvent(NoOpEncoder),
}

impl AnyEncoder {
    /// The payload format this encoder produces.
    pub open spec fn codec(&self) -> CodecType {
        match self {
            AnyEncoder::Pcmu(_) => CodecType::PCMU,
            AnyEncoder::Pcma(_) => CodecType::PCMA,
            AnyEncoder::TelephoneEvent(_) => CodecType::TelephoneEvent,
        }
    }

    /// The payload of `pcm`: one octet per sample under either G.711 law,
    /// nothing for telephone events.
    pub open spec fn encoded(&self, pcm: Seq<i16>) -> Seq<u8> {
        match self {
            AnyEncoder::Pcmu(_) => ulaw_payload(pcm),
            AnyEncoder::Pcma(_) => alaw_payload(pcm),
            AnyEncoder::TelephoneEvent(_) => Seq::empty(),
        }
    }
}

impl Encoder for AnyEncoder {
    fn encode(&mut self, pcm_samples: &[i16]) -> (payload: Vec<u8>)
        ensures
            payload@ == old(self).encoded(pcm_samples@),
            final(self).codec() == old(self).codec(),
    {
        match self {
            AnyEncoder::Pcmu(e) => e.encode(pcm_samples),
            AnyEncoder::Pcma(e) => e.encode(pcm_samples),
            AnyEncoder::TelephoneEvent(e) => e.encode(pcm_samples),
        }
    }

    fn get_type(&self) -> (codec: CodecType)
        ensures
            codec == self.codec(),
    {
        match self {
            AnyEncoder::Pcmu(e) => e.get_type(),
            AnyEncoder::Pcma(e) => e.get_type(),
            AnyEncoder::TelephoneEvent(e) => e.get_type(),
        }
    }
}

/// A decoder of any format that needs no native codec.
pub enum AnyDecoder {
    Pcmu(PcmuDecoder),
    Pcma(PcmaDecoder),
    TelephoneEvent(NoOpDecoder),
}

impl AnyDecoder {
    /// The payload format this decoder accepts.
    pub open spec fn codec(&self) -> CodecType {
        match self {
            AnyDecoder::Pcmu(_) => CodecType::PCMU,
            AnyDecoder::Pcma(_) => CodecType::PCMA,
            AnyDecoder::TelephoneEvent(_) => CodecType::TelephoneEvent,
        }
    }

    /// The samples of `payload`: one per octet under either G.711 law,
    /// nothing for telephone events.
    pub open spec fn decoded(&self, payload: Seq<u8>) -> Seq<i16> {
        match self {
            AnyDecoder::Pcmu(_) => ulaw_samples(payload),
            AnyDecoder::Pcma(_) => alaw_samples(payload),
            AnyDecoder::TelephoneEvent(_) => Seq::empty(),
        }
    }
}

impl Decoder for AnyDecoder {
    fn decode(&mut self, payload: &[u8]) -> (samples: Vec<i16>)
        ensures
            samples@ == old(self).decoded(payload@),
            final(self).codec() == old(self).codec(),
    {
        match self {
            AnyDecoder::Pcmu(d) => d.decode(payload),
            AnyDecoder::Pcma(d) => d.decode(payload),
            AnyDecoder::TelephoneEvent(d) => d.decode(payload),
        }
    }

    fn get_type(&self) -> (codec: CodecType)
        ensures
            codec == self.codec(),
    {
        match self {
            AnyDecoder::Pcmu(d) => d.get_type(),
            AnyDecoder::Pcma(d) => d.get_type(),
            AnyDecoder::TelephoneEvent(d) => d.get_type(),
        }
    }
}

/// The one place where codecs are made.
pub struct CodecFactory;

impl CodecFactory {
    /// Whether this library can make a codec for `codec` by itself. G.729
    /// needs a native codec, which the embedding application links and wraps.
    pub open spec fn supports(codec: CodecType) -> bool {
        codec != CodecType::G729
    }

    /// Whether this library can make a codec for `codec` by itself.
    pub fn is_supported(codec: CodecType) -> (yes: bool)
        ensures
            yes == Self::supports(codec),
    {
        match codec {
            CodecType::G729 => false,
            _ => true,
        }
    }

    /// A fresh encoder for `codec`.
    pub fn create_encoder(codec: CodecType) -> (encoder: AnyEncoder)
        requires
            Self::supports(codec),
        ensures
            encoder.codec() == codec,
    {
        match codec {
            CodecType::PCMU => AnyEncoder::Pcmu(PcmuEncoder {  }),
            CodecType::PCMA => AnyEncoder::Pcma(PcmaEncoder {  }),
            _ => AnyEncoder::TelephoneEvent(NoOpEncoder {  }),
        }
    }

    /// A fresh decoder for `codec`.
    pub fn create_decoder(codec: CodecType) -> (decoder: AnyDecoder)
        requires
            Self::supports(codec),
        ensures
            decoder.codec() == codec,
    {
        match codec {
            CodecType::PCMU => AnyDecoder::Pcmu(PcmuDecoder {  }),
            CodecType::PCMA => AnyDecoder::Pcma(PcmaDecoder {  }),
            _ => AnyDecoder::TelephoneEvent(NoOpDecoder {  }),
        }
    }
}

} // verus!
