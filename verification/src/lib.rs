//! Media-plane core for RTP audio sessions: codecs, RTP framing, transmit
//! pacing, the receive-side jitter buffer and symmetric-RTP latching.
//!
//! The library owns no socket, clock thread or native codec. It turns samples
//! into payloads and back, bytes into packets and back, and clock readings
//! into decisions; the embedding application moves the bytes and the time.

pub mod codecs;
pub mod config;
pub mod dsp;
pub mod jitter_buffer;
pub mod net_utils;
pub mod pacer;
pub mod rtp;
pub mod session;
pub mod wav;

pub use codecs::g711::G711;
pub use codecs::{
    AnyDecoder, AnyEncoder, CodecFactory, CodecType, Decoder, Encoder, NoOpDecoder, NoOpEncoder,
    PcmaDecoder, PcmaEncoder, PcmuDecoder, PcmuEncoder,
};
pub use config::{AudioProfile, CodecConfig};
pub use jitter_buffer::JitterBuffer;
pub use pacer::Pacer;
pub use rtp::{RtcpPacket, RtpHeader, RtpPacket};
pub use session::RtpEndpoint;
pub use wav::WavAudio;
