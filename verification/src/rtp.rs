//! RTP and RTCP framing: the fixed twelve-byte RTP header, packets made of a
//! header and a payload, and the eight-byte RTCP sender report that keeps a
//! NAT binding open.

use vstd::prelude::*;

verus! {

/// Length of the fixed RTP header on the wire.
pub const RTP_HEADER_LEN: usize = 12;

/// The two bytes of `v`, most significant first.
pub open spec fn be16(v: u16) -> Seq<u8> {
    seq![(v / 256) as u8, (v % 256) as u8]
}

/// The four bytes of `v`, most significant first.
pub open spec fn be32(v: u32) -> Seq<u8> {
    seq![
        (v / 0x100_0000) as u8,
        ((v / 0x1_0000) % 256) as u8,
        ((v / 0x100) % 256) as u8,
        (v % 256) as u8,
    ]
}

/// The number that two bytes spell, most significant first.
pub open spec fn from_be16(hi: u8, lo: u8) -> u16 {
    (hi * 256 + lo) as u16
}

/// The number that four bytes spell, most significant first.
pub open spec fn from_be32(b0: u8, b1: u8, b2: u8, b3: u8) -> u32 {
    (b0 * 0x100_0000 + b1 * 0x1_0000 + b2 * 0x100 + b3) as u32
}

/// One flag as a number.
pub open spec fn bit(flag: bool) -> int {
    if flag {
        1
    } else {
        0
    }
}

fn push_be16(bytes: &mut Vec<u8>, v: u16)
    ensures
        final(bytes)@ == old(bytes)@ + be16(v),
{
    bytes.push((v / 256) as u8);
    bytes.push((v % 256) as u8);
    assert(bytes@ =~= old(bytes)@ + be16(v));
}

fn push_be32(bytes: &mut Vec<u8>, v: u32)
    ensures
        final(bytes)@ == old(bytes)@ + be32(v),
{
    bytes.push((v / 0x100_0000) as u8);
    bytes.push(((v / 0x1_0000) % 256) as u8);
    bytes.push(((v / 0x100) % 256) as u8);
    bytes.push((v % 256) as u8);
    assert(bytes@ =~= old(bytes)@ + be32(v));
}

/// A framing failure: the datagram cannot hold what it should.
#[derive(Debug, Clone, Copy, PartialEq, Eq, Structural)]
pub enum FramingError {
    /// Fewer than twelve bytes, so not even a header.
    HeaderTooShort,
}

#[derive(Debug, Clone, Copy, PartialEq, Eq, Structural)]
pub struct RtpHeader {
    pub version: u8,
    pub padding: bool,
    pub extension: bool,
    pub csrc_count: u8,
    pub marker: bool,
    pub payload_type: u8,
    pub sequence_number: u16,
    pub timestamp: u32,
    pub ssrc: u32,
}

impl RtpHeader {
    /// Whether every field fits the bits it has on the wire: two for the
    /// version, four for the CSRC count, seven for the payload type.
    pub open spec fn fits_wire(&self) -> bool {
        &&& self.version < 4
        &&& self.csrc_count < 16
        &&& self.payload_type < 128
    }

    /// First byte on the wire: version, padding, extension, CSRC count.
    /// Bits of a field that do not fit are dropped.
    pub open spec fn first_byte(&self) -> u8 {
        ((self.version % 4) * 64 + bit(self.padding) * 32 + bit(self.extension) * 16
            + self.csrc_count % 16) as u8
    }

    /// Second byte on the wire: marker and payload type.
    pub open spec fn second_byte(&self) -> u8 {
        (bit(self.marker) * 128 + self.payload_type % 128) as u8
    }

    /// The header as it stands on the wire: twelve bytes, network byte order.
    pub open spec fn wire(&self) -> Seq<u8> {
        seq![self.first_byte(), self.second_byte()] + be16(self.sequence_number) + be32(
            self.timestamp,
        ) + be32(self.ssrc)
    }

    /// The header that twelve bytes spell.
    pub open spec fn parsed(bytes: Seq<u8>) -> RtpHeader {
        RtpHeader {
            version: bytes[0] / 64,
            padding: (bytes[0] / 32) % 2 == 1,
            extension: (bytes[0] / 16) % 2 == 1,
            csrc_count: bytes[0] % 16,
            marker: bytes[1] / 128 == 1,
            payload_type: bytes[1] % 128,
            sequence_number: from_be16(bytes[2], bytes[3]),
            timestamp: from_be32(bytes[4], bytes[5], bytes[6], bytes[7]),
            ssrc: from_be32(bytes[8], bytes[9], bytes[10], bytes[11]),
        }
    }

    /// A version-2 header without padding, extension, CSRC list or marker.
    pub fn new(payload_type: u8, seq: u16, ts: u32, ssrc: u32) -> (header: RtpHeader)
        ensures
            header == (RtpHeader {
                version: 2,
                padding: false,
                extension: false,
                csrc_count: 0,
                marker: false,
                payload_type,
                sequence_number: seq,
                timestamp: ts,
                ssrc,
            }),
    {
        RtpHeader {
            version: 2,
            padding: false,
            extension: false,
            csrc_count: 0,
            marker: false,
            payload_type,
            sequence_number: seq,
            timestamp: ts,
            ssrc,
        }
    }

    /// The header of the packet that follows `self` in its stream, when one
    /// packet carries `samples_per_frame` samples: same source, the next
    /// sequence number, the timestamp that many samples on; both wrap.
    pub open spec fn following(&self, samples_per_frame: u32) -> RtpHeader {
        RtpHeader {
            sequence_number: if self.sequence_number == 0xFFFF {
                0
            } else {
                (self.sequence_number + 1) as u16
            },
            timestamp: ((self.timestamp + samples_per_frame) % 0x1_0000_0000) as u32,
            ..*self
        }
    }

    /// The header of the next packet of the stream.
    pub fn next(&self, samples_per_frame: u32) -> (header: RtpHeader)
        ensures
            header == self.following(samples_per_frame),
    {
        let sum: u64 = self.timestamp as u64 + samples_per_frame as u64;
        let timestamp: u32 = if sum >= 0x1_0000_0000 {
            (sum - 0x1_0000_0000) as u32
        } else {
            sum as u32
        };
        RtpHeader {
            version: self.version,
            padding: self.padding,
            extension: self.extension,
            csrc_count: self.csrc_count,
            marker: self.marker,
            payload_type: self.payload_type,
            sequence_number: if self.sequence_number == 0xFFFF {
                0
            } else {
                self.sequence_number + 1
            },
            timestamp,
            ssrc: self.ssrc,
        }
    }

    /// Serialises the header.
    pub fn to_bytes(&self) -> (bytes: Vec<u8>)
        ensures
            bytes@ == self.wire(),
            bytes.len() == 12,
    {
        let mut bytes: Vec<u8> = Vec::with_capacity(RTP_HEADER_LEN);
        let p: u8 = if self.padding {
            1
        } else {
            0
        };
        let x: u8 = if self.extension {
            1
        } else {
            0
        };
        let m: u8 = if self.marker {
            1
        } else {
            0
        };
        let version = self.version;
        let csrc_count = self.csrc_count;
        let payload_type = self.payload_type;

        let b0: u8 = (version << 6) | (p << 5) | (x << 4) | (csrc_count & 0x0F);
        assert(b0 == (version % 4) * 64 + p * 32 + x * 16 + csrc_count % 16) by (bit_vector)
            requires
                b0 == (version << 6) | (p << 5) | (x << 4) | (csrc_count & 0x0F),
                p <= 1,
                x <= 1,
        ;
        bytes.push(b0);

        let b1: u8 = (m << 7) | (payload_type & 0x7F);
        assert(b1 == m * 128 + payload_type % 128) by (bit_vector)
            requires
                b1 == (m << 7) | (payload_type & 0x7F),
                m <= 1,
        ;
        bytes.push(b1);

        push_be16(&mut bytes, self.sequence_number);
        push_be32(&mut bytes, self.timestamp);
        push_be32(&mut bytes, self.ssrc);
        assert(bytes@ =~= self.wire());
        bytes
    }

    /// Reads the header at the start of a datagram. Fails exactly when the
    /// datagram has fewer than twelve bytes.
    pub fn from_bytes(bytes: &[u8]) -> (result: Result<RtpHeader, FramingError>)
        ensures
            bytes.len() < 12 ==> result == Err::<RtpHeader, FramingError>(
                FramingError::HeaderTooShort,
            ),
            bytes.len() >= 12 ==> result == Ok::<RtpHeader, FramingError>(
                RtpHeader::parsed(bytes@),
            ),
    {
        if bytes.len() < RTP_HEADER_LEN {
            return Err(FramingError::HeaderTooShort);
        }
        let b0: u8 = bytes[0];
        let b1: u8 = bytes[1];
        let version: u8 = b0 >> 6;
        let padding: bool = (b0 & 0x20) != 0;
        let extension: bool = (b0 & 0x10) != 0;
        let csrc_count: u8 = b0 & 0x0F;
        let marker: bool = (b1 & 0x80) != 0;
        let payload_type: u8 = b1 & 0x7F;
        assert(b0 >> 6 == b0 / 64 && ((b0 & 0x20) != 0 <==> (b0 / 32) % 2 == 1) && ((b0 & 0x10) != 0
            <==> (b0 / 16) % 2 == 1) && b0 & 0x0F == b0 % 16) by (bit_vector);
        assert(((b1 & 0x80) != 0 <==> b1 / 128 == 1) && b1 & 0x7F == b1 % 128) by (bit_vector);
        let sequence_number: u16 = (bytes[2] as u16) * 256 + bytes[3] as u16;
        let timestamp: u32 = (bytes[4] as u32) * 0x100_0000 + (bytes[5] as u32) * 0x1_0000 + (
        bytes[6] as u32) * 0x100 + bytes[7] as u32;
        let ssrc: u32 = (bytes[8] as u32) * 0x100_0000 + (bytes[9] as u32) * 0x1_0000 + (
        bytes[10] as u32) * 0x100 + bytes[11] as u32;
        Ok(
            RtpHeader {
                version,
                padding,
                extension,
                csrc_count,
                marker,
                payload_type,
                sequence_number,
                timestamp,
                ssrc,
            },
        )
    }
}

/// A header and the payload it announces.
pub struct RtpPacket {
    pub header: RtpHeader,
    pub payload: Vec<u8>,
}

/// What an `RtpPacket` stands for: its header and the bytes of its payload.
pub struct RtpPacketView {
    pub header: RtpHeader,
    pub payload: Seq<u8>,
}

impl View for RtpPacket {
    type V = RtpPacketView;

    open spec fn view(&self) -> RtpPacketView {
        RtpPacketView { header: self.header, payload: self.payload@ }
    }
}

impl RtpPacketView {
    /// The packet as it stands on the wire: header, then payload.
    pub open spec fn wire(&self) -> Seq<u8> {
        self.header.wire() + self.payload
    }

    /// The packet that a datagram of at least twelve bytes spells.
    pub open spec fn parsed(bytes: Seq<u8>) -> RtpPacketView {
        RtpPacketView {
            header: RtpHeader::parsed(bytes),
            payload: bytes.subrange(12, bytes.len() as int),
        }
    }
}

impl RtpPacket {
    /// Serialises the packet.
    pub fn to_bytes(&self) -> (bytes: Vec<u8>)
        ensures
            bytes@ == self@.wire(),
    {
        let mut out = self.header.to_bytes();
        let mut i: usize = 0;
        while i < self.payload.len()
            invariant
                i <= self.payload.len(),
                out@ == self.header.wire() + self.payload@.subrange(0, i as int),
            decreases self.payload.len() - i,
        {
            out.push(self.payload[i]);
            i += 1;
            assert(self.payload@.subrange(0, i as int) =~= self.payload@.subrange(0, i - 1).push(
                self.payload@[i - 1],
            ));
        }
        assert(self.payload@.subrange(0, i as int) =~= self.payload@);
        out
    }

    /// Reads a datagram: the header, and everything after it as payload.
    /// Fails exactly when the datagram has fewer than twelve bytes.
    pub fn from_bytes(bytes: &[u8]) -> (result: Result<RtpPacket, FramingError>)
        ensures
            bytes.len() < 12 ==> result is Err && result->Err_0 == FramingError::HeaderTooShort,
            bytes.len() >= 12 ==> result is Ok && result->Ok_0@ == RtpPacketView::parsed(bytes@),
    {
        match RtpHeader::from_bytes(bytes) {
            Err(e) => Err(e),
            Ok(header) => {
                let mut payload: Vec<u8> = Vec::with_capacity(bytes.len() - RTP_HEADER_LEN);
                let mut i: usize = RTP_HEADER_LEN;
                while i < bytes.len()
                    invariant
                        12 <= i <= bytes.len(),
                        payload@ == bytes@.subrange(12, i as int),
                    decreases bytes.len() - i,
                {
                    payload.push(bytes[i]);
                    i += 1;
                    assert(bytes@.subrange(12, i as int) =~= bytes@.subrange(12, i - 1).push(
                        bytes@[i - 1],
                    ));
                }
                Ok(RtpPacket { header, payload })
            },
        }
    }
}

/// The fixed part of an RTCP packet; here always a sender report without
/// report blocks.
pub struct RtcpPacket {
    pub version: u8,
    pub padding: bool,
    pub count: u8,
    /// 200 for a sender report, 201 for a receiver report.
    pub packet_type: u8,
    /// Length of the packet in 32-bit words, minus one.
    pub length: u16,
    pub ssrc: u32,
}

impl RtcpPacket {
    /// First byte on the wire: version, padding, report count.
    pub open spec fn first_byte(&self) -> u8 {
        ((self.version % 4) * 64 + bit(self.padding) * 32 + self.count % 32) as u8
    }

    /// The packet as it stands on the wire: eight bytes.
    pub open spec fn wire(&self) -> Seq<u8> {
        seq![self.first_byte(), self.packet_type] + be16(self.length) + be32(self.ssrc)
    }

    /// A sender report for `ssrc`: version 2, no report blocks, two words.
    pub fn new_sender_report(ssrc: u32) -> (packet: RtcpPacket)
        ensures
            packet.version == 2,
            !packet.padding,
            packet.count == 0,
            packet.packet_type == 200,
            packet.length == 1,
            packet.ssrc == ssrc,
            packet.wire() == seq![0x80u8, 200u8, 0u8, 1u8] + be32(ssrc),
    {
        let packet = RtcpPacket {
            version: 2,
            padding: false,
            count: 0,
            packet_type: 200,
            length: 1,
            ssrc,
        };
        assert(packet.wire() =~= seq![0x80u8, 200u8, 0u8, 1u8] + be32(ssrc));
        packet
    }

    /// Serialises the packet.
    pub fn to_bytes(&self) -> (bytes: Vec<u8>)
        ensures
            bytes@ == self.wire(),
            bytes.len() == 8,
    {
        let mut bytes: Vec<u8> = Vec::new();
        let p: u8 = if self.padding {
            1
        } else {
            0
        };
        let version = self.version;
        let count = self.count;
        let b0: u8 = (version << 6) | (p << 5) | (count & 0x1F);
        assert(b0 == (version % 4) * 64 + p * 32 + count % 32) by (bit_vector)
            requires
                b0 == (version << 6) | (p << 5) | (count & 0x1F),
                p <= 1,
        ;
        bytes.push(b0);
        bytes.push(self.packet_type);
        push_be16(&mut bytes, self.length);
        push_be32(&mut bytes, self.ssrc);
        assert(bytes@ =~= self.wire());
        bytes
    }
}

/// The big-endian bytes of a number spell that number.
proof fn lemma_be16_of_value(v: u16)
    ensures
        from_be16((v / 256) as u8, (v % 256) as u8) == v,
{
}

/// The big-endian bytes of a number spell that number.
proof fn lemma_be32_of_value(v: u32)
    ensures
        from_be32(
            (v / 0x100_0000) as u8,
            ((v / 0x1_0000) % 256) as u8,
            ((v / 0x100) % 256) as u8,
            (v % 256) as u8,
        ) == v,
{
    let b0: u8 = (v / 0x100_0000) as u8;
    let b1: u8 = ((v / 0x1_0000) % 256) as u8;
    let b2: u8 = ((v / 0x100) % 256) as u8;
    let b3: u8 = (v % 256) as u8;
    assert(b0 * 0x100_0000 + b1 * 0x1_0000 + b2 * 0x100 + b3 == v) by (bit_vector)
        requires
            b0 == v / 0x100_0000,
            b1 == (v / 0x1_0000) % 256,
            b2 == (v / 0x100) % 256,
            b3 == v % 256,
    ;
}

/// Parsing what was serialised gives the header back, as long as its fields
/// fit the bits they have on the wire.
pub proof fn lemma_header_round_trip(header: RtpHeader)
    requires
        header.fits_wire(),
    ensures
        RtpHeader::parsed(header.wire()) == header,
{
    let w = header.wire();
    let parsed = RtpHeader::parsed(w);
    let b0 = header.first_byte();
    let b1 = header.second_byte();
    assert(w[0] == b0 && w[1] == b1);
    assert(w[2] == (header.sequence_number / 256) as u8);
    assert(w[3] == (header.sequence_number % 256) as u8);
    assert(w[4] == (header.timestamp / 0x100_0000) as u8);
    assert(w[5] == ((header.timestamp / 0x1_0000) % 256) as u8);
    assert(w[6] == ((header.timestamp / 0x100) % 256) as u8);
    assert(w[7] == (header.timestamp % 256) as u8);
    assert(w[8] == (header.ssrc / 0x100_0000) as u8);
    assert(w[9] == ((header.ssrc / 0x1_0000) % 256) as u8);
    assert(w[10] == ((header.ssrc / 0x100) % 256) as u8);
    assert(w[11] == (header.ssrc % 256) as u8);
    lemma_be16_of_value(header.sequence_number);
    lemma_be32_of_value(header.timestamp);
    lemma_be32_of_value(header.ssrc);
    assert(parsed.version == header.version && parsed.padding == header.padding
        && parsed.extension == header.extension && parsed.csrc_count == header.csrc_count) by {
        let v = header.version;
        let c = header.csrc_count;
        let p: u8 = if header.padding { 1 } else { 0 };
        let x: u8 = if header.extension { 1 } else { 0 };
        assert(b0 == v * 64 + p * 32 + x * 16 + c);
        assert(b0 / 64 == v && (b0 / 32) % 2 == p && (b0 / 16) % 2 == x && b0 % 16 == c)
            by (bit_vector)
            requires
                b0 == v * 64 + p * 32 + x * 16 + c,
                v < 4,
                p <= 1,
                x <= 1,
                c < 16,
        ;
    }
    assert(parsed.marker == header.marker && parsed.payload_type == header.payload_type) by {
        let t = header.payload_type;
        let m: u8 = if header.marker { 1 } else { 0 };
        assert(b1 == m * 128 + t);
        assert(b1 / 128 == m && b1 % 128 == t) by (bit_vector)
            requires
                b1 == m * 128 + t,
                m <= 1,
                t < 128,
        ;
    }
}

/// Two bytes spell a number whose big-endian bytes they are.
proof fn lemma_be16_of_bytes(hi: u8, lo: u8)
    ensures
        be16(from_be16(hi, lo)) == seq![hi, lo],
{
    let v = hi * 256 + lo;
    assert(v / 256 == hi && v % 256 == lo);
    assert(be16(from_be16(hi, lo)) =~= seq![hi, lo]);
}

/// Four bytes spell a number whose big-endian bytes they are.
proof fn lemma_be32_of_bytes(b0: u8, b1: u8, b2: u8, b3: u8)
    ensures
        be32(from_be32(b0, b1, b2, b3)) == seq![b0, b1, b2, b3],
{
    let v: u32 = from_be32(b0, b1, b2, b3);
    assert(v / 0x100_0000 == b0 && (v / 0x1_0000) % 256 == b1 && (v / 0x100) % 256 == b2 && v % 256
        == b3) by (bit_vector)
        requires
            v == b0 * 0x100_0000 + b1 * 0x1_0000 + b2 * 0x100 + b3,
    ;
    assert(be32(from_be32(b0, b1, b2, b3)) =~= seq![b0, b1, b2, b3]);
}

/// Serialising what was parsed gives the first twelve bytes back: the header
/// covers every bit of them.
pub proof fn lemma_header_wire_round_trip(bytes: Seq<u8>)
    requires
        bytes.len() >= 12,
    ensures
        RtpHeader::parsed(bytes).wire() == bytes.subrange(0, 12),
        RtpHeader::parsed(bytes).fits_wire(),
{
    let h = RtpHeader::parsed(bytes);
    let b0 = bytes[0];
    let b1 = bytes[1];
    assert(h.first_byte() == b0) by {
        assert(((b0 / 64) % 4) * 64 + (if (b0 / 32) % 2 == 1 { 32int } else { 0int }) + (if (b0
            / 16) % 2 == 1 { 16int } else { 0int }) + (b0 % 16) % 16 == b0) by (bit_vector);
    }
    assert(h.second_byte() == b1) by {
        assert((if b1 / 128 == 1 { 128int } else { 0int }) + (b1 % 128) % 128 == b1)
            by (bit_vector);
    }
    lemma_be16_of_bytes(bytes[2], bytes[3]);
    lemma_be32_of_bytes(bytes[4], bytes[5], bytes[6], bytes[7]);
    lemma_be32_of_bytes(bytes[8], bytes[9], bytes[10], bytes[11]);
    assert(h.wire() =~= bytes.subrange(0, 12));
}

/// A packet survives the wire: parsing its serialisation gives it back.
pub proof fn lemma_packet_round_trip(packet: RtpPacketView)
    requires
        packet.header.fits_wire(),
    ensures
        RtpPacketView::parsed(packet.wire()) == packet,
{
    lemma_header_round_trip(packet.header);
    let w = packet.wire();
    assert(w.subrange(12, w.len() as int) =~= packet.payload);
    assert(w.subrange(0, 12) =~= packet.header.wire());
    assert(RtpHeader::parsed(w) == RtpHeader::parsed(packet.header.wire()));
}

} // verus!
