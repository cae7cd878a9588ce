//! The receive-side jitter buffer: it puts packets back in order, holds them
//! for a start-up delay, drops late arrivals, evicts the oldest packet when
//! full, and skips over a gap once enough later packets have piled up.

use crate::rtp::{RtpPacket, RtpPacketView};
use std::collections::BTreeMap;
use std::time::Instant;
use vstd::prelude::*;

verus! {

/// How far behind the expected sequence number a packet may be and still
/// count as late; farther away, the numbers are taken to have wrapped.
pub const LATE_THRESHOLD: u16 = 30000;

/// The largest gap between the expected and the lowest buffered sequence
/// number that is waited out rather than skipped.
pub const MAX_WAITED_GAP: u16 = 5;

/// Whether a packet numbered `seq` comes too late when `expected` is next.
/// Behind by less than the threshold is late; behind by more means the
/// numbers wrapped and the packet is fresh. Ahead by more than the threshold
/// means the packet is from before a wrap, and late.
pub open spec fn arrives_late(seq: u16, expected: u16) -> bool {
    if seq == expected {
        false
    } else if seq < expected {
        expected - seq < 30000
    } else {
        seq - expected > 30000
    }
}

/// The sequence number after `seq`, wrapping at 65535.
pub open spec fn seq_after(seq: u16) -> u16 {
    if seq == 65535 {
        0
    } else {
        (seq + 1) as u16
    }
}

/// How many numbers `seq` is ahead of `expected`, counting through the wrap.
pub open spec fn seq_gap(seq: u16, expected: u16) -> int {
    if seq >= expected {
        seq - expected
    } else {
        seq - expected + 65536
    }
}

/// What a jitter buffer stands for.
pub struct JitterView {
    /// The buffered packets by sequence number.
    pub packets: Map<u16, RtpPacketView>,
    /// The sequence number to deliver next.
    pub expected_seq: u16,
    /// The most packets to hold.
    pub capacity: nat,
    /// How long after the first packet delivery starts, in milliseconds.
    pub delay_ms: u64,
    /// Whether a first packet has been seen since the last reset.
    pub initialized: bool,
}

impl JitterView {
    /// What holds of every buffer between calls: each packet is filed under
    /// its own sequence number, and the buffer holds no more than its
    /// capacity, or one packet where the capacity is zero.
    pub open spec fn wf(self) -> bool {
        &&& self.packets.dom().finite()
        &&& forall|k: u16| #[trigger]
            self.packets.contains_key(k) ==> self.packets[k].header.sequence_number == k
        &&& self.packets.len() <= self.capacity || self.packets.len() <= 1
    }

    /// Whether `k` is the lowest sequence number in the buffer.
    pub open spec fn is_lowest(self, k: u16) -> bool {
        self.packets.contains_key(k) && forall|j: u16| self.packets.contains_key(j) ==> k <= j
    }

    /// The lowest sequence number in a buffer that is not empty.
    pub open spec fn lowest(self) -> u16 {
        choose|k: u16| self.is_lowest(k)
    }

    /// The buffer after a packet has come in.
    pub open spec fn push(self, packet: RtpPacketView) -> JitterView {
        let seq = packet.header.sequence_number;
        let expected = if self.initialized {
            self.expected_seq
        } else {
            seq
        };
        let started = JitterView { expected_seq: expected, initialized: true, ..self };
        if arrives_late(seq, expected) {
            started
        } else if self.packets.len() >= self.capacity && self.packets.len() > 0 {
            let evicted = self.lowest();
            JitterView {
                packets: self.packets.remove(evicted).insert(seq, packet),
                expected_seq: if evicted == expected {
                    seq_after(expected)
                } else {
                    expected
                },
                ..started
            }
        } else {
            JitterView { packets: self.packets.insert(seq, packet), ..started }
        }
    }

    /// Whether the packets between the expected and the lowest buffered one
    /// are given up: the gap is more than five, or the buffer is more than
    /// half full.
    pub open spec fn skips_gap(self) -> bool {
        seq_gap(self.lowest(), self.expected_seq) > 5 || self.packets.len() > self.capacity / 2
    }

    /// The buffer and the packet delivered once the start-up delay is over.
    pub open spec fn pop_ready(self) -> (JitterView, Option<RtpPacketView>) {
        if self.packets.contains_key(self.expected_seq) {
            (
                JitterView {
                    packets: self.packets.remove(self.expected_seq),
                    expected_seq: seq_after(self.expected_seq),
                    ..self
                },
                Some(self.packets[self.expected_seq]),
            )
        } else if self.packets.len() > 0 && self.skips_gap() {
            let lowest = self.lowest();
            (
                JitterView {
                    packets: self.packets.remove(lowest),
                    expected_seq: seq_after(lowest),
                    ..self
                },
                Some(self.packets[lowest]),
            )
        } else {
            (self, None)
        }
    }

    /// The buffer and the packet delivered by a pop that comes `elapsed_ms`
    /// after the first packet: nothing before the first packet or during the
    /// start-up delay.
    pub open spec fn pop(self, elapsed_ms: u128) -> (JitterView, Option<RtpPacketView>) {
        if !self.initialized || elapsed_ms < self.delay_ms {
            (self, None)
        } else {
            self.pop_ready()
        }
    }

    /// The buffer after a reset: empty, and waiting for a first packet.
    pub open spec fn reset(self) -> JitterView {
        JitterView { packets: Map::empty(), initialized: false, ..self }
    }
}

/// The view of a packet that may be absent.
pub open spec fn packet_view(packet: Option<RtpPacket>) -> Option<RtpPacketView> {
    match packet {
        Some(p) => Some(p@),
        None => None,
    }
}

/// `std::time::Instant`, a reading of the monotonic clock. It is kept and
/// handed back to the clock; nothing here looks inside.
#[verifier::external_type_specification]
#[verifier::external_body]
pub struct ExInstant(std::time::Instant);

/// Calls `Instant::now`. The reading depends on when it is taken, so nothing
/// is claimed of it.
#[verifier::external_body]
fn now() -> Instant {
    Instant::now()
}

/// Calls `Instant::elapsed` and gives the whole milliseconds of the result.
/// The reading depends on when it is taken, so nothing is claimed of it.
#[verifier::external_body]
fn elapsed_millis(since: &Instant) -> u128 {
    since.elapsed().as_millis()
}

/// Calls `BTreeMap::first_key_value`, which returns the entry with the
/// minimum key, or nothing for an empty map, and gives the key.
#[verifier::external_body]
fn lowest_key(packets: &BTreeMap<u16, RtpPacket>) -> (lowest: Option<u16>)
    ensures
        match lowest {
            Some(k) => packets@.contains_key(k) && forall|j: u16|
                packets@.contains_key(j) ==> k <= j,
            None => packets@.len() == 0,
        },
{
    packets.first_key_value().map(|entry| *entry.0)
}

pub struct JitterBuffer {
    buffer: BTreeMap<u16, RtpPacket>,
    expected_seq: u16,
    max_capacity: usize,
    buffering_delay_ms: u64,
    first_packet_time: Option<Instant>,
    initialized: bool,
}

impl View for JitterBuffer {
    type V = JitterView;

    closed spec fn view(&self) -> JitterView {
        JitterView {
            packets: Map::new(|k: u16| self.buffer@.contains_key(k), |k: u16| self.buffer@[k]@),
            expected_seq: self.expected_seq,
            capacity: self.max_capacity as nat,
            delay_ms: self.buffering_delay_ms,
            initialized: self.initialized,
        }
    }
}

impl JitterBuffer {
    /// Whether the clock of the start-up delay runs: a reading of the
    /// monotonic clock is kept.
    pub closed spec fn clock_started(&self) -> bool {
        self.first_packet_time is Some
    }

    /// The reading of the monotonic clock that the start-up delay is counted
    /// from, if the clock runs. It is what `pop` hands to the clock to learn
    /// how much time has passed.
    pub closed spec fn started_at(&self) -> Option<Instant> {
        self.first_packet_time
    }

    /// What holds of every buffer between calls: the view is well formed,
    /// and the clock of the start-up delay runs exactly when a first packet
    /// has been seen. A buffer that waits for its first packet keeps no
    /// reading, so the reading it has afterwards was taken by that push.
    pub open spec fn wf(&self) -> bool {
        &&& self@.wf()
        &&& self@.initialized <==> self.clock_started()
    }

    /// An empty buffer for at most `capacity` packets that starts delivery
    /// `delay_ms` milliseconds after its first packet.
    pub fn new(capacity: usize, delay_ms: u64) -> (jb: JitterBuffer)
        ensures
            jb.wf(),
            !jb.clock_started(),
            jb@ == (JitterView {
                packets: Map::empty(),
                expected_seq: 0,
                capacity: capacity as nat,
                delay_ms,
                initialized: false,
            }),
    {
        let jb = JitterBuffer {
            buffer: BTreeMap::new(),
            expected_seq: 0,
            max_capacity: capacity,
            buffering_delay_ms: delay_ms,
            first_packet_time: None,
            initialized: false,
        };
        assert(jb@.packets =~= Map::empty());
        jb
    }

    /// Number of packets in the buffer.
    pub fn len(&self) -> (n: usize)
        ensures
            n == self@.packets.len(),
    {
        proof {
            self.lemma_view_dom();
        }
        self.buffer.len()
    }

    /// Takes a packet in. The first packet after construction or reset sets
    /// the expected sequence number and starts the clock of the start-up
    /// delay with a reading taken in this call; every later packet, late or
    /// not, leaves that reading as it is. A late packet is dropped. In a full
    /// buffer the packet with the lowest number makes room, and if that was
    /// the expected one, the next is expected.
    pub fn push(&mut self, packet: RtpPacket)
        requires
            old(self).wf(),
        ensures
            final(self).wf(),
            final(self)@ == old(self)@.push(packet@),
            final(self).clock_started(),
            old(self)@.initialized ==> final(self).started_at() == old(self).started_at(),
    {
        let seq = packet.header.sequence_number;
        proof {
            self.lemma_view_dom();
        }
        if !self.initialized {
            self.expected_seq = seq;
            self.first_packet_time = Some(now());
            self.initialized = true;
        }
        if self.is_late(seq) {
            assert(self@.packets =~= old(self)@.packets);
            return ;
        }
        if self.buffer.len() >= self.max_capacity {
            match lowest_key(&self.buffer) {
                Some(first_key) => {
                    proof {
                        old(self)@.lemma_lowest_is(first_key);
                    }
                    self.buffer.remove(&first_key);
                    if first_key == self.expected_seq {
                        self.expected_seq = self.expected_seq.wrapping_add(1);
                    }
                },
                None => {},
            }
        }
        self.buffer.insert(seq, packet);
        assert(self@.packets =~= old(self)@.push(packet@).packets);
    }

    /// Hands out the packet that is due now: nothing before the first packet
    /// or during the start-up delay. The delay is measured on the monotonic
    /// clock from the reading that the first push took, `started_at`, which
    /// is handed to the clock and left as it is. The outcome is that of
    /// `pop_at` for the time the clock gave.
    pub fn pop(&mut self) -> (packet: Option<RtpPacket>)
        requires
            old(self).wf(),
        ensures
            final(self).wf(),
            final(self).started_at() == old(self).started_at(),
            exists|elapsed_ms: u128|
                (final(self)@, packet_view(packet)) == old(self)@.pop(elapsed_ms),
    {
        let elapsed_ms: u128 = match &self.first_packet_time {
            Some(start) => elapsed_millis(start),
            // No first packet yet: whatever the time, nothing is due.
            None => 0,
        };
        self.pop_at(elapsed_ms)
    }

    /// Hands out the packet that is due `elapsed_ms` milliseconds after the
    /// first packet came in. During the start-up delay that is nothing. After
    /// it, the expected packet if it is there; else, if the gap to the lowest
    /// buffered packet is given up, that packet; else nothing.
    pub fn pop_at(&mut self, elapsed_ms: u128) -> (packet: Option<RtpPacket>)
        requires
            old(self).wf(),
        ensures
            final(self).wf(),
            final(self).started_at() == old(self).started_at(),
            (final(self)@, packet_view(packet)) == old(self)@.pop(elapsed_ms),
    {
        proof {
            self.lemma_view_dom();
        }
        if !self.initialized {
            return None;
        }
        if elapsed_ms < self.buffering_delay_ms as u128 {
            return None;
        }
        let expected = self.expected_seq;
        match self.buffer.remove(&expected) {
            Some(packet) => {
                self.expected_seq = expected.wrapping_add(1);
                assert(self@.packets =~= old(self)@.packets.remove(expected));
                return Some(packet);
            },
            None => {},
        }
        assert(self@.packets =~= old(self)@.packets);
        match lowest_key(&self.buffer) {
            Some(next_available_seq) => {
                proof {
                    old(self)@.lemma_lowest_is(next_available_seq);
                }
                let gap = next_available_seq.wrapping_sub(expected);
                if gap > MAX_WAITED_GAP || self.buffer.len() > self.max_capacity / 2 {
                    let packet = self.buffer.remove(&next_available_seq);
                    self.expected_seq = next_available_seq.wrapping_add(1);
                    assert(self@.packets =~= old(self)@.packets.remove(next_available_seq));
                    return packet;
                }
            },
            None => {},
        }
        None
    }

    /// Whether a packet numbered `seq` would be dropped as late.
    pub fn is_late(&self, seq: u16) -> (late: bool)
        ensures
            late == arrives_late(seq, self@.expected_seq),
    {
        if seq == self.expected_seq {
            return false;
        }
        if seq < self.expected_seq {
            self.expected_seq - seq < LATE_THRESHOLD
        } else {
            seq - self.expected_seq > LATE_THRESHOLD
        }
    }

    /// Empties the buffer, stops the clock of the start-up delay and makes
    /// the buffer wait for a first packet again, which starts the delay anew.
    pub fn reset(&mut self)
        ensures
            final(self).wf(),
            !final(self).clock_started(),
            final(self)@ == old(self)@.reset(),
    {
        self.buffer.clear();
        self.initialized = false;
        self.first_packet_time = None;
        assert(self@.packets =~= Map::empty());
    }

    /// The view holds a packet for exactly the keys of the map.
    proof fn lemma_view_dom(&self)
        ensures
            self@.packets.dom() == self.buffer@.dom(),
            self@.packets.len() == self.buffer@.len(),
            self@.packets.dom().finite(),
    {
        assert(self@.packets.dom() =~= self.buffer@.dom());
    }
}

impl JitterView {
    /// The lowest sequence number is the one and only key that is in the
    /// buffer and below all others.
    pub proof fn lemma_lowest_is(self, k: u16)
        requires
            self.is_lowest(k),
        ensures
            self.lowest() == k,
    {
        let chosen = self.lowest();
        assert(self.is_lowest(chosen));
    }

    /// Below any sequence number in the buffer there is a lowest one.
    proof fn lemma_lowest_below(self, j: u16)
        requires
            self.packets.contains_key(j),
        ensures
            exists|k: u16| self.is_lowest(k),
        decreases j,
    {
        if exists|i: u16| i < j && self.packets.contains_key(i) {
            let i = choose|i: u16| i < j && self.packets.contains_key(i);
            self.lemma_lowest_below(i);
        } else {
            assert(self.is_lowest(j));
        }
    }

    /// A buffer that is not empty has a lowest sequence number.
    pub proof fn lemma_lowest_exists(self)
        requires
            self.packets.dom().finite(),
            self.packets.len() > 0,
        ensures
            self.is_lowest(self.lowest()),
    {
        let some = self.packets.dom().choose();
        assert(self.packets.contains_key(some));
        self.lemma_lowest_below(some);
    }

    /// Taking a packet in keeps the buffer well formed. In particular it
    /// never holds more than its capacity, if that is at least one.
    pub proof fn lemma_push_keeps_wf(self, packet: RtpPacketView)
        requires
            self.wf(),
        ensures
            self.push(packet).wf(),
            self.capacity >= 1 ==> self.push(packet).packets.len() <= self.capacity,
    {
        let seq = packet.header.sequence_number;
        if self.packets.len() >= self.capacity && self.packets.len() > 0 {
            self.lemma_lowest_exists();
        }
    }

    /// Handing a packet out keeps the buffer well formed. The packet handed
    /// out leaves the buffer, the one after it is expected next, and from
    /// then on a packet of its number would be dropped as late: nothing is
    /// delivered twice.
    pub proof fn lemma_pop_delivers_once(self, elapsed_ms: u128)
        requires
            self.wf(),
        ensures
            self.pop(elapsed_ms).0.wf(),
            match self.pop(elapsed_ms).1 {
                Some(packet) => {
                    let seq = packet.header.sequence_number;
                    let after = self.pop(elapsed_ms).0;
                    &&& self.initialized
                    &&& elapsed_ms >= self.delay_ms
                    &&& self.packets.contains_key(seq)
                    &&& self.packets[seq] == packet
                    &&& after.packets == self.packets.remove(seq)
                    &&& after.expected_seq == seq_after(seq)
                    &&& arrives_late(seq, after.expected_seq)
                },
                None => self.pop(elapsed_ms).0 == self,
            },
    {
        if self.initialized && elapsed_ms >= self.delay_ms {
            if !self.packets.contains_key(self.expected_seq) && self.packets.len() > 0 {
                self.lemma_lowest_exists();
            }
        }
    }

    /// The expected packet is handed out as soon as the start-up delay is
    /// over, whatever else is in the buffer.
    pub proof fn lemma_expected_packet_is_delivered(self, elapsed_ms: u128)
        requires
            self.initialized,
            elapsed_ms >= self.delay_ms,
            self.packets.contains_key(self.expected_seq),
        ensures
            self.pop(elapsed_ms).1 == Some(self.packets[self.expected_seq]),
    {
    }
}

} // verus!
