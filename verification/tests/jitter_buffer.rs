use sentiric_rtp_core::jitter_buffer::JitterBuffer;
use sentiric_rtp_core::rtp::{RtpHeader, RtpPacket};
use std::time::{Duration, Instant};

fn create_dummy_packet(seq: u16) -> RtpPacket {
    RtpPacket { header: RtpHeader::new(0, seq, 0, 1234), payload: vec![] }
}

/// Lets at least `ms` milliseconds pass on the monotonic clock.
fn let_pass(ms: u64) {
    let start = Instant::now();
    while start.elapsed() < Duration::from_millis(ms) {
        std::hint::spin_loop();
    }
}

fn pop_seq(jb: &mut JitterBuffer, elapsed_ms: u128) -> Option<u16> {
    jb.pop_at(elapsed_ms).map(|p| p.header.sequence_number)
}

#[test]
fn test_jitter_buffer_reordering() {
    let mut jb = JitterBuffer::new(10, 50);

    jb.push(create_dummy_packet(1));
    jb.push(create_dummy_packet(3));
    jb.push(create_dummy_packet(2));

    assert!(jb.pop().is_none());

    let_pass(60);

    let p1 = jb.pop().expect("Packet 1 should be available");
    assert_eq!(p1.header.sequence_number, 1);

    let p2 = jb.pop().expect("Packet 2 should be available");
    assert_eq!(p2.header.sequence_number, 2);

    let p3 = jb.pop().expect("Packet 3 should be available");
    assert_eq!(p3.header.sequence_number, 3);

    assert!(jb.pop().is_none());
}

#[test]
fn test_loss_skip() {
    let mut jb = JitterBuffer::new(10, 10);

    jb.push(create_dummy_packet(100));

    let_pass(15);
    let _ = jb.pop();

    jb.push(create_dummy_packet(106));

    for i in 107..115 {
        jb.push(create_dummy_packet(i));
    }

    let p = jb.pop().expect("Should skip to next available");
    assert_eq!(p.header.sequence_number, 106);
}

#[test]
fn nothing_is_delivered_before_the_first_packet() {
    let mut jb = JitterBuffer::new(10, 0);
    assert!(jb.pop().is_none());
    assert!(jb.pop_at(1_000_000).is_none());
    assert_eq!(jb.len(), 0);
}

#[test]
fn nothing_is_delivered_during_the_startup_delay() {
    let mut jb = JitterBuffer::new(10, 50);
    jb.push(create_dummy_packet(1));
    assert_eq!(pop_seq(&mut jb, 0), None);
    assert_eq!(pop_seq(&mut jb, 49), None);
    assert_eq!(jb.len(), 1);
    assert_eq!(pop_seq(&mut jb, 50), Some(1));
    assert_eq!(jb.len(), 0);
}

#[test]
fn reordered_packets_come_out_in_order() {
    let mut jb = JitterBuffer::new(10, 50);
    jb.push(create_dummy_packet(1));
    jb.push(create_dummy_packet(3));
    jb.push(create_dummy_packet(2));
    assert_eq!(pop_seq(&mut jb, 60), Some(1));
    assert_eq!(pop_seq(&mut jb, 60), Some(2));
    assert_eq!(pop_seq(&mut jb, 60), Some(3));
    assert_eq!(pop_seq(&mut jb, 60), None);
}

#[test]
fn small_gap_is_waited_out_until_the_buffer_is_half_full() {
    let mut jb = JitterBuffer::new(10, 0);
    jb.push(create_dummy_packet(100));
    assert_eq!(pop_seq(&mut jb, 0), Some(100));
    // 101 to 105 are missing: a gap of five is waited out.
    jb.push(create_dummy_packet(106));
    assert_eq!(pop_seq(&mut jb, 0), None);
    for seq in 107..111 {
        jb.push(create_dummy_packet(seq));
        assert_eq!(pop_seq(&mut jb, 0), None);
    }
    // Five packets are half of ten; the sixth tips it.
    jb.push(create_dummy_packet(111));
    assert_eq!(jb.len(), 6);
    assert_eq!(pop_seq(&mut jb, 0), Some(106));
    assert_eq!(pop_seq(&mut jb, 0), Some(107));
}

#[test]
fn large_gap_is_skipped_at_once() {
    let mut jb = JitterBuffer::new(100, 0);
    jb.push(create_dummy_packet(100));
    assert_eq!(pop_seq(&mut jb, 0), Some(100));
    jb.push(create_dummy_packet(107));
    // 107 - 101 = 6 > 5.
    assert_eq!(pop_seq(&mut jb, 0), Some(107));
    assert_eq!(pop_seq(&mut jb, 0), None);
    jb.push(create_dummy_packet(108));
    assert_eq!(pop_seq(&mut jb, 0), Some(108));
}

#[test]
fn late_packet_is_dropped() {
    let mut jb = JitterBuffer::new(10, 0);
    jb.push(create_dummy_packet(10));
    // 65530 is far ahead of 10 numerically: it is from before the wrap.
    jb.push(create_dummy_packet(65530));
    assert_eq!(jb.len(), 1);
    assert!(jb.is_late(65530));
    assert_eq!(pop_seq(&mut jb, 0), Some(10));
    assert_eq!(pop_seq(&mut jb, 0), None);
    // Expected is now 11: 10 is late, 11 and 12 are not.
    assert!(jb.is_late(10));
    assert!(!jb.is_late(11));
    assert!(!jb.is_late(12));
    jb.push(create_dummy_packet(10));
    assert_eq!(jb.len(), 0);
}

#[test]
fn late_threshold_is_thirty_thousand() {
    let mut jb = JitterBuffer::new(10, 0);
    jb.push(create_dummy_packet(40000));
    // Behind by less than the threshold: late.
    assert!(jb.is_late(39999));
    assert!(jb.is_late(10001));
    // Behind by the threshold or more: taken as wrapped, fresh.
    assert!(!jb.is_late(10000));
    assert!(!jb.is_late(0));
    // Ahead.
    assert!(!jb.is_late(65535));

    let mut low = JitterBuffer::new(10, 0);
    low.push(create_dummy_packet(10));
    assert!(!low.is_late(30010));
    assert!(low.is_late(30011));
    assert!(low.is_late(9));
}

#[test]
fn full_buffer_evicts_the_lowest_packet() {
    let mut jb = JitterBuffer::new(3, 0);
    jb.push(create_dummy_packet(5));
    jb.push(create_dummy_packet(6));
    jb.push(create_dummy_packet(7));
    assert_eq!(jb.len(), 3);
    // 5 is expected and lowest: it is evicted and 6 becomes expected.
    jb.push(create_dummy_packet(8));
    assert_eq!(jb.len(), 3);
    assert!(jb.is_late(5));
    assert_eq!(pop_seq(&mut jb, 0), Some(6));
    assert_eq!(pop_seq(&mut jb, 0), Some(7));
    assert_eq!(pop_seq(&mut jb, 0), Some(8));
    assert_eq!(pop_seq(&mut jb, 0), None);
}

#[test]
fn eviction_of_another_packet_keeps_the_expectation() {
    let mut jb = JitterBuffer::new(2, 0);
    jb.push(create_dummy_packet(10));
    assert_eq!(pop_seq(&mut jb, 0), Some(10));
    jb.push(create_dummy_packet(13));
    jb.push(create_dummy_packet(14));
    // Full; 13 is lowest but 11 is expected.
    jb.push(create_dummy_packet(12));
    assert_eq!(jb.len(), 2);
    assert!(!jb.is_late(11));
    assert_eq!(pop_seq(&mut jb, 0), Some(12));
}

#[test]
fn sequence_numbers_wrap() {
    let mut jb = JitterBuffer::new(10, 0);
    jb.push(create_dummy_packet(65535));
    jb.push(create_dummy_packet(0));
    assert_eq!(pop_seq(&mut jb, 0), Some(65535));
    assert_eq!(pop_seq(&mut jb, 0), Some(0));
    assert!(!jb.is_late(1));
    assert!(jb.is_late(65535));
}

#[test]
fn duplicate_replaces_the_buffered_packet() {
    let mut jb = JitterBuffer::new(10, 0);
    jb.push(create_dummy_packet(1));
    jb.push(RtpPacket { header: RtpHeader::new(0, 1, 0, 1234), payload: vec![9] });
    assert_eq!(jb.len(), 1);
    assert_eq!(jb.pop_at(0).unwrap().payload, vec![9]);
}

#[test]
fn reset_empties_the_buffer_and_starts_over() {
    let mut jb = JitterBuffer::new(10, 0);
    jb.push(create_dummy_packet(500));
    jb.push(create_dummy_packet(501));
    jb.reset();
    assert_eq!(jb.len(), 0);
    assert_eq!(pop_seq(&mut jb, 0), None);
    // Any number starts the sequence again, even one that was late before.
    jb.push(create_dummy_packet(400));
    assert_eq!(pop_seq(&mut jb, 0), Some(400));
}

#[test]
fn zero_capacity_holds_one_packet() {
    let mut jb = JitterBuffer::new(0, 0);
    jb.push(create_dummy_packet(1));
    jb.push(create_dummy_packet(2));
    assert_eq!(jb.len(), 1);
}

#[test]
fn late_packet_does_not_restart_the_startup_delay() {
    let mut jb = JitterBuffer::new(10, 40);
    jb.push(create_dummy_packet(10));
    let_pass(45);
    // A late packet and a fresh one come in after the delay is over.
    jb.push(create_dummy_packet(9));
    jb.push(create_dummy_packet(11));
    assert_eq!(jb.pop().map(|p| p.header.sequence_number), Some(10));
    assert_eq!(jb.pop().map(|p| p.header.sequence_number), Some(11));
}

#[test]
fn reset_restarts_the_startup_delay() {
    let mut jb = JitterBuffer::new(10, 40);
    jb.push(create_dummy_packet(10));
    let_pass(45);
    jb.reset();
    assert!(jb.pop().is_none());
    // The first packet after the reset starts the delay anew.
    jb.push(create_dummy_packet(20));
    assert!(jb.pop().is_none());
    let_pass(45);
    assert_eq!(jb.pop().map(|p| p.header.sequence_number), Some(20));
}

#[test]
fn without_delay_the_first_packet_is_due_at_once() {
    let mut jb = JitterBuffer::new(10, 0);
    jb.push(create_dummy_packet(7));
    assert_eq!(jb.pop().map(|p| p.header.sequence_number), Some(7));
    assert!(jb.pop().is_none());
}
