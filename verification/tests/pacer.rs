use sentiric_rtp_core::pacer::{Pacer, PacerAction};

const MS: u64 = 1_000_000;

#[test]
fn first_packet_is_due_at_once() {
    let mut pacer = Pacer::new(20 * MS, 1_000);
    assert_eq!(pacer.next_tick(), 1_000);
    assert_eq!(pacer.interval(), 20 * MS);
    assert_eq!(pacer.poll(1_000), PacerAction::Fire);
    assert_eq!(pacer.next_tick(), 1_000 + 20 * MS);
}

#[test]
fn sleeps_for_all_but_two_milliseconds_then_spins() {
    let mut pacer = Pacer::new(20 * MS, 0);
    assert_eq!(pacer.poll(0), PacerAction::Fire);
    assert_eq!(pacer.poll(0), PacerAction::Sleep(18 * MS));
    assert_eq!(pacer.poll(5 * MS), PacerAction::Sleep(13 * MS));
    assert_eq!(pacer.poll(18 * MS - 1), PacerAction::Sleep(1));
    assert_eq!(pacer.poll(18 * MS), PacerAction::Spin);
    assert_eq!(pacer.poll(20 * MS - 1), PacerAction::Spin);
    assert_eq!(pacer.next_tick(), 20 * MS);
    assert_eq!(pacer.poll(20 * MS), PacerAction::Fire);
    assert_eq!(pacer.next_tick(), 40 * MS);
}

#[test]
fn schedule_does_not_drift_with_late_polls() {
    let mut pacer = Pacer::new(20 * MS, 0);
    let mut now = 0;
    for i in 0..50u64 {
        // Each poll comes a little after the tick.
        now = i * 20 * MS + 300_000;
        assert_eq!(pacer.poll(now), PacerAction::Fire);
        assert_eq!(pacer.next_tick(), (i + 1) * 20 * MS);
    }
    assert!(now < 1000 * MS);
    assert_eq!(pacer.next_tick(), 1000 * MS);
}

#[test]
fn a_stall_moves_the_tick_by_one_interval_only() {
    let mut pacer = Pacer::new(20 * MS, 0);
    assert_eq!(pacer.poll(0), PacerAction::Fire);
    // The consumer was away for 70 ms.
    assert_eq!(pacer.poll(70 * MS), PacerAction::Fire);
    assert_eq!(pacer.next_tick(), 40 * MS);
}

#[test]
fn reset_makes_the_next_packet_due_at_once() {
    let mut pacer = Pacer::new(20 * MS, 0);
    assert_eq!(pacer.poll(0), PacerAction::Fire);
    pacer.reset(7 * MS);
    assert_eq!(pacer.next_tick(), 7 * MS);
    assert_eq!(pacer.interval(), 20 * MS);
    assert_eq!(pacer.poll(7 * MS), PacerAction::Fire);
    assert_eq!(pacer.next_tick(), 27 * MS);
}
