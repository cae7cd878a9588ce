//! The transmit pacer's schedule. One packet is due every interval. The
//! pacer decides, from a reading of a monotonic clock, whether the packet is
//! due, or how to wait for it: by a sleep that ends two milliseconds early,
//! or by spinning. The caller reads the clock and does the waiting.
//!
//! Time is in nanoseconds on a monotonic clock whose origin the caller picks.

use vstd::prelude::*;

verus! {

/// How long before the tick the coarse sleep ends and spinning takes over.
pub const SPIN_WINDOW_NS: u64 = 2_000_000;

/// What the caller is to do next.
#[derive(Debug, Clone, Copy, PartialEq, Eq, Structural)]
pub enum PacerAction {
    /// The packet is due: send it.
    Fire,
    /// Sleep for this many nanoseconds, then ask again.
    Sleep(u64),
    /// Less than the spin window is left: spin, then ask again.
    Spin,
}

/// What a pacer stands for: the interval and the next tick.
pub struct PacerView {
    pub interval_ns: u64,
    pub next_tick_ns: u64,
}

impl PacerView {
    /// The decision at time `now_ns`: fire at or after the tick; sleep for
    /// all but the spin window if more than that is left; else spin.
    pub open spec fn action(self, now_ns: u64) -> PacerAction {
        if now_ns >= self.next_tick_ns {
            PacerAction::Fire
        } else if self.next_tick_ns - now_ns > 2_000_000 {
            PacerAction::Sleep((self.next_tick_ns - now_ns - 2_000_000) as u64)
        } else {
            PacerAction::Spin
        }
    }

    /// The schedule after the decision at time `now_ns`: firing moves the
    /// tick on by one interval, however late the packet was; waiting leaves
    /// it where it is.
    pub open spec fn after(self, now_ns: u64) -> PacerView {
        if now_ns >= self.next_tick_ns {
            PacerView { next_tick_ns: (self.next_tick_ns + self.interval_ns) as u64, ..self }
        } else {
            self
        }
    }
}

pub struct Pacer {
    interval_ns: u64,
    next_tick_ns: u64,
}

impl View for Pacer {
    type V = PacerView;

    closed spec fn view(&self) -> PacerView {
        PacerView { interval_ns: self.interval_ns, next_tick_ns: self.next_tick_ns }
    }
}

impl Pacer {
    /// A pacer for one packet per `frame_duration_ns`, whose first packet is
    /// due at once.
    pub fn new(frame_duration_ns: u64, now_ns: u64) -> (pacer: Pacer)
        ensures
            pacer@ == (PacerView { interval_ns: frame_duration_ns, next_tick_ns: now_ns }),
    {
        Pacer { interval_ns: frame_duration_ns, next_tick_ns: now_ns }
    }

    /// Decides what to do at time `now_ns`, and moves the tick on if the
    /// packet is due. The tick must not run off the end of the clock.
    pub fn poll(&mut self, now_ns: u64) -> (action: PacerAction)
        requires
            old(self)@.next_tick_ns + old(self)@.interval_ns <= u64::MAX,
        ensures
            action == old(self)@.action(now_ns),
            final(self)@ == old(self)@.after(now_ns),
    {
        if now_ns >= self.next_tick_ns {
            self.next_tick_ns = self.next_tick_ns + self.interval_ns;
            return PacerAction::Fire;
        }
        let remaining: u64 = self.next_tick_ns - now_ns;
        if remaining > SPIN_WINDOW_NS {
            PacerAction::Sleep(remaining - SPIN_WINDOW_NS)
        } else {
            PacerAction::Spin
        }
    }

    /// The time at which the next packet is due.
    pub fn next_tick(&self) -> (tick: u64)
        ensures
            tick == self@.next_tick_ns,
    {
        self.next_tick_ns
    }

    /// The time between two packets.
    pub fn interval(&self) -> (interval: u64)
        ensures
            interval == self@.interval_ns,
    {
        self.interval_ns
    }

    /// Makes the next packet due at once, as when a stream starts again.
    pub fn reset(&mut self, now_ns: u64)
        ensures
            final(self)@ == (PacerView { next_tick_ns: now_ns, ..old(self)@ }),
    {
        self.next_tick_ns = now_ns;
    }
}

/// The schedule does not drift: a packet that is sent at or after its tick
/// moves the tick by exactly one interval, whatever the clock read; a wait
/// moves nothing; and a sleep ends two milliseconds before the tick.
pub proof fn lemma_schedule_does_not_drift(pacer: PacerView, now_ns: u64)
    requires
        pacer.next_tick_ns + pacer.interval_ns <= u64::MAX,
    ensures
        pacer.action(now_ns) is Fire ==> pacer.after(now_ns).next_tick_ns == pacer.next_tick_ns
            + pacer.interval_ns,
        !(pacer.action(now_ns) is Fire) ==> pacer.after(now_ns) == pacer,
        pacer.after(now_ns).interval_ns == pacer.interval_ns,
        pacer.action(now_ns) matches PacerAction::Sleep(ns) ==> now_ns + ns + 2_000_000
            == pacer.next_tick_ns,
{
}

} // verus!
