//! The remote end of an RTP session. Signalling says where the peer claims
//! to be; the packets say where it is. The endpoint latches onto the source
//! of what it receives, so that media finds its way back through a NAT.

use crate::net_utils::SocketAddress;
use vstd::prelude::*;

verus! {

/// What an endpoint stands for: where to send, and whether that was learnt
/// from a received packet.
pub struct EndpointView {
    pub target: Option<SocketAddress>,
    pub latched: bool,
}

impl EndpointView {
    /// The endpoint after a packet from `source`, and whether the target
    /// changed hands: always, unless the endpoint was latched to `source`.
    pub open spec fn latch(self, source: SocketAddress) -> (EndpointView, bool) {
        if self.latched && self.target == Some(source) {
            (self, false)
        } else {
            (EndpointView { target: Some(source), latched: true }, true)
        }
    }

    /// The endpoint after a reset: no target, not latched.
    pub open spec fn reset(self) -> EndpointView {
        EndpointView { target: None, latched: false }
    }
}

pub struct RtpEndpoint {
    target_addr: Option<SocketAddress>,
    is_latched: bool,
}

impl View for RtpEndpoint {
    type V = EndpointView;

    closed spec fn view(&self) -> EndpointView {
        EndpointView { target: self.target_addr, latched: self.is_latched }
    }
}

impl RtpEndpoint {
    /// An endpoint that sends to what signalling advertised, if anything,
    /// until a packet comes in.
    pub fn new(initial_target: Option<SocketAddress>) -> (endpoint: RtpEndpoint)
        ensures
            endpoint@ == (EndpointView { target: initial_target, latched: false }),
    {
        RtpEndpoint { target_addr: initial_target, is_latched: false }
    }

    /// Takes note of the source of a packet that was received and parsed.
    /// Returns whether the target changed hands. No source is turned away
    /// for its address class, and a source that moves is followed.
    pub fn latch(&mut self, source_addr: SocketAddress) -> (changed: bool)
        ensures
            (final(self)@, changed) == old(self)@.latch(source_addr),
    {
        let same: bool = match self.target_addr {
            Some(current) => current == source_addr,
            None => false,
        };
        if !self.is_latched || !same {
            self.target_addr = Some(source_addr);
            self.is_latched = true;
            return true;
        }
        false
    }

    /// Where to send now.
    pub fn get_target(&self) -> (target: Option<SocketAddress>)
        ensures
            target == self@.target,
    {
        self.target_addr
    }

    /// Whether the target was learnt from a received packet.
    pub fn is_latched(&self) -> (latched: bool)
        ensures
            latched == self@.latched,
    {
        self.is_latched
    }

    /// Forgets the target, as on call hold.
    pub fn reset(&mut self)
        ensures
            final(self)@ == old(self)@.reset(),
    {
        self.target_addr = None;
        self.is_latched = false;
    }
}

/// After a packet from `a` and then one from `b`, media goes to `b`; the
/// second packet changed the target if `b` is not `a`; and one more packet
/// from `b` changes nothing.
pub proof fn lemma_latch_follows_source(endpoint: EndpointView, a: SocketAddress, b: SocketAddress)
    ensures
        ({
            let (after_a, _) = endpoint.latch(a);
            let (after_b, changed) = after_a.latch(b);
            let (after_again, changed_again) = after_b.latch(b);
            &&& after_b.target == Some(b)
            &&& after_b.latched
            &&& a != b ==> changed
            &&& !changed_again
            &&& after_again == after_b
        }),
{
}

} // verus!
