use sentiric_rtp_core::net_utils::{is_private_ip, is_public_ip, IpAddress, SocketAddress};
use sentiric_rtp_core::session::RtpEndpoint;

fn v4(a: u8, b: u8, c: u8, d: u8, port: u16) -> SocketAddress {
    SocketAddress { ip: IpAddress::V4(a, b, c, d), port, flowinfo: 0, scope_id: 0 }
}

fn link_local(port: u16, flowinfo: u32, scope_id: u32) -> SocketAddress {
    SocketAddress { ip: IpAddress::V6(0xfe80, 0, 0, 0, 0, 0, 0, 1), port, flowinfo, scope_id }
}

#[test]
fn target_follows_the_source() {
    let a = v4(203, 0, 113, 5, 4000);
    let b = v4(203, 0, 113, 6, 4000);
    let mut endpoint = RtpEndpoint::new(None);
    assert_eq!(endpoint.get_target(), None);
    assert!(!endpoint.is_latched());
    assert!(endpoint.latch(a));
    assert_eq!(endpoint.get_target(), Some(a));
    assert!(endpoint.is_latched());
    assert!(endpoint.latch(b));
    assert_eq!(endpoint.get_target(), Some(b));
    assert!(!endpoint.latch(b));
    assert!(!endpoint.latch(b));
    assert_eq!(endpoint.get_target(), Some(b));
}

#[test]
fn first_packet_latches_even_from_the_advertised_address() {
    let advertised = v4(198, 51, 100, 1, 5004);
    let mut endpoint = RtpEndpoint::new(Some(advertised));
    assert_eq!(endpoint.get_target(), Some(advertised));
    assert!(!endpoint.is_latched());
    assert!(endpoint.latch(advertised));
    assert!(endpoint.is_latched());
    assert!(!endpoint.latch(advertised));
}

#[test]
fn port_alone_makes_a_different_source() {
    let mut endpoint = RtpEndpoint::new(None);
    assert!(endpoint.latch(v4(10, 0, 0, 1, 4000)));
    assert!(endpoint.latch(v4(10, 0, 0, 1, 4002)));
    assert_eq!(endpoint.get_target(), Some(v4(10, 0, 0, 1, 4002)));
}

#[test]
fn flow_label_and_scope_make_a_different_source() {
    let mut endpoint = RtpEndpoint::new(None);
    assert!(endpoint.latch(link_local(4000, 0, 2)));
    assert!(!endpoint.latch(link_local(4000, 0, 2)));
    // The same address on another interface.
    assert!(endpoint.latch(link_local(4000, 0, 3)));
    assert_eq!(endpoint.get_target(), Some(link_local(4000, 0, 3)));
    // The same address with another flow label.
    assert!(endpoint.latch(link_local(4000, 7, 3)));
    assert_eq!(endpoint.get_target(), Some(link_local(4000, 7, 3)));
    assert!(!endpoint.latch(link_local(4000, 7, 3)));
}

#[test]
fn private_sources_are_accepted() {
    let private = v4(172, 17, 0, 2, 30000);
    assert!(is_private_ip(private.ip));
    let mut endpoint = RtpEndpoint::new(Some(v4(203, 0, 113, 5, 4000)));
    assert!(endpoint.latch(private));
    assert_eq!(endpoint.get_target(), Some(private));
}

#[test]
fn reset_clears_the_target() {
    let mut endpoint = RtpEndpoint::new(Some(v4(198, 51, 100, 1, 5004)));
    endpoint.latch(v4(203, 0, 113, 5, 4000));
    endpoint.reset();
    assert_eq!(endpoint.get_target(), None);
    assert!(!endpoint.is_latched());
    assert!(endpoint.latch(v4(203, 0, 113, 5, 4000)));
}

#[test]
fn private_ipv4_ranges() {
    for ip in [
        IpAddress::V4(10, 0, 0, 1),
        IpAddress::V4(10, 255, 255, 255),
        IpAddress::V4(172, 16, 0, 1),
        IpAddress::V4(172, 31, 255, 255),
        IpAddress::V4(192, 168, 1, 1),
        IpAddress::V4(127, 0, 0, 1),
    ] {
        assert!(is_private_ip(ip), "{:?}", ip);
        assert!(!is_public_ip(ip), "{:?}", ip);
    }
    for ip in [
        IpAddress::V4(9, 255, 255, 255),
        IpAddress::V4(11, 0, 0, 0),
        IpAddress::V4(172, 15, 0, 1),
        IpAddress::V4(172, 32, 0, 1),
        IpAddress::V4(192, 167, 1, 1),
        IpAddress::V4(192, 169, 1, 1),
        IpAddress::V4(8, 8, 8, 8),
        IpAddress::V4(0, 0, 0, 0),
    ] {
        assert!(!is_private_ip(ip), "{:?}", ip);
        assert!(is_public_ip(ip), "{:?}", ip);
    }
}

#[test]
fn private_ipv6_ranges() {
    for ip in [
        IpAddress::V6(0, 0, 0, 0, 0, 0, 0, 1),
        IpAddress::V6(0xfc00, 0, 0, 0, 0, 0, 0, 0),
        IpAddress::V6(0xfdff, 1, 2, 3, 4, 5, 6, 7),
        IpAddress::V6(0xfe80, 0, 0, 0, 0, 0, 0, 1),
        IpAddress::V6(0xfebf, 0xffff, 0, 0, 0, 0, 0, 0),
    ] {
        assert!(is_private_ip(ip), "{:?}", ip);
    }
    for ip in [
        IpAddress::V6(0, 0, 0, 0, 0, 0, 0, 0),
        IpAddress::V6(0, 0, 0, 0, 0, 0, 0, 2),
        IpAddress::V6(0, 0, 0, 0, 0, 0, 1, 1),
        IpAddress::V6(0xfbff, 0, 0, 0, 0, 0, 0, 0),
        IpAddress::V6(0xfe00, 0, 0, 0, 0, 0, 0, 0),
        IpAddress::V6(0xfe7f, 0, 0, 0, 0, 0, 0, 0),
        IpAddress::V6(0xfec0, 0, 0, 0, 0, 0, 0, 0),
        IpAddress::V6(0x2001, 0xdb8, 0, 0, 0, 0, 0, 1),
    ] {
        assert!(is_public_ip(ip), "{:?}", ip);
    }
}
