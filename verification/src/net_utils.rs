//! Addresses as plain values, and the test for addresses that are not
//! routable on the public internet.

use vstd::prelude::*;

verus! {

/// An IP address by its parts: four octets, or eight 16-bit segments.
#[derive(Debug, Clone, Copy, PartialEq, Eq, Structural)]
pub enum IpAddress {
    V4(u8, u8, u8, u8),
    V6(u16, u16, u16, u16, u16, u16, u16, u16),
}

/// A socket address by its parts. Two addresses are the same if all parts
/// are: an IPv6 peer that changes its flow label or its scope is another
/// source.
#[derive(Debug, Clone, Copy, PartialEq, Eq, Structural)]
pub struct SocketAddress {
    pub ip: IpAddress,
    pub port: u16,
    /// The flow information of an IPv6 address; zero for IPv4.
    pub flowinfo: u32,
    /// The scope identifier of an IPv6 address; zero for IPv4.
    pub scope_id: u32,
}

/// Whether an address is private: for IPv4, in 10.0.0.0/8, 172.16.0.0/12,
/// 192.168.0.0/16 or the loopback net 127.0.0.0/8; for IPv6, the loopback
/// address `::1`, unique local (fc00::/7) or link local (fe80::/10).
pub open spec fn is_private(ip: IpAddress) -> bool {
    match ip {
        IpAddress::V4(a, b, _, _) => {
            ||| a == 10
            ||| a == 172 && 16 <= b <= 31
            ||| a == 192 && b == 168
            ||| a == 127
        },
        IpAddress::V6(s0, s1, s2, s3, s4, s5, s6, s7) => {
            ||| s0 == 0 && s1 == 0 && s2 == 0 && s3 == 0 && s4 == 0 && s5 == 0 && s6 == 0 && s7 == 1
            ||| 0xfc00 <= s0 <= 0xfdff
            ||| 0xfe80 <= s0 <= 0xfebf
        },
    }
}

/// Whether an address is private.
pub fn is_private_ip(ip: IpAddress) -> (private: bool)
    ensures
        private == is_private(ip),
{
    match ip {
        IpAddress::V4(a, b, _, _) => {
            if a == 10 {
                return true;
            }
            if a == 172 && (b >= 16 && b <= 31) {
                return true;
            }
            if a == 192 && b == 168 {
                return true;
            }
            if a == 127 {
                return true;
            }
            false
        },
        IpAddress::V6(s0, s1, s2, s3, s4, s5, s6, s7) => {
            if s0 == 0 && s1 == 0 && s2 == 0 && s3 == 0 && s4 == 0 && s5 == 0 && s6 == 0 && s7
                == 1 {
                return true;
            }
            assert(((s0 & 0xfe00) == 0xfc00 <==> 0xfc00 <= s0 <= 0xfdff) && ((s0 & 0xffc0) == 0xfe80
                <==> 0xfe80 <= s0 <= 0xfebf)) by (bit_vector);
            if (s0 & 0xfe00) == 0xfc00 {
                return true;
            }
            if (s0 & 0xffc0) == 0xfe80 {
                return true;
            }
            false
        },
    }
}

/// Whether an address is routable on the public internet: not private.
pub fn is_public_ip(ip: IpAddress) -> (public: bool)
    ensures
        public == !is_private(ip),
{
    !is_private_ip(ip)
}

} // verus!
