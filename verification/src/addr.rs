//! Network addresses as plain values.

use crate::vec_map::Key;
use crate::wire::{be_bytes, law_numbers_are_big_endian, lemma_be_bytes_len};
use vstd::arithmetic::power::pow;
use vstd::prelude::*;

verus! {

/// An IPv4 address, as the number that its four octets stand for.
#[derive(Debug, Clone, Copy, PartialEq, Eq, PartialOrd, Ord, Hash, Structural)]
pub struct Ipv4Addr {
    /// The address, most significant octet first.
    pub bits: u32,
}

/// An IPv6 address, as the number that its sixteen octets stand for.
#[derive(Debug, Clone, Copy, PartialEq, Eq, PartialOrd, Ord, Hash, Structural)]
pub struct Ipv6Addr {
    /// The address, most significant octet first.
    pub bits: u128,
}

/// An IP address of either version.
#[derive(Debug, Clone, Copy, PartialEq, Eq, PartialOrd, Ord, Hash, Structural)]
pub enum IpAddr {
    /// IP version 4.
    V4(Ipv4Addr),
    /// IP version 6.
    V6(Ipv6Addr),
}

/// An IPv4 address with a port.
#[derive(Debug, Clone, Copy, PartialEq, Eq, PartialOrd, Ord, Hash, Structural)]
pub struct SocketAddrV4 {
    /// The address.
    pub ip: Ipv4Addr,
    /// The port.
    pub port: u16,
}

/// An IPv6 address with a port, flow information and scope.
#[derive(Debug, Clone, Copy, PartialEq, Eq, PartialOrd, Ord, Hash, Structural)]
pub struct SocketAddrV6 {
    /// The address.
    pub ip: Ipv6Addr,
    /// The port.
    pub port: u16,
    /// The flow information.
    pub flowinfo: u32,
    /// The scope.
    pub scope_id: u32,
}

/// The address of an endpoint.
#[derive(Debug, Clone, Copy, PartialEq, Eq, PartialOrd, Ord, Hash, Structural)]
pub enum SocketAddr {
    /// IP version 4.
    V4(SocketAddrV4),
    /// IP version 6.
    V6(SocketAddrV6),
}

impl Ipv4Addr {
    /// The address with the given octets.
    pub fn new(a: u8, b: u8, c: u8, d: u8) -> (ip: Ipv4Addr)
        ensures
            ip.bits == a * 0x100_0000 + b * 0x1_0000 + c * 0x100 + d,
    {
        Ipv4Addr {
            bits: a as u32 * 0x100_0000 + b as u32 * 0x1_0000 + c as u32 * 0x100 + d as u32,
        }
    }

    /// The four octets.
    pub open spec fn octets(self) -> Seq<u8> {
        be_bytes(self.bits as nat, 4)
    }
}

impl Ipv6Addr {
    /// The sixteen octets.
    pub open spec fn octets(self) -> Seq<u8> {
        be_bytes(self.bits as nat, 16)
    }
}

impl IpAddr {
    /// Whether this is an IPv4 address.
    pub fn is_ipv4(&self) -> (b: bool)
        ensures
            b == (*self is V4),
    {
        match self {
            IpAddr::V4(_) => true,
            IpAddr::V6(_) => false,
        }
    }

    /// Whether this is an IPv6 address.
    pub fn is_ipv6(&self) -> (b: bool)
        ensures
            b == (*self is V6),
    {
        !self.is_ipv4()
    }

    /// The address that stands for no particular host: all octets are zero.
    pub open spec fn unspecified(self) -> bool {
        match self {
            IpAddr::V4(ip) => ip.bits == 0,
            IpAddr::V6(ip) => ip.bits == 0,
        }
    }

    /// Addresses of the own host: `127.0.0.0/8` and `::1`.
    pub open spec fn loopback(self) -> bool {
        match self {
            IpAddr::V4(ip) => ip.bits / 0x100_0000 == 127,
            IpAddr::V6(ip) => ip.bits == 1,
        }
    }

    /// Whether all octets are zero.
    pub fn is_unspecified(&self) -> (b: bool)
        ensures
            b == self.unspecified(),
    {
        match self {
            IpAddr::V4(ip) => ip.bits == 0,
            IpAddr::V6(ip) => ip.bits == 0,
        }
    }

    /// Whether this is an address of the own host.
    pub fn is_loopback(&self) -> (b: bool)
        ensures
            b == self.loopback(),
    {
        match self {
            IpAddr::V4(ip) => ip.bits / 0x100_0000 == 127,
            IpAddr::V6(ip) => ip.bits == 1,
        }
    }
}

impl SocketAddr {
    /// The IP address of the endpoint.
    pub open spec fn spec_ip(self) -> IpAddr {
        match self {
            SocketAddr::V4(a) => IpAddr::V4(a.ip),
            SocketAddr::V6(a) => IpAddr::V6(a.ip),
        }
    }

    /// The port of the endpoint.
    pub open spec fn spec_port(self) -> u16 {
        match self {
            SocketAddr::V4(a) => a.port,
            SocketAddr::V6(a) => a.port,
        }
    }

    /// The endpoint with IP address `ip` and port `port`, in no particular flow or scope.
    pub open spec fn spec_new(ip: IpAddr, port: u16) -> SocketAddr {
        match ip {
            IpAddr::V4(ip) => SocketAddr::V4(SocketAddrV4 { ip, port }),
            IpAddr::V6(ip) => SocketAddr::V6(SocketAddrV6 { ip, port, flowinfo: 0, scope_id: 0 }),
        }
    }

    /// The endpoint with the given IP address and port.
    #[verifier::when_used_as_spec(spec_new)]
    pub fn new(ip: IpAddr, port: u16) -> (addr: SocketAddr)
        ensures
            addr == SocketAddr::spec_new(ip, port),
    {
        match ip {
            IpAddr::V4(ip) => SocketAddr::V4(SocketAddrV4 { ip, port }),
            IpAddr::V6(ip) => SocketAddr::V6(SocketAddrV6 { ip, port, flowinfo: 0, scope_id: 0 }),
        }
    }

    /// The IP address of the endpoint.
    #[verifier::when_used_as_spec(spec_ip)]
    pub fn ip(self) -> (ip: IpAddr)
        ensures
            ip == self.spec_ip(),
    {
        match self {
            SocketAddr::V4(a) => IpAddr::V4(a.ip),
            SocketAddr::V6(a) => IpAddr::V6(a.ip),
        }
    }

    /// The port of the endpoint.
    #[verifier::when_used_as_spec(spec_port)]
    pub fn port(self) -> (port: u16)
        ensures
            port == self.spec_port(),
    {
        match self {
            SocketAddr::V4(a) => a.port,
            SocketAddr::V6(a) => a.port,
        }
    }

    /// Whether the endpoint has an IPv4 address.
    pub fn is_ipv4(&self) -> (b: bool)
        ensures
            b == (*self is V4),
    {
        match self {
            SocketAddr::V4(_) => true,
            SocketAddr::V6(_) => false,
        }
    }

    /// Whether the endpoint has an IPv6 address.
    pub fn is_ipv6(&self) -> (b: bool)
        ensures
            b == (*self is V6),
    {
        !self.is_ipv4()
    }

    /// The order of endpoints: IPv4 before IPv6, then by address, then by port,
    /// then by flow information, then by scope.
    pub open spec fn precedes(self, other: SocketAddr) -> bool {
        match (self, other) {
            (SocketAddr::V4(a), SocketAddr::V4(b)) => {
                a.ip.bits < b.ip.bits || a.ip.bits == b.ip.bits && a.port < b.port
            },
            (SocketAddr::V4(_), SocketAddr::V6(_)) => true,
            (SocketAddr::V6(_), SocketAddr::V4(_)) => false,
            (SocketAddr::V6(a), SocketAddr::V6(b)) => {
                a.ip.bits < b.ip.bits || a.ip.bits == b.ip.bits && (a.port < b.port || a.port
                    == b.port && (a.flowinfo < b.flowinfo || a.flowinfo == b.flowinfo && a.scope_id
                    < b.scope_id))
            },
        }
    }

    /// Whether this endpoint comes before `other`.
    pub fn is_before(&self, other: &SocketAddr) -> (b: bool)
        ensures
            b == self.precedes(*other),
    {
        match (self, other) {
            (SocketAddr::V4(a), SocketAddr::V4(b)) => {
                a.ip.bits < b.ip.bits || a.ip.bits == b.ip.bits && a.port < b.port
            },
            (SocketAddr::V4(_), SocketAddr::V6(_)) => true,
            (SocketAddr::V6(_), SocketAddr::V4(_)) => false,
            (SocketAddr::V6(a), SocketAddr::V6(b)) => {
                a.ip.bits < b.ip.bits || a.ip.bits == b.ip.bits && (a.port < b.port || a.port
                    == b.port && (a.flowinfo < b.flowinfo || a.flowinfo == b.flowinfo && a.scope_id
                    < b.scope_id))
            },
        }
    }
}

impl Key for SocketAddr {
    fn same(&self, other: &Self) -> (b: bool) {
        *self == *other
    }
}

/// Two different endpoints are ordered one way or the other, and never both ways.
pub proof fn law_endpoint_order_is_total(a: SocketAddr, b: SocketAddr)
    ensures
        a == b <==> !a.precedes(b) && !b.precedes(a),
        !(a.precedes(b) && b.precedes(a)),
{
}

/// The order of endpoints is transitive.
pub proof fn law_endpoint_order_is_transitive(a: SocketAddr, b: SocketAddr, c: SocketAddr)
    requires
        a.precedes(b),
        b.precedes(c),
    ensures
        a.precedes(c),
{
}

/// An endpoint is made of an address and a port, and gives both back. It is of the IP version
/// of its address, and in no flow and no scope.
pub proof fn law_endpoints_have_an_address_and_a_port(ip: IpAddr, port: u16)
    ensures
        SocketAddr::spec_new(ip, port).spec_ip() == ip,
        SocketAddr::spec_new(ip, port).spec_port() == port,
        SocketAddr::spec_new(ip, port) is V4 <==> ip is V4,
        SocketAddr::spec_new(ip, port) matches SocketAddr::V6(a) ==> a.flowinfo == 0 && a.scope_id
            == 0,
{
}

/// What the address and the port of an endpoint are.
pub proof fn law_parts_of_endpoints(a: SocketAddrV4, b: SocketAddrV6)
    ensures
        SocketAddr::V4(a).spec_ip() == IpAddr::V4(a.ip),
        SocketAddr::V6(b).spec_ip() == IpAddr::V6(b.ip),
        SocketAddr::V4(a).spec_port() == a.port,
        SocketAddr::V6(b).spec_port() == b.port,
{
}

/// The octets of an address are its digits to the base 256, the highest one first.
#[verifier::rlimit(60)]
pub proof fn law_octets_of_addresses(a: Ipv4Addr, b: Ipv6Addr, i: int)
    ensures
        a.octets().len() == 4,
        b.octets().len() == 16,
        a.octets()[0] == a.bits as int / 0x100_0000,
        a.octets()[1] == a.bits as int / 0x1_0000 % 256,
        a.octets()[2] == a.bits as int / 0x100 % 256,
        a.octets()[3] == a.bits as int % 256,
        0 <= i < 16 ==> b.octets()[i] == b.bits as int / pow(256, (15 - i) as nat) % 256,
{
    reveal_with_fuel(be_bytes, 5);
    lemma_be_bytes_len(a.bits as nat, 4);
    lemma_be_bytes_len(b.bits as nat, 16);
    if 0 <= i < 16 {
        law_numbers_are_big_endian(b.bits as nat, 16, i, Seq::empty());
    }
}

/// The unspecified addresses are those without an octet other than zero. The loopback addresses
/// are those with 127 in front, and that with a one at the end and nothing else.
pub proof fn law_special_addresses(a: Ipv4Addr, b: Ipv6Addr)
    ensures
        IpAddr::V4(a).unspecified() <==> a.octets() == seq![0u8, 0, 0, 0],
        IpAddr::V6(b).unspecified() <==> b == (Ipv6Addr { bits: 0 }),
        IpAddr::V4(a).loopback() <==> a.octets()[0] == 127,
        IpAddr::V6(b).loopback() <==> b == (Ipv6Addr { bits: 1 }),
{
    law_octets_of_addresses(a, b, 0);
    let zero = seq![0u8, 0, 0, 0];
    if a.octets() == zero {
        assert(zero[0] == 0 && zero[1] == 0 && zero[2] == 0 && zero[3] == 0);
    }
    if a.bits == 0 {
        assert(a.octets() =~= zero);
    }
}

/// Endpoints of IP version 4 come first. Within one version a lower address comes first, and
/// for one address a lower port; for one address and port of version 6 the flow decides, and
/// then the scope.
pub proof fn law_endpoint_order_goes_by_address_and_port(a: SocketAddr, b: SocketAddr)
    ensures
        a is V4 && b is V6 ==> a.precedes(b),
        a matches SocketAddr::V4(x) && b matches SocketAddr::V4(y) && (x.ip.bits < y.ip.bits || x.ip
            == y.ip && x.port < y.port) ==> a.precedes(b),
        a matches SocketAddr::V6(x) && b matches SocketAddr::V6(y) && (x.ip.bits < y.ip.bits || x.ip
            == y.ip && (x.port < y.port || x.port == y.port && (x.flowinfo < y.flowinfo
            || x.flowinfo == y.flowinfo && x.scope_id < y.scope_id))) ==> a.precedes(b),
        a.precedes(b) ==> !b.precedes(a) && a != b,
{
}

} // verus!
