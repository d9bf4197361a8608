//! Hosts, their addresses, and the interfaces of this machine.

use crate::addr::{
    law_endpoint_order_is_total, law_endpoint_order_is_transitive, IpAddr, Ipv4Addr, Ipv6Addr,
    SocketAddr,
};
use crate::error::TransportError;
use crate::text::{contains_char, decimal, push_decimal, text_views};
use crate::wire::{copy_bytes, has_at, optional_bytes, same_bytes};
use vstd::prelude::*;
use vstd::string::*;

verus! {

/// IP protocol version.
#[derive(Debug, Clone, Copy, PartialEq, Eq, PartialOrd, Ord, Hash, Structural)]
pub enum IpVersion {
    /// IP version 4.
    IPv4,
    /// IP version 6.
    IPv6,
    /// Both IP versions.
    Both,
}

impl Default for IpVersion {
    fn default() -> (version: IpVersion)
        ensures
            version == IpVersion::Both,
    {
        IpVersion::Both
    }
}

/// The IP version that "only" arguments ask for, if they agree.
pub open spec fn version_of(only_ipv4: bool, only_ipv6: bool) -> Option<IpVersion> {
    if only_ipv4 && only_ipv6 {
        None
    } else if only_ipv4 {
        Some(IpVersion::IPv4)
    } else if only_ipv6 {
        Some(IpVersion::IPv6)
    } else {
        Some(IpVersion::Both)
    }
}

impl IpVersion {
    /// Create from "only" arguments.
    pub fn from_only(only_ipv4: bool, only_ipv6: bool) -> (r: Result<IpVersion, TransportError>)
        ensures
            match r {
                Ok(version) => !(only_ipv4 && only_ipv6) && version == if only_ipv4 {
                    IpVersion::IPv4
                } else if only_ipv6 {
                    IpVersion::IPv6
                } else {
                    IpVersion::Both
                },
                Err(e) => only_ipv4 && only_ipv6 && e == TransportError::ExclusiveIpVersions,
            },
            version_of(only_ipv4, only_ipv6) == match r {
                Ok(version) => Some(version),
                Err(_) => None,
            },
    {
        match (only_ipv4, only_ipv6) {
            (false, false) => Ok(IpVersion::Both),
            (true, false) => Ok(IpVersion::IPv4),
            (false, true) => Ok(IpVersion::IPv6),
            (true, true) => Err(TransportError::ExclusiveIpVersions),
        }
    }

    /// Whether only IPv4 should be supported.
    pub fn is_only_ipv4(&self) -> (b: bool)
        ensures
            b == (*self == IpVersion::IPv4),
    {
        matches!(self, IpVersion::IPv4)
    }

    /// Whether only IPv6 should be supported.
    pub fn is_only_ipv6(&self) -> (b: bool)
        ensures
            b == (*self == IpVersion::IPv6),
    {
        matches!(self, IpVersion::IPv6)
    }

    /// Endpoints of this version may be used.
    pub open spec fn allows(self, addr: SocketAddr) -> bool {
        match self {
            IpVersion::IPv4 => addr is V4,
            IpVersion::IPv6 => addr is V6,
            IpVersion::Both => true,
        }
    }
}

/// A network interface of this machine.
#[derive(Debug)]
pub struct NetworkInterface {
    /// Its name.
    pub name: Vec<u8>,
    /// Its addresses.
    pub addr: Vec<IpAddr>,
    /// The number that the system knows it by, zero where it has none.
    pub index: u32,
}

impl NetworkInterface {
    /// An address of the interface from which a target can be reached: a real one, of the same
    /// IP version, and local where the target is local.
    pub open spec fn reaches(&self, target: SocketAddr) -> bool {
        exists|i: int|
            0 <= i < self.addr@.len() && fits_target(#[trigger] self.addr@[i], target)
    }

    /// Interfaces of this kind carry no traffic of their own.
    pub open spec fn useless(&self) -> bool {
        self.name@.len() >= 3 && self.name@.take(3) == seq![105u8, 102, 98]
    }
}

/// `ip` is one from which a target can be reached.
pub open spec fn fits_target(ip: IpAddr, target: SocketAddr) -> bool {
    !ip.unspecified() && ip.loopback() == target.spec_ip().loopback() && (ip is V4 <==> target is V4)
}

/// Drops the interfaces that are most likely useless: those whose name begins with "ifb".
pub fn local_interfaces(shown: Vec<NetworkInterface>) -> (kept: Vec<NetworkInterface>)
    ensures
        kept@ == shown@.filter(|iface: NetworkInterface| !iface.useless()),
{
    let ghost all = shown@;
    let ghost useful = |iface: NetworkInterface| !iface.useless();
    let mut shown = shown;
    let mut kept: Vec<NetworkInterface> = Vec::new();
    let mut i: usize = 0;
    proof {
        reveal(Seq::filter);
        assert(all.take(0) =~= Seq::empty());
    }
    while i < shown.len()
        invariant
            i <= shown@.len(),
            all.len() == shown@.len(),
            useful == (|iface: NetworkInterface| !iface.useless()),
            forall|j: int| i <= j < all.len() ==> #[trigger] shown@[j] == all[j],
            kept@ == all.take(i as int).filter(useful),
        decreases shown@.len() - i,
    {
        proof {
            reveal(Seq::filter);
            assert(all.take(i + 1).drop_last() =~= all.take(i as int));
            assert(shown@[i as int] == all[i as int]);
        }
        let mut iface = NetworkInterface { name: Vec::new(), addr: Vec::new(), index: 0 };
        std::mem::swap(&mut iface, &mut shown[i]);
        let prefix: [u8; 3] = [105, 102, 98];
        assert(prefix@ =~= seq![105u8, 102, 98]);
        let useless = has_at(&iface.name, 0, &prefix);
        assert(iface.name@.len() >= 3 ==> iface.name@.subrange(0, 3) =~= iface.name@.take(3));
        if !useless {
            kept.push(iface);
        }
        i += 1;
    }
    assert(all.take(i as int) =~= all);
    kept
}

/// Names, by their contents.
pub open spec fn name_views(names: Seq<Vec<u8>>) -> Seq<Seq<u8>> {
    Seq::new(names.len(), |i: int| names[i]@)
}

/// Whether a target can be reached from an interface.
fn interface_reaches(iface: &NetworkInterface, target: SocketAddr) -> (b: bool)
    ensures
        b == iface.reaches(target),
{
    let mut i: usize = 0;
    while i < iface.addr.len()
        invariant
            i <= iface.addr@.len(),
            forall|j: int| 0 <= j < i ==> !fits_target(#[trigger] iface.addr@[j], target),
        decreases iface.addr@.len() - i,
    {
        let ip: IpAddr = iface.addr[i];
        if !ip.is_unspecified() && ip.is_loopback() == target.ip().is_loopback() && ip.is_ipv4()
            == target.is_ipv4() && ip.is_ipv6() == target.is_ipv6() {
            assert(fits_target(iface.addr@[i as int], target));
            return true;
        }
        i += 1;
    }
    false
}

/// Where a name stands among others.
fn has_name(names: &Vec<Vec<u8>>, name: &[u8]) -> (found: bool)
    ensures
        found == name_views(names@).contains(name@),
{
    let mut i: usize = 0;
    while i < names.len()
        invariant
            i <= names@.len(),
            forall|j: int| 0 <= j < i ==> (#[trigger] names@[j])@ != name@,
        decreases names@.len() - i,
    {
        if same_bytes(&names[i], name) {
            assert(name_views(names@)[i as int] == name@);
            return true;
        }
        i += 1;
    }
    proof {
        if name_views(names@).contains(name@) {
            let j = choose|j: int| 0 <= j < names@.len() && name_views(names@)[j] == name@;
            assert(names@[j]@ == name@);
        }
    }
    false
}

/// The names of the interfaces from which a target can be reached, each once.
pub fn interface_names_for_target(interfaces: &Vec<NetworkInterface>, target: SocketAddr) -> (names:
    Vec<Vec<u8>>)
    ensures
        name_views(names@).no_duplicates(),
        forall|name: Seq<u8>| #[trigger]
            name_views(names@).contains(name) <==> exists|i: int|
                0 <= i < interfaces@.len() && (#[trigger] interfaces@[i]).name@ == name
                    && interfaces@[i].reaches(target),
{
    let mut names: Vec<Vec<u8>> = Vec::new();
    let mut i: usize = 0;
    while i < interfaces.len()
        invariant
            i <= interfaces@.len(),
            name_views(names@).no_duplicates(),
            forall|name: Seq<u8>| #[trigger]
                name_views(names@).contains(name) <==> exists|j: int|
                    0 <= j < i && (#[trigger] interfaces@[j]).name@ == name
                        && interfaces@[j].reaches(target),
        decreases interfaces@.len() - i,
    {
        let ghost before = name_views(names@);
        let ghost added = interfaces@[i as int].name@;
        if interface_reaches(&interfaces[i], target) && !has_name(&names, &interfaces[i].name) {
            names.push(copy_bytes(&interfaces[i].name));
            proof {
                assert(name_views(names@) =~= before.push(added));
                assert forall|name: Seq<u8>| name_views(names@).contains(name) <==> before.contains(
                    name,
                ) || name == added by {
                    assert(before.push(added)[before.len() as int] == added);
                    if before.contains(name) {
                        let k = choose|k: int| 0 <= k < before.len() && before[k] == name;
                        assert(before.push(added)[k] == name);
                    }
                }
            }
        }
        proof {
            assert forall|name: Seq<u8>| #[trigger]
                name_views(names@).contains(name) <==> exists|j: int|
                    0 <= j < i + 1 && (#[trigger] interfaces@[j]).name@ == name
                        && interfaces@[j].reaches(target) by {
                let now = name_views(names@).contains(name);
                if before.contains(name) {
                    let j = choose|j: int|
                        0 <= j < i && (#[trigger] interfaces@[j]).name@ == name
                            && interfaces@[j].reaches(target);
                    assert(interfaces@[j].name@ == name);
                }
                if interfaces@[i as int].reaches(target) && name == added {
                    assert(interfaces@[i as int].name@ == name);
                }
            }
        }
        i += 1;
    }
    names
}

/// The first of some addresses that is real and of the IP version of `target_ip`.
pub open spec fn first_address(addrs: Seq<IpAddr>, target_ip: IpAddr) -> Option<IpAddr>
    decreases addrs.len(),
{
    if addrs.len() == 0 {
        None
    } else if !addrs[0].unspecified() && (addrs[0] is V4 <==> target_ip is V4) {
        Some(addrs[0])
    } else {
        first_address(addrs.skip(1), target_ip)
    }
}

/// The first such address of the interfaces called `interface`.
pub open spec fn local_addr(
    interfaces: Seq<NetworkInterface>,
    interface: Seq<u8>,
    target_ip: IpAddr,
) -> Option<IpAddr>
    decreases interfaces.len(),
{
    if interfaces.len() == 0 {
        None
    } else if interfaces[0].name@ == interface && first_address(
        interfaces[0].addr@,
        target_ip,
    ) is Some {
        first_address(interfaces[0].addr@, target_ip)
    } else {
        local_addr(interfaces.skip(1), interface, target_ip)
    }
}

/// The first of some addresses that is real and of the IP version of `target_ip`.
fn find_address(addrs: &Vec<IpAddr>, target_ip: IpAddr) -> (r: Option<IpAddr>)
    ensures
        r == first_address(addrs@, target_ip),
{
    let mut i: usize = 0;
    assert(addrs@.skip(0) =~= addrs@);
    while i < addrs.len()
        invariant
            i <= addrs@.len(),
            first_address(addrs@, target_ip) == first_address(addrs@.skip(i as int), target_ip),
        decreases addrs@.len() - i,
    {
        let ip: IpAddr = addrs[i];
        assert(addrs@.skip(i as int).skip(1) =~= addrs@.skip(i + 1));
        if !ip.is_unspecified() && ip.is_ipv4() == target_ip.is_ipv4() {
            return Some(ip);
        }
        i += 1;
    }
    None
}

/// Finds an address of the interface called `interface` from which `target_ip` can be
/// reached.
pub fn interface_local_addr(
    interfaces: &Vec<NetworkInterface>,
    interface: &[u8],
    target_ip: IpAddr,
) -> (r: Option<IpAddr>)
    ensures
        r == local_addr(interfaces@, interface@, target_ip),
{
    let mut i: usize = 0;
    assert(interfaces@.skip(0) =~= interfaces@);
    while i < interfaces.len()
        invariant
            i <= interfaces@.len(),
            local_addr(interfaces@, interface@, target_ip) == local_addr(
                interfaces@.skip(i as int),
                interface@,
                target_ip,
            ),
        decreases interfaces@.len() - i,
    {
        assert(interfaces@.skip(i as int).skip(1) =~= interfaces@.skip(i + 1));
        if same_bytes(&interfaces[i].name, interface) {
            let found = find_address(&interfaces[i].addr, target_ip);
            if found.is_some() {
                return found;
            }
        }
        i += 1;
    }
    None
}

/// The number of the first interface called `name`, if it has one.
pub open spec fn index_of(interfaces: Seq<NetworkInterface>, name: Seq<u8>) -> Option<u32>
    decreases interfaces.len(),
{
    if interfaces.len() == 0 {
        None
    } else if interfaces[0].name@ == name {
        if interfaces[0].index == 0 {
            None
        } else {
            Some(interfaces[0].index)
        }
    } else {
        index_of(interfaces.skip(1), name)
    }
}

/// Finds the number of the interface called `name`, which is not zero.
pub fn interface_index(interfaces: &Vec<NetworkInterface>, name: &[u8]) -> (r: Result<
    u32,
    TransportError,
>)
    ensures
        match r {
            Ok(index) => index_of(interfaces@, name@) == Some(index) && index != 0,
            Err(e) => index_of(interfaces@, name@) is None && e
                == TransportError::NoInterfaceIndex,
        },
{
    let mut i: usize = 0;
    assert(interfaces@.skip(0) =~= interfaces@);
    while i < interfaces.len()
        invariant
            i <= interfaces@.len(),
            index_of(interfaces@, name@) == index_of(interfaces@.skip(i as int), name@),
        decreases interfaces@.len() - i,
    {
        assert(interfaces@.skip(i as int).skip(1) =~= interfaces@.skip(i + 1));
        if same_bytes(&interfaces[i].name, name) {
            let index: u32 = interfaces[i].index;
            return if index == 0 {
                Err(TransportError::NoInterfaceIndex)
            } else {
                Ok(index)
            };
        }
        i += 1;
    }
    Err(TransportError::NoInterfaceIndex)
}

/// The endpoint to bind to in order to reach `remote`. Without an interface, the system
/// chooses.
pub open spec fn bind_endpoint(
    interfaces: Option<Seq<NetworkInterface>>,
    interface: Option<Seq<u8>>,
    remote: SocketAddr,
) -> Option<SocketAddr> {
    match interface {
        Some(name) => match interfaces {
            Some(interfaces) => match local_addr(interfaces, name, remote.spec_ip()) {
                Some(ip) => Some(SocketAddr::spec_new(ip, 0)),
                None => None,
            },
            None => None,
        },
        None => Some(
            SocketAddr::spec_new(
                match remote {
                    SocketAddr::V4(_) => IpAddr::V4(Ipv4Addr { bits: 0 }),
                    SocketAddr::V6(_) => IpAddr::V6(Ipv6Addr { bits: 0 }),
                },
                0,
            ),
        ),
    }
}

/// Decides which endpoint to bind to in order to reach `remote`. `interfaces` are those of
/// the machine, or nothing where they are not known.
pub fn bind_addr_for(
    interfaces: &Option<Vec<NetworkInterface>>,
    interface: &Option<Vec<u8>>,
    remote: SocketAddr,
) -> (r: Result<SocketAddr, TransportError>)
    ensures
        match r {
            Ok(addr) => bind_endpoint(
                interfaces_view(*interfaces),
                optional_bytes(*interface),
                remote,
            ) == Some(addr),
            Err(e) => bind_endpoint(
                interfaces_view(*interfaces),
                optional_bytes(*interface),
                remote,
            ) is None && interface is Some && (e matches TransportError::NoInterfaceAddress(name)
                && name@ == interface->0@),
        },
{
    match interface {
        Some(name) => {
            let found: Option<IpAddr> = match interfaces {
                Some(interfaces) => interface_local_addr(interfaces, name, remote.ip()),
                None => None,
            };
            match found {
                Some(ip) => Ok(SocketAddr::new(ip, 0)),
                None => Err(TransportError::NoInterfaceAddress(copy_bytes(name))),
            }
        },
        None => {
            let ip: IpAddr = match remote {
                SocketAddr::V4(_) => IpAddr::V4(Ipv4Addr { bits: 0 }),
                SocketAddr::V6(_) => IpAddr::V6(Ipv6Addr { bits: 0 }),
            };
            Ok(SocketAddr::new(ip, 0))
        },
    }
}

/// The interfaces of the machine, where they are known.
pub open spec fn interfaces_view(interfaces: Option<Vec<NetworkInterface>>) -> Option<
    Seq<NetworkInterface>,
> {
    match interfaces {
        Some(interfaces) => Some(interfaces@),
        None => None,
    }
}

/// A decimal digit.
pub open spec fn is_digit(c: char) -> bool {
    48 <= c as u32 <= 57
}

/// A character of an IPv6 address.
pub open spec fn is_v6_char(c: char) -> bool {
    is_digit(c) || 97 <= c as u32 <= 102 || 65 <= c as u32 <= 70 || c == ':' || c == '.'
}

/// The entry ends in a colon, at `at`, and a number: digits, with or without a plus sign.
pub open spec fn port_at(host: Seq<char>, at: int) -> bool {
    &&& 0 <= at < host.len() - 1
    &&& host[at] == ':'
    &&& is_digit(host.last())
    &&& forall|i: int|
        at < i < host.len() ==> is_digit(#[trigger] host[i]) || i == at + 1 && host[i] == '+'
}

/// The entry ends in a colon and a number. A colon within brackets is not followed by a
/// number alone.
pub open spec fn ends_in_port(host: Seq<char>) -> bool {
    exists|at: int| port_at(host, at)
}

/// All characters are those of an IPv6 address.
pub open spec fn is_v6_text(host: Seq<char>) -> bool {
    forall|i: int| 0 <= i < host.len() ==> is_v6_char(#[trigger] host[i])
}

/// How many colons a text has.
pub open spec fn colons(text: Seq<char>) -> nat
    decreases text.len(),
{
    if text.len() == 0 {
        0
    } else {
        colons(text.drop_last()) + if text.last() == ':' {
            1nat
        } else {
            0
        }
    }
}

/// There are two colons at `at`, one behind the other.
pub open spec fn gap_at(text: Seq<char>, at: int) -> bool {
    0 <= at < text.len() - 1 && text[at] == ':' && text[at + 1] == ':'
}

/// The beginning of an IPv6 address, which is no address by itself: the colon and the digits
/// behind it complete its only double colon, or are the eighth group.
pub open spec fn lacks_last_group(head: Seq<char>) -> bool {
    &&& !head.contains('.')
    &&& !exists|i: int| #[trigger] gap_at(head, i)
    &&& head.len() > 0 && head.last() == ':' || colons(head) == 6
}

/// The entry is an IPv6 address without brackets, zone and port. Where what stands before the
/// last colon is an address by itself, the digits behind it are a port: `::1:5801`, which can
/// be read both ways, is the address `::1` and the port 5801.
pub open spec fn is_bare_v6(host: Seq<char>) -> bool {
    &&& is_v6_text(host)
    &&& host.contains(':')
    &&& forall|at: int| #[trigger] port_at(host, at) ==> lacks_last_group(host.take(at))
}

/// A host with a port: one that names no port gets the default one, and an IPv6 address
/// without brackets gets brackets first. One with a zone needs none, since its port cannot
/// be taken for a group.
pub open spec fn with_port(host: Seq<char>, default_port: u16) -> Seq<char> {
    if is_bare_v6(host) {
        seq!['['] + host + seq![']', ':'] + decimal(default_port as nat)
    } else if ends_in_port(host) {
        host
    } else {
        host.push(':') + decimal(default_port as nat)
    }
}

/// A number in decimal notation has digits, and nothing else.
proof fn lemma_decimal_digits(n: nat)
    ensures
        decimal(n).len() > 0,
        forall|i: int| 0 <= i < decimal(n).len() ==> is_digit(#[trigger] decimal(n)[i]),
    decreases n,
{
    if n >= 10 {
        lemma_decimal_digits(n / 10);
    }
}

/// There is only one place where the port of an entry begins.
proof fn lemma_port_is_unique(host: Seq<char>, a: int, b: int)
    requires
        port_at(host, a),
        port_at(host, b),
    ensures
        a == b,
{
    if a < b {
        assert(is_digit(host[b]) || host[b] == '+');
    }
    if b < a {
        assert(is_digit(host[a]) || host[a] == '+');
    }
}

/// A host gets a port only once: with it, it ends in a port and stays as it is.
pub proof fn law_port_is_added_once(host: Seq<char>, port: u16, other: u16)
    ensures
        ends_in_port(with_port(host, port)),
        with_port(with_port(host, port), other) == with_port(host, port),
{
    let digits = decimal(port as nat);
    let after = with_port(host, port);
    lemma_decimal_digits(port as nat);
    if is_bare_v6(host) {
        let at = host.len() + 2;
        assert forall|i: int| at < i < after.len() implies is_digit(#[trigger] after[i]) by {
            assert(after[i] == digits[i - at - 1]);
        }
        assert(port_at(after, at as int));
        assert(!is_v6_char(after[0]));
    } else if !ends_in_port(host) {
        let at = host.len();
        assert forall|i: int| at < i < after.len() implies is_digit(#[trigger] after[i]) by {
            assert(after[i] == digits[i - at - 1]);
        }
        assert(port_at(after, at as int));
        assert(after.take(at as int) =~= host);
        if is_bare_v6(after) {
            assert(lacks_last_group(host));
            lemma_colons(host);
            assert(host.contains(':')) by {
                if host.last() == ':' {
                    assert(host[host.len() - 1] == ':');
                }
            }
            assert forall|i: int| 0 <= i < host.len() implies is_v6_char(#[trigger] host[i]) by {
                assert(after[i] == host[i]);
            }
        }
    }
}

/// A host that is followed by a port keeps it, be it a name, an IPv4 address, or an IPv6
/// address without brackets that has a zone or a double colon, or is written out in full.
pub proof fn law_named_port_is_kept(host: Seq<char>, port: u16, other: u16)
    requires
        !host.contains(':') || host.contains('%') || (exists|i: int| #[trigger] gap_at(host, i))
            || colons(host) == 7 && host.last() != ':',
    ensures
        with_port(host.push(':') + decimal(port as nat), other) == host.push(':') + decimal(
            port as nat,
        ),
{
    let digits = decimal(port as nat);
    let entry = host.push(':') + digits;
    let at = host.len() as int;
    lemma_decimal_digits(port as nat);
    assert forall|i: int| at < i < entry.len() implies is_digit(#[trigger] entry[i]) by {
        assert(entry[i] == digits[i - at - 1]);
    }
    assert(port_at(entry, at));
    assert(entry.take(at) =~= host);
    lemma_colons(host);
    if host.contains('%') {
        let i = choose|i: int| 0 <= i < host.len() && host[i] == '%';
        assert(!is_v6_char(entry[i]));
    } else if !host.contains(':') && host.len() > 0 {
        assert(host[host.len() - 1] != ':');
    }
}

/// A text without colons has none to count.
proof fn lemma_colons(text: Seq<char>)
    ensures
        colons(text) > 0 ==> text.contains(':'),
    decreases text.len(),
{
    if text.len() > 0 {
        lemma_colons(text.drop_last());
        if text.last() == ':' {
            assert(text[text.len() - 1] == ':');
        } else if colons(text) > 0 {
            let i = choose|i: int| 0 <= i < text.len() - 1 && text.drop_last()[i] == ':';
            assert(text[i] == ':');
        }
    }
}

/// Where the port of an entry begins, if it ends in one.
fn find_port(host: &str) -> (r: Option<usize>)
    ensures
        match r {
            Some(at) => port_at(host@, at as int),
            None => !ends_in_port(host@),
        },
{
    let len: usize = host.unicode_len();
    let mut k: usize = len;
    while k > 0 && digit_at(host, k - 1)
        invariant
            len == host@.len(),
            k <= len,
            forall|i: int| k <= i < len ==> is_digit(#[trigger] host@[i]),
        decreases k,
    {
        k -= 1;
    }
    if k < len {
        if k > 0 && host.get_char(k - 1) == '+' {
            k -= 1;
        }
        if k > 0 && host.get_char(k - 1) == ':' {
            assert(port_at(host@, k - 1));
            return Some(k - 1);
        }
    }
    proof {
        if ends_in_port(host@) {
            let at = choose|at: int| port_at(host@, at);
            if at >= k {
                assert(is_digit(host@[at]) || host@[at] == '+');
            } else if at < k - 1 {
                assert(is_digit(host@[k - 1]) || k - 1 == at + 1 && host@[k - 1] == '+');
            }
        }
    }
    None
}

/// Whether there is a decimal digit at a place.
fn digit_at(text: &str, i: usize) -> (b: bool)
    requires
        i < text@.len(),
    ensures
        b == is_digit(text@[i as int]),
{
    let code: u32 = text.get_char(i) as u32;
    48 <= code && code <= 57
}

/// Whether an entry is an IPv6 address without brackets that names no port.
fn bare_v6(host: &str) -> (b: bool)
    ensures
        b == is_bare_v6(host@),
{
    if !contains_char(host, ':') || !v6_text(host) {
        return false;
    }
    match find_port(host) {
        Some(at) => {
            let b = last_group_missing(host, at);
            proof {
                assert(port_at(host@, at as int));
                assert forall|other: int| #[trigger] port_at(host@, other) implies other == at by {
                    lemma_port_is_unique(host@, at as int, other);
                }
            }
            b
        },
        None => true,
    }
}

/// Whether what stands before `end` is the beginning of an IPv6 address, but no address by
/// itself.
fn last_group_missing(host: &str, end: usize) -> (b: bool)
    requires
        end <= host@.len(),
    ensures
        b == lacks_last_group(host@.take(end as int)),
{
    let ghost head = host@.take(end as int);
    let mut count: usize = 0;
    let mut after_colon = false;
    let mut i: usize = 0;
    while i < end
        invariant
            i <= end <= host@.len(),
            head == host@.take(end as int),
            count <= i,
            count == colons(head.take(i as int)),
            after_colon == (i > 0 && head[i - 1] == ':'),
            forall|j: int| 0 <= j < i ==> #[trigger] head[j] != '.',
            forall|j: int| #[trigger] gap_at(head, j) ==> j + 1 >= i,
        decreases end - i,
    {
        let c: char = host.get_char(i);
        assert(head[i as int] == c);
        if c == '.' {
            return false;
        }
        if c == ':' {
            if after_colon {
                assert(gap_at(head, i - 1));
                return false;
            }
            count += 1;
        }
        assert(head.take(i + 1).drop_last() =~= head.take(i as int));
        after_colon = c == ':';
        i += 1;
    }
    assert(head.take(end as int) =~= head);
    after_colon || count == 6
}

/// Whether all characters of an entry are those of an IPv6 address.
fn v6_text(host: &str) -> (b: bool)
    ensures
        b == is_v6_text(host@),
{
    let len: usize = host.unicode_len();
    let mut i: usize = 0;
    while i < len
        invariant
            len == host@.len(),
            i <= len,
            forall|j: int| 0 <= j < i ==> is_v6_char(#[trigger] host@[j]),
        decreases len - i,
    {
        let c: char = host.get_char(i);
        let code: u32 = c as u32;
        let fits = digit_at(host, i) || 97 <= code && code <= 102 || 65 <= code && code <= 70 || c
            == ':' || c == '.';
        if !fits {
            assert(!is_v6_char(host@[i as int]));
            return false;
        }
        i += 1;
    }
    true
}

/// Adds the default port to the hosts that name none. There must be a host.
pub fn hosts_with_port(hosts: Vec<String>, default_port: u16) -> (r: Result<
    Vec<String>,
    TransportError,
>)
    ensures
        match r {
            Ok(out) => hosts@.len() > 0 && text_views(out@) == Seq::new(
                hosts@.len(),
                |i: int| with_port(hosts@[i]@, default_port),
            ),
            Err(e) => hosts@.len() == 0 && e == TransportError::NoHosts,
        },
{
    if hosts.len() == 0 {
        return Err(TransportError::NoHosts);
    }
    let mut out: Vec<String> = Vec::new();
    let mut i: usize = 0;
    while i < hosts.len()
        invariant
            i <= hosts@.len(),
            out@.len() == i,
            text_views(out@) == Seq::new(i as nat, |j: int| with_port(hosts@[j]@, default_port)),
        decreases hosts@.len() - i,
    {
        let ghost before = text_views(out@);
        let host: String = add_port(&hosts[i], default_port);
        out.push(host);
        proof {
            assert(text_views(out@) =~= before.push(host@));
            assert(text_views(out@) =~= Seq::new(
                (i + 1) as nat,
                |j: int| with_port(hosts@[j]@, default_port),
            ));
        }
        i += 1;
    }
    Ok(out)
}

/// Adds the default port to a host that names none.
fn add_port(host: &String, default_port: u16) -> (out: String)
    ensures
        out@ == with_port(host@, default_port),
{
    proof {
        reveal_strlit("[");
        reveal_strlit("]:");
        reveal_strlit(":");
    }
    if bare_v6(host.as_str()) {
        let mut out: String = "[".to_owned();
        out.append(host.as_str());
        out.append("]:");
        push_decimal(&mut out, default_port as u64);
        assert(out@ =~= with_port(host@, default_port));
        return out;
    }
    let mut out: String = host.clone();
    if find_port(host.as_str()).is_none() {
        out.append(":");
        push_decimal(&mut out, default_port as u64);
        assert(out@ =~= with_port(host@, default_port));
    }
    out
}

/// The endpoints are in order, and none occurs twice.
pub open spec fn in_order(addrs: Seq<SocketAddr>) -> bool {
    forall|i: int, j: int|
        0 <= i < j < addrs.len() ==> (#[trigger] addrs[i]).precedes(#[trigger] addrs[j])
}

/// Endpoints in order are different from each other.
pub proof fn lemma_in_order_distinct(addrs: Seq<SocketAddr>)
    requires
        in_order(addrs),
    ensures
        addrs.no_duplicates(),
{
    assert forall|i: int, j: int| 0 <= i < j < addrs.len() implies addrs[i] != addrs[j] by {
        assert(addrs[i].precedes(addrs[j]));
        law_endpoint_order_is_total(addrs[i], addrs[j]);
    }
}

/// Picks the endpoints of the wanted IP version from all that hosts resolved to, in order and
/// each once.
pub fn resolve_hosts(resolved: &Vec<SocketAddr>, ip_version: IpVersion) -> (addrs: Vec<SocketAddr>)
    ensures
        in_order(addrs@),
        forall|a: SocketAddr| #[trigger]
            addrs@.contains(a) <==> resolved@.contains(a) && ip_version.allows(a),
{
    let mut addrs: Vec<SocketAddr> = Vec::new();
    let mut i: usize = 0;
    while i < resolved.len()
        invariant
            i <= resolved@.len(),
            in_order(addrs@),
            forall|a: SocketAddr| #[trigger]
                addrs@.contains(a) <==> resolved@.take(i as int).contains(a) && ip_version.allows(
                    a,
                ),
        decreases resolved@.len() - i,
    {
        let addr: SocketAddr = resolved[i];
        let ghost before = addrs@;
        let unwanted = addr.is_ipv4() && ip_version.is_only_ipv6() || addr.is_ipv6()
            && ip_version.is_only_ipv4();
        if !unwanted {
            insert_in_order(&mut addrs, addr);
        }
        proof {
            let seen = resolved@.take(i as int);
            let now = resolved@.take(i + 1);
            assert(now =~= seen.push(addr));
            assert forall|a: SocketAddr| #[trigger] now.contains(a) <==> seen.contains(a) || a
                == addr by {
                assert(now[i as int] == addr);
                if seen.contains(a) {
                    let k = choose|k: int| 0 <= k < seen.len() && seen[k] == a;
                    assert(now[k] == a);
                }
                if now.contains(a) && a != addr {
                    let k = choose|k: int| 0 <= k < now.len() && now[k] == a;
                    assert(seen[k] == a);
                }
            }
        }
        i += 1;
    }
    assert(resolved@.take(i as int) =~= resolved@);
    addrs
}

/// Puts an endpoint in its place among others, unless it is there.
fn insert_in_order(addrs: &mut Vec<SocketAddr>, addr: SocketAddr)
    requires
        in_order(old(addrs)@),
    ensures
        in_order(final(addrs)@),
        forall|a: SocketAddr| #[trigger]
            final(addrs)@.contains(a) <==> old(addrs)@.contains(a) || a == addr,
{
    let ghost before = addrs@;
    let mut i: usize = 0;
    while i < addrs.len() && addrs[i].is_before(&addr)
        invariant
            addrs@ == before,
            i <= before.len(),
            forall|j: int| 0 <= j < i ==> (#[trigger] before[j]).precedes(addr),
        decreases before.len() - i,
    {
        i += 1;
    }
    if i < addrs.len() && addrs[i] == addr {
        assert(before[i as int] == addr);
        return;
    }
    addrs.insert(i, addr);
    proof {
        let after = addrs@;
        assert(after == before.insert(i as int, addr));
        assert forall|k: int| i <= k < before.len() implies addr.precedes(#[trigger] before[k]) by {
            law_endpoint_order_is_total(before[i as int], addr);
            if k > i {
                assert(before[i as int].precedes(before[k]));
                law_endpoint_order_is_transitive(addr, before[i as int], before[k]);
            }
        }
        assert forall|a: SocketAddr| #[trigger] after.contains(a) <==> before.contains(a) || a
            == addr by {
            assert(after[i as int] == addr);
            if before.contains(a) {
                let k = choose|k: int| 0 <= k < before.len() && before[k] == a;
                if k < i {
                    assert(after[k] == a);
                } else {
                    assert(after[k + 1] == a);
                }
            }
            if after.contains(a) && a != addr {
                let k = choose|k: int| 0 <= k < after.len() && after[k] == a;
                if k < i {
                    assert(before[k] == a);
                } else {
                    assert(before[k - 1] == a);
                }
            }
        }
        assert forall|k: int, l: int| 0 <= k < l < after.len() implies (
        #[trigger] after[k]).precedes(#[trigger] after[l]) by {
            if k < i {
                assert(after[k] == before[k]);
                if l > i {
                    assert(after[l] == before[l - 1]);
                } else if l < i {
                    assert(after[l] == before[l]);
                }
            } else if k == i {
                assert(after[l] == before[l - 1]);
            } else {
                assert(after[k] == before[k - 1]);
                assert(after[l] == before[l - 1]);
            }
        }
    }
}

/// There is only one way to put endpoints in order: two lists of the same endpoints are the
/// same list.
pub proof fn law_order_is_unique(a: Seq<SocketAddr>, b: Seq<SocketAddr>)
    requires
        in_order(a),
        in_order(b),
        forall|x: SocketAddr|
            #![trigger a.contains(x)]
            #![trigger b.contains(x)]
            a.contains(x) <==> b.contains(x),
    ensures
        a == b,
    decreases a.len(),
{
    if a.len() == 0 {
        if b.len() > 0 {
            assert(b.contains(b[0]));
        }
        assert(a =~= b);
    } else {
        assert(a.contains(a[a.len() - 1]));
        let j = choose|j: int| 0 <= j < b.len() && b[j] == a.last();
        assert(b.contains(b[b.len() - 1]));
        let i = choose|i: int| 0 <= i < a.len() && a[i] == b.last();
        law_endpoint_order_is_total(a.last(), b.last());
        if i < a.len() - 1 {
            assert(a[i].precedes(a[a.len() - 1]));
        }
        if j < b.len() - 1 {
            assert(b[j].precedes(b[b.len() - 1]));
        }
        assert(a.last() == b.last());
        let ra = a.drop_last();
        let rb = b.drop_last();
        assert forall|x: SocketAddr|
            #![trigger ra.contains(x)]
            #![trigger rb.contains(x)]
            ra.contains(x) <==> rb.contains(x) by {
            if ra.contains(x) {
                let k = choose|k: int| 0 <= k < ra.len() && ra[k] == x;
                assert(a[k].precedes(a[a.len() - 1]));
                law_endpoint_order_is_total(x, a.last());
                assert(a.contains(x));
                let l = choose|l: int| 0 <= l < b.len() && b[l] == x;
                assert(rb[l] == x);
            }
            if rb.contains(x) {
                let k = choose|k: int| 0 <= k < rb.len() && rb[k] == x;
                assert(b[k].precedes(b[b.len() - 1]));
                law_endpoint_order_is_total(x, b.last());
                assert(b.contains(x));
                let l = choose|l: int| 0 <= l < a.len() && a[l] == x;
                assert(ra[l] == x);
            }
        }
        law_order_is_unique(ra, rb);
        assert(a =~= ra.push(a.last()));
        assert(b =~= rb.push(b.last()));
    }
}

/// Each IP version allows the endpoints of that version alone; both versions together allow all.
pub proof fn law_versions_allow_their_endpoints(addr: SocketAddr)
    ensures
        IpVersion::IPv4.allows(addr) <==> addr is V4,
        IpVersion::IPv6.allows(addr) <==> addr is V6,
        IpVersion::Both.allows(addr),
{
}

/// A target can be reached from an interface exactly if one of its addresses is not unspecified,
/// is of the target's IP version, and is a loopback address just if the target is one.
pub proof fn law_targets_are_reached_from_fitting_addresses(
    iface: NetworkInterface,
    target: SocketAddr,
)
    ensures
        iface.reaches(target) <==> exists|i: int|
            0 <= i < iface.addr@.len() && !(#[trigger] iface.addr@[i]).unspecified() && (
            iface.addr@[i] is V4 <==> target is V4) && (iface.addr@[i].loopback()
                <==> target.spec_ip().loopback()),
{
    if iface.reaches(target) {
        let i = choose|i: int|
            0 <= i < iface.addr@.len() && fits_target(#[trigger] iface.addr@[i], target);
        assert(!iface.addr@[i].unspecified());
    }
    if exists|i: int|
        0 <= i < iface.addr@.len() && !(#[trigger] iface.addr@[i]).unspecified() && (
        iface.addr@[i] is V4 <==> target is V4) && (iface.addr@[i].loopback()
            <==> target.spec_ip().loopback()) {
        let i = choose|i: int|
            0 <= i < iface.addr@.len() && !(#[trigger] iface.addr@[i]).unspecified() && (
            iface.addr@[i] is V4 <==> target is V4) && (iface.addr@[i].loopback()
                <==> target.spec_ip().loopback());
        assert(fits_target(iface.addr@[i], target));
    }
}

/// The useless interfaces are those whose name begins with "ifb".
pub proof fn law_useless_interfaces_are_named_ifb(iface: NetworkInterface)
    ensures
        iface.useless() <==> iface.name@.len() >= 3 && iface.name@[0] == 0x69 && iface.name@[1]
            == 0x66 && iface.name@[2] == 0x62,
{
    if iface.name@.len() >= 3 {
        let head = iface.name@.take(3);
        let ifb = seq![105u8, 102, 98];
        assert(head[0] == iface.name@[0] && head[1] == iface.name@[1] && head[2] == iface.name@[2]);
        if head == ifb {
            assert(ifb[0] == 105 && ifb[1] == 102 && ifb[2] == 98);
        }
        if head[0] == 105 && head[1] == 102 && head[2] == 98 {
            assert(head =~= ifb);
        }
    }
}

/// `j` is the place of an address of interface `i` that can serve as local address: the
/// interface has the name, and the address is not unspecified and of the target's IP version.
spec fn serves(
    interfaces: Seq<NetworkInterface>,
    name: Seq<u8>,
    target_ip: IpAddr,
    i: int,
    j: int,
) -> bool {
    &&& 0 <= i < interfaces.len()
    &&& 0 <= j < interfaces[i].addr@.len()
    &&& interfaces[i].name@ == name
    &&& !interfaces[i].addr@[j].unspecified()
    &&& interfaces[i].addr@[j] is V4 <==> target_ip is V4
}

/// The first address that can serve as one is used.
#[verifier::rlimit(60)]
proof fn lemma_first_serving(
    interfaces: Seq<NetworkInterface>,
    name: Seq<u8>,
    target_ip: IpAddr,
    i: int,
    j: int,
)
    ensures
        local_addr(interfaces, name, target_ip) is None ==> !serves(
            interfaces,
            name,
            target_ip,
            i,
            j,
        ),
        serves(interfaces, name, target_ip, i, j) && (forall|k: int, l: int| #[trigger]
            serves(interfaces, name, target_ip, k, l) ==> i < k || i == k && j <= l)
            ==> local_addr(interfaces, name, target_ip) == Some(interfaces[i].addr@[j]),
        local_addr(interfaces, name, target_ip) is Some ==> exists|k: int, l: int| #[trigger]
            serves(interfaces, name, target_ip, k, l) && interfaces[k].addr@[l] == local_addr(
                interfaces,
                name,
                target_ip,
            )->0,
    decreases interfaces.len(),
{
    if interfaces.len() > 0 {
        let rest = interfaces.skip(1);
        let first = interfaces[0];
        lemma_first_serving(rest, name, target_ip, i - 1, j);
        lemma_first_address(first.addr@, target_ip, j);
        let here = first_address(first.addr@, target_ip);
        if i == 0 && serves(interfaces, name, target_ip, i, j) {
            assert(here is Some);
        }
        if i > 0 && serves(interfaces, name, target_ip, i, j) {
            assert(rest[i - 1] == interfaces[i]);
            assert(serves(rest, name, target_ip, i - 1, j));
        }
        if serves(interfaces, name, target_ip, i, j) && (forall|k: int, l: int| #[trigger]
            serves(interfaces, name, target_ip, k, l) ==> i < k || i == k && j <= l) {
            if i == 0 {
                assert forall|l: int| 0 <= l < j implies !(!(
                #[trigger] first.addr@[l]).unspecified() && (first.addr@[l] is V4
                    <==> target_ip is V4)) by {
                    if !first.addr@[l].unspecified() && (first.addr@[l] is V4
                        <==> target_ip is V4) {
                        assert(serves(interfaces, name, target_ip, 0, l));
                    }
                }
            } else {
                if first.name@ == name && here is Some {
                    let l = lemma_found_address(first.addr@, target_ip);
                    assert(serves(interfaces, name, target_ip, 0, l));
                }
                assert forall|k: int, l: int| #[trigger]
                    serves(rest, name, target_ip, k, l) implies i - 1 < k || i - 1 == k && j <= l by {
                    assert(rest[k] == interfaces[k + 1]);
                    assert(serves(interfaces, name, target_ip, k + 1, l));
                }
            }
        }
        if local_addr(interfaces, name, target_ip) is Some {
            if first.name@ == name && here is Some {
                let l = lemma_found_address(first.addr@, target_ip);
                assert(serves(interfaces, name, target_ip, 0, l));
            } else {
                let (k, l) = choose|k: int, l: int| #[trigger]
                    serves(rest, name, target_ip, k, l) && rest[k].addr@[l] == local_addr(
                        rest,
                        name,
                        target_ip,
                    )->0;
                assert(rest[k] == interfaces[k + 1]);
                assert(serves(interfaces, name, target_ip, k + 1, l));
            }
        }
    }
}

/// The local address for an interface is an address of an interface of that name, not unspecified
/// and of the target's IP version: the first such address, of the first such interface that has
/// any. There is none exactly where there is no such address.
#[verifier::rlimit(60)]
pub proof fn law_the_first_fitting_address_is_used(
    interfaces: Seq<NetworkInterface>,
    name: Seq<u8>,
    target_ip: IpAddr,
    i: int,
    j: int,
)
    requires
        0 <= i < interfaces.len(),
        0 <= j < interfaces[i].addr@.len(),
    ensures
        ({
            let ip = interfaces[i].addr@[j];
            let fits = interfaces[i].name@ == name && !ip.unspecified() && (ip is V4
                <==> target_ip is V4);
            let found = local_addr(interfaces, name, target_ip);
            &&& fits ==> found is Some
            &&& fits && (forall|k: int, l: int|
                0 <= k < interfaces.len() && 0 <= l < interfaces[k].addr@.len()
                    && interfaces[k].name@ == name && !(
                #[trigger] interfaces[k].addr@[l]).unspecified() && (interfaces[k].addr@[l] is V4
                    <==> target_ip is V4) ==> i < k || i == k && j <= l) ==> found == Some(ip)
            &&& found is Some ==> exists|k: int, l: int|
                0 <= k < interfaces.len() && 0 <= l < interfaces[k].addr@.len()
                    && interfaces[k].name@ == name && #[trigger] interfaces[k].addr@[l] == found->0
            &&& found is Some ==> !found->0.unspecified() && (found->0 is V4 <==> target_ip is V4)
        }),
{
    lemma_first_serving(interfaces, name, target_ip, i, j);
    let ip = interfaces[i].addr@[j];
    let fits = interfaces[i].name@ == name && !ip.unspecified() && (ip is V4 <==> target_ip is V4);
    if fits {
        assert(serves(interfaces, name, target_ip, i, j));
        if forall|k: int, l: int|
            0 <= k < interfaces.len() && 0 <= l < interfaces[k].addr@.len() && interfaces[k].name@
                == name && !(#[trigger] interfaces[k].addr@[l]).unspecified() && (
            interfaces[k].addr@[l] is V4 <==> target_ip is V4) ==> i < k || i == k && j <= l {
            assert forall|k: int, l: int| #[trigger]
                serves(interfaces, name, target_ip, k, l) implies i < k || i == k && j <= l by {
                assert(!interfaces[k].addr@[l].unspecified());
            }
        }
    }
}

/// The first fitting address of one interface.
proof fn lemma_first_address(addrs: Seq<IpAddr>, target_ip: IpAddr, j: int)
    ensures
        0 <= j < addrs.len() && !addrs[j].unspecified() && (addrs[j] is V4 <==> target_ip is V4)
            ==> first_address(addrs, target_ip) is Some,
        0 <= j < addrs.len() && !addrs[j].unspecified() && (addrs[j] is V4 <==> target_ip is V4) && (
        forall|l: int|
            0 <= l < j ==> !(!(#[trigger] addrs[l]).unspecified() && (addrs[l] is V4
                <==> target_ip is V4))) ==> first_address(addrs, target_ip) == Some(addrs[j]),
    decreases addrs.len(),
{
    if addrs.len() > 0 && j > 0 {
        let rest = addrs.skip(1);
        lemma_first_address(rest, target_ip, j - 1);
        if j < addrs.len() {
            assert(rest[j - 1] == addrs[j]);
        }
        if j < addrs.len() && forall|l: int|
            0 <= l < j ==> !(!(#[trigger] addrs[l]).unspecified() && (addrs[l] is V4
                <==> target_ip is V4)) {
            assert forall|l: int| 0 <= l < j - 1 implies !(!(#[trigger] rest[l]).unspecified() && (
            rest[l] is V4 <==> target_ip is V4)) by {
                assert(rest[l] == addrs[l + 1]);
            }
        }
    }
}

/// Where an address that was found stands.
proof fn lemma_found_address(addrs: Seq<IpAddr>, target_ip: IpAddr) -> (l: int)
    requires
        first_address(addrs, target_ip) is Some,
    ensures
        0 <= l < addrs.len(),
        addrs[l] == first_address(addrs, target_ip)->0,
        !addrs[l].unspecified(),
        addrs[l] is V4 <==> target_ip is V4,
    decreases addrs.len(),
{
    if !addrs[0].unspecified() && (addrs[0] is V4 <==> target_ip is V4) {
        0
    } else {
        let l = lemma_found_address(addrs.skip(1), target_ip);
        assert(addrs.skip(1)[l] == addrs[l + 1]);
        l + 1
    }
}

/// The number of an interface is that of the first one of its name, and there is none where no
/// interface has the name or that one has the number zero.
pub proof fn law_the_first_interface_of_a_name_counts(
    interfaces: Seq<NetworkInterface>,
    name: Seq<u8>,
    i: int,
)
    ensures
        (forall|k: int| 0 <= k < interfaces.len() ==> (#[trigger] interfaces[k]).name@ != name)
            ==> index_of(interfaces, name) is None,
        0 <= i < interfaces.len() && interfaces[i].name@ == name && (forall|k: int|
            0 <= k < i ==> (#[trigger] interfaces[k]).name@ != name) ==> index_of(interfaces, name)
            == if interfaces[i].index == 0 {
            None
        } else {
            Some(interfaces[i].index)
        },
    decreases interfaces.len(),
{
    if interfaces.len() > 0 {
        let rest = interfaces.skip(1);
        law_the_first_interface_of_a_name_counts(rest, name, i - 1);
        if i > 0 && i < interfaces.len() {
            assert(rest[i - 1] == interfaces[i]);
            if forall|k: int| 0 <= k < i ==> (#[trigger] interfaces[k]).name@ != name {
                assert(interfaces[0].name@ != name);
                assert forall|k: int| 0 <= k < i - 1 implies (#[trigger] rest[k]).name@ != name by {
                    assert(rest[k] == interfaces[k + 1]);
                }
            }
        }
        if forall|k: int| 0 <= k < interfaces.len() ==> (#[trigger] interfaces[k]).name@ != name {
            assert(interfaces[0].name@ != name);
            assert forall|k: int| 0 <= k < rest.len() implies (#[trigger] rest[k]).name@ != name by {
                assert(rest[k] == interfaces[k + 1]);
            }
        }
    }
}

/// The endpoint to bind to has no port of its own choice and is of the IP version of the other
/// end. Without an interface it is the unspecified address; with one it is the local address
/// for it, and where the interfaces are not known or none fits there is none.
pub proof fn law_bind_endpoints(
    interfaces: Option<Seq<NetworkInterface>>,
    interface: Option<Seq<u8>>,
    remote: SocketAddr,
)
    ensures
        ({
            let r = bind_endpoint(interfaces, interface, remote);
            let found = if interfaces is Some && interface is Some {
                local_addr(interfaces->0, interface->0, remote.spec_ip())
            } else {
                None
            };
            &&& r is Some <==> interface is None || found is Some
            &&& r matches Some(addr) ==> {
                &&& addr.spec_port() == 0
                &&& addr is V4 <==> remote is V4
                &&& interface is None ==> addr.spec_ip().unspecified()
                &&& interface is Some ==> addr.spec_ip() == found->0 && !addr.spec_ip().unspecified()
                &&& addr matches SocketAddr::V6(a) ==> a.flowinfo == 0 && a.scope_id == 0
            }
        }),
{
    if interface is Some && interfaces is Some {
        lemma_first_serving(interfaces->0, interface->0, remote.spec_ip(), 0, 0);
    }
}

/// A character that can stand in an IPv6 address: a hexadecimal digit, a colon or a dot.
spec fn may_stand_in_v6(c: char) -> bool {
    '0' <= c <= '9' || 'a' <= c <= 'f' || 'A' <= c <= 'F' || c == ':' || c == '.'
}

/// The characters of an IPv6 address.
proof fn lemma_v6_char(c: char)
    ensures
        is_v6_char(c) <==> may_stand_in_v6(c),
        is_digit(c) <==> '0' <= c <= '9',
{
}

/// What becomes of an entry whose last character is no digit, and so names no port, and of one
/// without a colon. The port is put behind it, after a colon, with brackets around an IPv6
/// address.
pub proof fn law_entries_without_a_port_get_one(host: Seq<char>, port: u16)
    requires
        !host.contains(':') || !('0' <= host.last() <= '9'),
    ensures
        ({
            let v6 = host.contains(':') && forall|i: int|
                0 <= i < host.len() ==> {
                    let c = #[trigger] host[i];
                    '0' <= c <= '9' || 'a' <= c <= 'f' || 'A' <= c <= 'F' || c == ':' || c == '.'
                };
            with_port(host, port) == if v6 {
                seq!['['] + host + seq![']', ':'] + decimal(port as nat)
            } else {
                host + seq![':'] + decimal(port as nat)
            }
        }),
{
    assert(host.push(':') =~= host + seq![':']);
    if host.contains(':') {
        lemma_v6_char(host.last());
        if forall|i: int| 0 <= i < host.len() ==> may_stand_in_v6(#[trigger] host[i]) {
            assert forall|i: int| 0 <= i < host.len() implies is_v6_char(#[trigger] host[i]) by {
                assert(may_stand_in_v6(host[i]));
            }
        } else {
            let i = choose|i: int| 0 <= i < host.len() && !may_stand_in_v6(#[trigger] host[i]);
            lemma_v6_char(host[i]);
            assert(!is_v6_char(host[i]));
        }
    }
}

/// What becomes of an entry that ends in a colon and digits. It is an IPv6 address without a
/// port, and gets brackets and the default port, exactly if all characters before that colon
/// can stand in one, there is no dot and no double colon among them, and they end in a colon
/// or have six colons. Otherwise the digits are a port, and the entry stays as it is.
#[verifier::rlimit(60)]
pub proof fn law_digits_at_the_end_are_a_port_or_a_group(
    head: Seq<char>,
    digits: Seq<char>,
    port: u16,
)
    requires
        digits.len() > 0,
        forall|i: int| 0 <= i < digits.len() ==> '0' <= #[trigger] digits[i] <= '9',
    ensures
        ({
            let entry = head + seq![':'] + digits;
            let group = (forall|i: int|
                0 <= i < head.len() ==> {
                    let c = #[trigger] head[i];
                    '0' <= c <= '9' || 'a' <= c <= 'f' || 'A' <= c <= 'F' || c == ':'
                }) && !(
            exists|i: int| 0 <= i < head.len() - 1 && #[trigger] head[i] == ':' && head[i + 1]
                == ':') && (head.len() > 0 && head.last() == ':' || head.filter(
                |c: char| c == ':',
            ).len() == 6);
            with_port(entry, port) == if group {
                seq!['['] + entry + seq![']', ':'] + decimal(port as nat)
            } else {
                entry
            }
        }),
{
    let entry = head + seq![':'] + digits;
    let at = head.len() as int;
    assert forall|i: int| at < i < entry.len() implies is_digit(#[trigger] entry[i]) by {
        assert(entry[i] == digits[i - at - 1]);
    }
    assert(entry.last() == digits[digits.len() - 1]);
    assert(entry[at] == ':');
    assert(port_at(entry, at));
    assert(entry.take(at) =~= head);
    assert(entry.contains(':'));
    assert forall|other: int| #[trigger] port_at(entry, other) implies other == at by {
        lemma_port_is_unique(entry, at, other);
    }
    lemma_colons_filter(head);
    if exists|i: int| 0 <= i < head.len() - 1 && #[trigger] head[i] == ':' && head[i + 1] == ':' {
        let i = choose|i: int|
            0 <= i < head.len() - 1 && #[trigger] head[i] == ':' && head[i + 1] == ':';
        assert(gap_at(head, i));
    }
    if forall|i: int| 0 <= i < head.len() ==> may_stand_in_v6(#[trigger] head[i]) && head[i] != '.' {
        assert forall|i: int| 0 <= i < entry.len() implies is_v6_char(#[trigger] entry[i]) by {
            if i < at {
                assert(may_stand_in_v6(head[i]));
            }
        }
    } else {
        let i = choose|i: int|
            0 <= i < head.len() && !(may_stand_in_v6(#[trigger] head[i]) && head[i] != '.');
        if head[i] != '.' {
            lemma_v6_char(head[i]);
            assert(entry[i] == head[i]);
            assert(!is_v6_char(entry[i]));
        }
    }
}

/// The colons of a text are counted.
proof fn lemma_colons_filter(text: Seq<char>)
    ensures
        colons(text) == text.filter(|c: char| c == ':').len(),
    decreases text.len(),
{
    reveal(Seq::filter);
    if text.len() > 0 {
        lemma_colons_filter(text.drop_last());
    }
}

/// A list of names is seen as their contents, each in its place, and the interfaces of the
/// machine as they are, where they are known.
pub proof fn law_names_are_seen_whole(
    names: Seq<Vec<u8>>,
    i: int,
    interfaces: Option<Vec<NetworkInterface>>,
)
    ensures
        name_views(names).len() == names.len(),
        0 <= i < names.len() ==> name_views(names)[i] == names[i]@,
        interfaces_view(interfaces) is Some <==> interfaces is Some,
        interfaces is Some ==> interfaces_view(interfaces) == Some(interfaces->0@),
{
}

/// Endpoints are in order exactly if each comes before all that follow it.
pub proof fn law_endpoints_in_order(addrs: Seq<SocketAddr>, next: SocketAddr)
    ensures
        in_order(Seq::empty()),
        in_order(addrs.push(next)) <==> in_order(addrs) && forall|i: int|
            0 <= i < addrs.len() ==> (#[trigger] addrs[i]).precedes(next),
{
    let more = addrs.push(next);
    if in_order(more) {
        assert forall|i: int, j: int| 0 <= i < j < addrs.len() implies (
        #[trigger] addrs[i]).precedes(#[trigger] addrs[j]) by {
            assert(more[i].precedes(more[j]));
        }
        assert forall|i: int| 0 <= i < addrs.len() implies (#[trigger] addrs[i]).precedes(next) by {
            assert(more[i].precedes(more[addrs.len() as int]));
        }
    }
    if in_order(addrs) && forall|i: int|
        0 <= i < addrs.len() ==> (#[trigger] addrs[i]).precedes(next) {
        assert forall|i: int, j: int| 0 <= i < j < more.len() implies (
        #[trigger] more[i]).precedes(#[trigger] more[j]) by {
            assert(more[i] == addrs[i]);
            if j < addrs.len() {
                assert(more[j] == addrs[j]);
            }
        }
    }
}

/// Where only one IP version is asked for, endpoints of the other one are not allowed; where none
/// is, all are; where both are, there is no version.
pub proof fn law_only_the_version_asked_for(only_ipv4: bool, only_ipv6: bool, addr: SocketAddr)
    ensures
        version_of(only_ipv4, only_ipv6) is None <==> only_ipv4 && only_ipv6,
        version_of(only_ipv4, only_ipv6) matches Some(version) ==> (version.allows(addr) <==> !(
        only_ipv4 && addr is V6) && !(only_ipv6 && addr is V4)),
{
}

} // verus!
