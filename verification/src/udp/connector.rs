//! UDP transports.

use crate::addr::{IpAddr, SocketAddr};
use crate::error::TransportError;
use crate::link::{
    link_wanted, outgoing_tags, redundant, tag_views, wanted_tag, Direction, LinkFilter, LinkInfo,
    LinkTag, TagView,
};
use crate::net::{
    bind_addr_for, bind_endpoint, hosts_with_port, in_order, interfaces_view,
    lemma_in_order_distinct, resolve_hosts, with_port, IpVersion, NetworkInterface,
};
use crate::text::{list, listed, text_views};
use crate::wire::{copy_bytes, optional_bytes};
use vstd::prelude::*;

verus! {

/// Which UDP links are redundant.
pub type UdpLinkFilter = LinkFilter;

/// Identifies a UDP link.
pub type UdpLinkTag = LinkTag;

/// How often hosts are resolved anew, in nanoseconds, unless set otherwise.
pub const RESOLVE_INTERVAL: u128 = 10_000_000_000;

/// UDP transport for outgoing connections.
#[derive(Debug, Clone)]
pub struct UdpConnector {
    /// The hosts to connect to, each with a port.
    pub hosts: Vec<String>,
    /// The IP version used for connecting.
    pub ip_version: IpVersion,
    /// How often hosts are resolved anew, in nanoseconds.
    pub resolve_interval: u128,
    /// Which links are redundant.
    pub link_filter: LinkFilter,
    /// Whether each interface gets links of its own.
    pub multi_interface: bool,
}

impl UdpConnector {
    /// There is a host.
    pub open spec fn wf(&self) -> bool {
        self.hosts@.len() > 0
    }

    /// A transport to `hosts` as it is at first.
    pub open spec fn initial(
        &self,
        hosts: Seq<String>,
        default_port: u16,
        multi_interface: bool,
    ) -> bool {
        &&& text_views(self.hosts@) == Seq::new(
            hosts.len(),
            |i: int| with_port(hosts[i]@, default_port),
        )
        &&& self.ip_version == IpVersion::Both
        &&& self.resolve_interval == RESOLVE_INTERVAL
        &&& self.link_filter == LinkFilter::InterfaceInterface
        &&& self.multi_interface == multi_interface
    }

    /// Creates a transport to `hosts`, of which `resolved` are the endpoints. There must be
    /// one. `multi_interface` is whether each interface gets links of its own on this
    /// platform, unless set otherwise.
    pub fn new(
        hosts: Vec<String>,
        default_port: u16,
        resolved: &Vec<SocketAddr>,
        multi_interface: bool,
    ) -> (r: Result<UdpConnector, TransportError>)
        ensures
            match r {
                Ok(c) => hosts@.len() > 0 && resolved@.len() > 0 && c.wf() && c.initial(
                    hosts@,
                    default_port,
                    multi_interface,
                ),
                Err(e) => if hosts@.len() == 0 {
                    e == TransportError::NoHosts
                } else {
                    resolved@.len() == 0 && e == TransportError::Unresolved
                },
            },
    {
        let this = match UdpConnector::unresolved(hosts, default_port, multi_interface) {
            Ok(this) => this,
            Err(e) => {
                return Err(e);
            },
        };
        let addrs = this.resolve(resolved);
        if addrs.len() == 0 {
            proof {
                if resolved@.len() > 0 {
                    assert(resolved@.contains(resolved@[0]));
                    assert(addrs@.contains(resolved@[0]));
                }
            }
            return Err(TransportError::Unresolved);
        }
        assert(addrs@.contains(addrs@[0]));
        Ok(this)
    }

    /// Creates a transport to `hosts`, whatever they resolve to. Those without a port get
    /// `default_port`.
    pub fn unresolved(hosts: Vec<String>, default_port: u16, multi_interface: bool) -> (r: Result<
        UdpConnector,
        TransportError,
    >)
        ensures
            match r {
                Ok(c) => hosts@.len() > 0 && c.wf() && c.initial(
                    hosts@,
                    default_port,
                    multi_interface,
                ),
                Err(e) => hosts@.len() == 0 && e == TransportError::NoHosts,
            },
    {
        let hosts = match hosts_with_port(hosts, default_port) {
            Ok(hosts) => hosts,
            Err(e) => {
                return Err(e);
            },
        };
        assert(text_views(hosts@).len() == hosts@.len());
        Ok(
            UdpConnector {
                hosts,
                ip_version: IpVersion::Both,
                resolve_interval: RESOLVE_INTERVAL,
                link_filter: LinkFilter::InterfaceInterface,
                multi_interface,
            },
        )
    }

    /// Sets the IP version used for connecting.
    pub fn set_ip_version(&mut self, ip_version: IpVersion)
        ensures
            *final(self) == (UdpConnector { ip_version, ..*old(self) }),
    {
        self.ip_version = ip_version;
    }

    /// Sets how often hosts are resolved anew and interfaces are looked at, in nanoseconds.
    pub fn set_resolve_interval(&mut self, resolve_interval: u128)
        ensures
            *final(self) == (UdpConnector { resolve_interval, ..*old(self) }),
    {
        self.resolve_interval = resolve_interval;
    }

    /// Sets which links are redundant.
    pub fn set_link_filter(&mut self, link_filter: UdpLinkFilter)
        ensures
            *final(self) == (UdpConnector { link_filter, ..*old(self) }),
    {
        self.link_filter = link_filter;
    }

    /// Sets whether each interface gets links of its own.
    pub fn set_multi_interface(&mut self, multi_interface: bool)
        ensures
            *final(self) == (UdpConnector { multi_interface, ..*old(self) }),
    {
        self.multi_interface = multi_interface;
    }

    /// Picks the endpoints to connect to from all that the hosts resolved to.
    pub fn resolve(&self, resolved: &Vec<SocketAddr>) -> (addrs: Vec<SocketAddr>)
        ensures
            in_order(addrs@),
            forall|a: SocketAddr| #[trigger]
                addrs@.contains(a) <==> resolved@.contains(a) && self.ip_version.allows(a),
    {
        resolve_hosts(resolved, self.ip_version)
    }

    /// The name of the transport.
    pub fn name(&self) -> (name: &'static str)
        ensures
            name@ == "udp"@,
    {
        "udp"
    }

    /// Lists the links that should be set up, each once: to all endpoints that the hosts
    /// resolved to, through all interfaces of the machine or through that which the system
    /// chooses.
    pub fn link_tags(&self, interfaces: &Vec<NetworkInterface>, resolved: &Vec<SocketAddr>) -> (tags:
        Vec<UdpLinkTag>)
        ensures
            tag_views(tags@).no_duplicates(),
            forall|tag: TagView| #[trigger]
                tag_views(tags@).contains(tag) <==> wanted_tag(
                    if self.multi_interface {
                        Some(interfaces@)
                    } else {
                        None
                    },
                    resolved@,
                    tag,
                ) && self.ip_version.allows(tag.remote),
    {
        let addrs = self.resolve(resolved);
        proof {
            lemma_in_order_distinct(addrs@);
            assert forall|tag: TagView, interfaces: Option<Seq<NetworkInterface>>| #[trigger]
                wanted_tag(interfaces, addrs@, tag) <==> wanted_tag(interfaces, resolved@, tag)
                    && self.ip_version.allows(tag.remote) by {
                assert(addrs@.contains(tag.remote) <==> resolved@.contains(tag.remote)
                    && self.ip_version.allows(tag.remote));
            }
        }
        if self.multi_interface {
            outgoing_tags(Some(interfaces), &addrs)
        } else {
            outgoing_tags(None, &addrs)
        }
    }

    /// Decides which endpoint to connect a link from. `interfaces` are those of the machine,
    /// or nothing where they are not known.
    pub fn connect(&self, tag: &UdpLinkTag, interfaces: &Option<Vec<NetworkInterface>>) -> (r:
        Result<SocketAddr, TransportError>)
        ensures
            ({
                let bind = bind_endpoint(
                    interfaces_view(*interfaces),
                    tag@.interface,
                    tag.remote,
                );
                match r {
                    Ok(addr) => bind == Some(addr),
                    Err(e) => bind is None && tag@.interface is Some && (e matches
                        TransportError::NoInterfaceAddress(name) && name@ == tag@.interface->0),
                }
            }),
    {
        bind_addr_for(interfaces, &tag.interface, tag.remote)
    }

    /// Decides whether a link is wanted beside the existing ones.
    pub fn link_filter(&self, new: &LinkInfo, existing: &Vec<LinkInfo>) -> (wanted: bool)
        ensures
            wanted == (forall|i: int|
                0 <= i < existing@.len() ==> !redundant(
                    self.link_filter,
                    *new,
                    #[trigger] existing@[i],
                )),
    {
        link_wanted(self.link_filter, new, existing)
    }

    /// The text of the transport: its hosts.
    pub fn text(&self) -> (out: String)
        requires
            self.wf(),
        ensures
            out@ == listed(text_views(self.hosts@)),
    {
        list(&self.hosts)
    }
}

/// Where to listen.
#[derive(Debug, Clone)]
pub struct UdpBind {
    /// The endpoint.
    pub addr: SocketAddr,
    /// The interface.
    pub interface: Option<Vec<u8>>,
}

/// Where to listen.
pub struct BindView {
    /// The endpoint.
    pub addr: SocketAddr,
    /// The interface.
    pub interface: Option<Seq<u8>>,
}

impl View for UdpBind {
    type V = BindView;

    open spec fn view(&self) -> BindView {
        BindView { addr: self.addr, interface: optional_bytes(self.interface) }
    }
}

impl UdpBind {
    /// The tag of a link that was accepted there.
    pub fn accepted_tag(&self, remote: SocketAddr) -> (tag: UdpLinkTag)
        ensures
            tag@ == (TagView {
                interface: self@.interface,
                remote,
                direction: Direction::Incoming,
            }),
    {
        match &self.interface {
            Some(name) => LinkTag::new(Some(name.as_slice()), remote, Direction::Incoming),
            None => LinkTag::new(None, remote, Direction::Incoming),
        }
    }
}

/// What places to listen say.
pub open spec fn bind_views(binds: Seq<UdpBind>) -> Seq<BindView> {
    Seq::new(binds.len(), |i: int| binds[i]@)
}

/// The places to listen on one interface: its first `n` addresses, without the unspecified
/// ones.
pub open spec fn interface_binds(iface: NetworkInterface, n: nat, port: u16) -> Seq<BindView>
    decreases n,
{
    if n == 0 {
        Seq::empty()
    } else {
        let rest = interface_binds(iface, (n - 1) as nat, port);
        let ip = iface.addr@[n - 1];
        if ip.unspecified() {
            rest
        } else {
            rest.push(
                BindView {
                    addr: SocketAddr::spec_new(ip, port),
                    interface: Some(iface.name@),
                },
            )
        }
    }
}

/// The places to listen on all interfaces.
pub open spec fn all_binds(interfaces: Seq<NetworkInterface>, port: u16) -> Seq<BindView>
    decreases interfaces.len(),
{
    if interfaces.len() == 0 {
        Seq::empty()
    } else {
        all_binds(interfaces.drop_last(), port) + interface_binds(
            interfaces.last(),
            interfaces.last().addr@.len(),
            port,
        )
    }
}

/// UDP transport for incoming connections.
#[derive(Debug, Clone)]
pub struct UdpAcceptor {
    /// Where to listen.
    pub binds: Vec<UdpBind>,
}

impl UdpAcceptor {
    /// There is a place to listen.
    pub open spec fn wf(&self) -> bool {
        self.binds@.len() > 0
    }

    /// Creates a transport that listens on one endpoint.
    pub fn new(bind_addr: SocketAddr) -> (a: UdpAcceptor)
        ensures
            a.wf(),
            bind_views(a.binds@) == seq![BindView { addr: bind_addr, interface: None }],
    {
        let mut binds: Vec<UdpBind> = Vec::new();
        binds.push(UdpBind { addr: bind_addr, interface: None });
        assert(bind_views(binds@) =~= seq![BindView { addr: bind_addr, interface: None }]);
        UdpAcceptor { binds }
    }

    /// Creates a transport that listens on each address of the interfaces of the machine.
    pub fn all_interfaces(interfaces: &Vec<NetworkInterface>, port: u16) -> (r: Result<
        UdpAcceptor,
        TransportError,
    >)
        ensures
            match r {
                Ok(a) => a.wf() && bind_views(a.binds@) == all_binds(interfaces@, port),
                Err(e) => all_binds(interfaces@, port).len() == 0 && e
                    == TransportError::NoLocalAddress,
            },
    {
        let mut binds: Vec<UdpBind> = Vec::new();
        let mut i: usize = 0;
        assert(interfaces@.take(0) =~= Seq::empty());
        assert(bind_views(binds@) =~= all_binds(interfaces@.take(0), port));
        while i < interfaces.len()
            invariant
                i <= interfaces@.len(),
                bind_views(binds@) == all_binds(interfaces@.take(i as int), port),
            decreases interfaces@.len() - i,
        {
            proof {
                assert(interfaces@.take(i + 1).drop_last() =~= interfaces@.take(i as int));
            }
            push_binds(&mut binds, &interfaces[i], port);
            i += 1;
        }
        assert(interfaces@.take(i as int) =~= interfaces@);
        assert(bind_views(binds@).len() == binds@.len());
        if binds.len() == 0 {
            return Err(TransportError::NoLocalAddress);
        }
        Ok(UdpAcceptor { binds })
    }

    /// The name of the transport.
    pub fn name(&self) -> (name: &'static str)
        ensures
            name@ == "udp"@,
    {
        "udp"
    }

    /// The text of the transport: its endpoints, with `addrs` for their texts.
    pub fn text(&self, addrs: &Vec<String>) -> (out: String)
        requires
            self.wf(),
            addrs@.len() == self.binds@.len(),
        ensures
            out@ == listed(text_views(addrs@)),
    {
        list(addrs)
    }
}

/// Adds the places to listen on one interface.
fn push_binds(binds: &mut Vec<UdpBind>, iface: &NetworkInterface, port: u16)
    ensures
        bind_views(final(binds)@) == bind_views(old(binds)@) + interface_binds(
            *iface,
            iface.addr@.len(),
            port,
        ),
{
    let ghost first = bind_views(binds@);
    let mut i: usize = 0;
    assert(first =~= first + interface_binds(*iface, 0, port));
    while i < iface.addr.len()
        invariant
            i <= iface.addr@.len(),
            bind_views(binds@) == first + interface_binds(*iface, i as nat, port),
        decreases iface.addr@.len() - i,
    {
        let ghost before = bind_views(binds@);
        let ip = iface.addr[i];
        if !ip.is_unspecified() {
            let bind = UdpBind {
                addr: SocketAddr::new(ip, port),
                interface: Some(copy_bytes(&iface.name)),
            };
            binds.push(bind);
            assert(bind_views(binds@) =~= before.push(bind@));
        }
        assert(bind_views(binds@) =~= first + interface_binds(*iface, (i + 1) as nat, port));
        i += 1;
    }
}

/// The places to listen are exactly the addresses of all interfaces that are not unspecified,
/// each with the port and the name of its interface.
#[verifier::rlimit(60)]
pub proof fn law_every_address_is_listened_on(
    interfaces: Seq<NetworkInterface>,
    port: u16,
    place: BindView,
)
    ensures
        all_binds(interfaces, port).contains(place) <==> exists|i: int, j: int|
            0 <= i < interfaces.len() && 0 <= j < interfaces[i].addr@.len()
                && !(#[trigger] interfaces[i].addr@[j]).unspecified() && place.addr
                == SocketAddr::spec_new(interfaces[i].addr@[j], port) && place.interface == Some(
                interfaces[i].name@,
            ),
    decreases interfaces.len(),
{
    if interfaces.len() > 0 {
        let rest = interfaces.drop_last();
        let n = interfaces.len() - 1;
        let last = interfaces.last();
        let here = interface_binds(last, last.addr@.len(), port);
        let before = all_binds(rest, port);
        law_every_address_is_listened_on(rest, port, place);
        lemma_interface_binds(last, last.addr@.len(), port, place);
        assert((before + here).contains(place) <==> before.contains(place) || here.contains(place)) by {
            if before.contains(place) {
                let k = choose|k: int| 0 <= k < before.len() && before[k] == place;
                assert((before + here)[k] == place);
            }
            if here.contains(place) {
                let k = choose|k: int| 0 <= k < here.len() && here[k] == place;
                assert((before + here)[before.len() + k] == place);
            }
        }
        if before.contains(place) {
            let (i, j) = choose|i: int, j: int|
                0 <= i < rest.len() && 0 <= j < rest[i].addr@.len()
                    && !(#[trigger] rest[i].addr@[j]).unspecified() && place.addr
                    == SocketAddr::spec_new(rest[i].addr@[j], port) && place.interface == Some(
                    rest[i].name@,
                );
            assert(interfaces[i].addr@[j] == rest[i].addr@[j]);
        }
        if here.contains(place) {
            let j = choose|j: int|
                0 <= j < last.addr@.len() && !(#[trigger] last.addr@[j]).unspecified() && place.addr
                    == SocketAddr::spec_new(last.addr@[j], port) && place.interface == Some(
                    last.name@,
                );
            assert(interfaces[n].addr@[j] == last.addr@[j]);
        }
        if exists|i: int, j: int|
            0 <= i < interfaces.len() && 0 <= j < interfaces[i].addr@.len()
                && !(#[trigger] interfaces[i].addr@[j]).unspecified() && place.addr
                == SocketAddr::spec_new(interfaces[i].addr@[j], port) && place.interface == Some(
                interfaces[i].name@,
            ) {
            let (i, j) = choose|i: int, j: int|
                0 <= i < interfaces.len() && 0 <= j < interfaces[i].addr@.len()
                    && !(#[trigger] interfaces[i].addr@[j]).unspecified() && place.addr
                    == SocketAddr::spec_new(interfaces[i].addr@[j], port) && place.interface
                    == Some(interfaces[i].name@);
            if i < n {
                assert(rest[i].addr@[j] == interfaces[i].addr@[j]);
            } else {
                assert(last.addr@[j] == interfaces[i].addr@[j]);
            }
        }
    }
}

/// The places to listen on one interface.
proof fn lemma_interface_binds(iface: NetworkInterface, n: nat, port: u16, place: BindView)
    requires
        n <= iface.addr@.len(),
    ensures
        interface_binds(iface, n, port).contains(place) <==> exists|j: int|
            0 <= j < n && !(#[trigger] iface.addr@[j]).unspecified() && place.addr
                == SocketAddr::spec_new(iface.addr@[j], port) && place.interface == Some(
                iface.name@,
            ),
    decreases n,
{
    if n > 0 {
        let rest = interface_binds(iface, (n - 1) as nat, port);
        let all = interface_binds(iface, n, port);
        let ip = iface.addr@[n - 1];
        lemma_interface_binds(iface, (n - 1) as nat, port, place);
        if !ip.unspecified() {
            assert(all[rest.len() as int].addr == SocketAddr::spec_new(ip, port));
            if rest.contains(place) {
                let k = choose|k: int| 0 <= k < rest.len() && rest[k] == place;
                assert(all[k] == place);
            }
            if place.addr == SocketAddr::spec_new(ip, port) && place.interface == Some(iface.name@) {
                assert(all[rest.len() as int] == place);
            }
            if all.contains(place) {
                let k = choose|k: int| 0 <= k < all.len() && all[k] == place;
                if k < rest.len() {
                    assert(rest[k] == place);
                } else {
                    assert(iface.addr@[n - 1] == ip);
                }
            }
        }
    }
}

/// No place to listen is lost or added between interfaces: those of two lists of interfaces are
/// those of the first followed by those of the second. Those of one interface are as many as its
/// addresses that are not unspecified, in their order, each with the port and the name.
#[verifier::rlimit(60)]
pub proof fn law_places_to_listen_are_in_order(
    a: Seq<NetworkInterface>,
    b: Seq<NetworkInterface>,
    iface: NetworkInterface,
    port: u16,
)
    ensures
        all_binds(a + b, port) == all_binds(a, port) + all_binds(b, port),
        all_binds(seq![iface], port) == iface.addr@.filter(
            |ip: IpAddr| !ip.unspecified(),
        ).map_values(
            |ip: IpAddr|
                BindView { addr: SocketAddr::spec_new(ip, port), interface: Some(iface.name@) },
        ),
    decreases b.len(),
{
    reveal_with_fuel(all_binds, 2);
    let one = seq![iface];
    assert(one.drop_last() =~= Seq::empty());
    assert(one.last() == iface);
    lemma_interface_binds_in_order(iface, iface.addr@.len(), port);
    assert(iface.addr@.take(iface.addr@.len() as int) =~= iface.addr@);
    assert(all_binds(one, port) =~= interface_binds(iface, iface.addr@.len(), port));
    if b.len() == 0 {
        assert(a + b =~= a);
        assert(all_binds(a, port) + all_binds(b, port) =~= all_binds(a, port));
    } else {
        law_places_to_listen_are_in_order(a, b.drop_last(), iface, port);
        assert((a + b).drop_last() =~= a + b.drop_last());
        assert(all_binds(a + b, port) =~= all_binds(a, port) + all_binds(b, port));
    }
}

/// The places to listen on one interface, in order.
proof fn lemma_interface_binds_in_order(iface: NetworkInterface, n: nat, port: u16)
    requires
        n <= iface.addr@.len(),
    ensures
        interface_binds(iface, n, port) == iface.addr@.take(n as int).filter(
            |ip: IpAddr| !ip.unspecified(),
        ).map_values(
            |ip: IpAddr|
                BindView { addr: SocketAddr::spec_new(ip, port), interface: Some(iface.name@) },
        ),
    decreases n,
{
    reveal(Seq::filter);
    let usable = |ip: IpAddr| !ip.unspecified();
    let place = |ip: IpAddr|
        BindView { addr: SocketAddr::spec_new(ip, port), interface: Some(iface.name@) };
    let addrs = iface.addr@.take(n as int);
    if n == 0 {
        assert(interface_binds(iface, n, port) =~= addrs.filter(usable).map_values(place));
    } else {
        lemma_interface_binds_in_order(iface, (n - 1) as nat, port);
        assert(addrs.drop_last() =~= iface.addr@.take(n - 1));
        assert(interface_binds(iface, n, port) =~= addrs.filter(usable).map_values(place));
    }
}

/// A transport at first connects to all hosts, each with a port, in both IP versions. It resolves
/// them anew every ten seconds, and sets up one link for each pair of interfaces.
pub proof fn law_transports_at_first(
    c: UdpConnector,
    hosts: Seq<String>,
    default_port: u16,
    multi_interface: bool,
    i: int,
)
    requires
        c.initial(hosts, default_port, multi_interface),
    ensures
        c.hosts@.len() == hosts.len(),
        0 <= i < hosts.len() ==> c.hosts@[i]@ == with_port(hosts[i]@, default_port),
        c.ip_version == IpVersion::Both,
        c.resolve_interval == 10_000_000_000,
        c.link_filter == LinkFilter::InterfaceInterface,
        c.multi_interface == multi_interface,
{
    assert(text_views(c.hosts@).len() == hosts.len());
    if 0 <= i < hosts.len() {
        assert(text_views(c.hosts@)[i] == c.hosts@[i]@);
    }
}

/// What is seen of a place to listen is all of it, and of a list of places each one in turn.
pub proof fn law_places_are_seen_whole(bind: UdpBind, binds: Seq<UdpBind>, i: int)
    ensures
        bind_views(binds).len() == binds.len(),
        0 <= i < binds.len() ==> bind_views(binds)[i] == binds[i]@,
        bind@.addr == bind.addr,
        bind@.interface is None <==> bind.interface is None,
        bind.interface is Some ==> bind@.interface == Some(bind.interface->0@),
{
}

} // verus!
