//! Links over KCP, a reliable protocol over datagrams.
//!
//! The datagrams of a link go over UDP or over fake TCP, in both cases with or without
//! forward error correction.

use crate::addr::SocketAddr;
use crate::error::TransportError;
use crate::fec::config::FecConfig;
use crate::link::{
    link_wanted, outgoing_tags, redundant, tag_views, wanted_tag, Direction, LinkFilter, LinkInfo,
    LinkTag, TagView,
};
use crate::net::{
    bind_addr_for, bind_endpoint, hosts_with_port, in_order, interfaces_view,
    lemma_in_order_distinct, resolve_hosts, with_port, NetworkInterface,
};
use crate::phantun::config::PhantunConfig;
use crate::phantun::multi::PhantunMultiStack;
use crate::text::{list, listed, text_views};
use vstd::prelude::*;

pub use crate::net::IpVersion;
pub use kcp_tokio::KcpConfig;

verus! {

/// `kcp_tokio::KcpConfig`, the parameters of the KCP protocol. They are passed on unread.
#[verifier::external_type_specification]
#[verifier::external_body]
pub struct ExKcpConfig(kcp_tokio::KcpConfig);

/// Which KCP links are redundant.
pub type KcpLinkFilter = LinkFilter;

/// Identifies a KCP link.
pub type KcpLinkTag = LinkTag;

/// How often hosts are resolved anew, in nanoseconds, unless set otherwise.
pub const RESOLVE_INTERVAL: u128 = 10_000_000_000;

/// How to connect.
#[derive(Debug)]
pub enum KcpConnect {
    /// Over fake TCP.
    Phantun {
        /// With this error correction.
        fec: Option<FecConfig>,
    },
    /// Over UDP.
    Udp {
        /// From this endpoint.
        bind_addr: SocketAddr,
        /// With this error correction.
        fec: Option<FecConfig>,
    },
}

/// How to connect from an endpoint: over fake TCP where it is enabled, and otherwise over UDP.
pub open spec fn connect_plan(
    bind_addr: SocketAddr,
    phantun: bool,
    fec: Option<FecConfig>,
) -> KcpConnect {
    if phantun {
        KcpConnect::Phantun { fec }
    } else {
        KcpConnect::Udp { bind_addr, fec }
    }
}

/// KCP transport for outgoing connections.
pub struct KcpConnector {
    /// The hosts to connect to, each with a port.
    pub hosts: Vec<String>,
    /// The parameters of the KCP protocol.
    pub kcp_config: KcpConfig,
    /// The IP version used for connecting.
    pub ip_version: IpVersion,
    /// How often hosts are resolved anew, in nanoseconds.
    pub resolve_interval: u128,
    /// Which links are redundant.
    pub link_filter: LinkFilter,
    /// Whether each interface gets links of its own.
    pub multi_interface: bool,
    /// Forward error correction, where it is enabled.
    pub fec_config: Option<FecConfig>,
    /// Fake TCP, where it is enabled.
    pub phantun_multi_stack: Option<PhantunMultiStack>,
}

impl KcpConnector {
    /// There is a host.
    pub open spec fn wf(&self) -> bool {
        self.hosts@.len() > 0
    }

    /// Creates a transport to `hosts`, of which `resolved` are the endpoints. There must be
    /// one. Hosts are IP addresses and host names; those without a port get `default_port`.
    /// `multi_interface` is whether each interface gets links of its own on this platform,
    /// unless set otherwise.
    pub fn new(
        hosts: Vec<String>,
        default_port: u16,
        kcp_config: KcpConfig,
        resolved: &Vec<SocketAddr>,
        multi_interface: bool,
    ) -> (r: Result<KcpConnector, TransportError>)
        ensures
            match r {
                Ok(c) => {
                    &&& hosts@.len() > 0
                    &&& resolved@.len() > 0
                    &&& c.wf()
                    &&& text_views(c.hosts@) == Seq::new(
                        hosts@.len(),
                        |i: int| with_port(hosts@[i]@, default_port),
                    )
                    &&& c.kcp_config == kcp_config
                    &&& c.ip_version == IpVersion::Both
                    &&& c.resolve_interval == RESOLVE_INTERVAL
                    &&& c.link_filter == LinkFilter::InterfaceInterface
                    &&& c.multi_interface == multi_interface
                    &&& c.fec_config is None
                    &&& c.phantun_multi_stack is None
                },
                Err(e) => if hosts@.len() == 0 {
                    e == TransportError::NoHosts
                } else {
                    resolved@.len() == 0 && e == TransportError::Unresolved
                },
            },
    {
        let hosts = match hosts_with_port(hosts, default_port) {
            Ok(hosts) => hosts,
            Err(e) => {
                return Err(e);
            },
        };
        assert(text_views(hosts@).len() == hosts@.len());
        let this = KcpConnector {
            hosts,
            kcp_config,
            ip_version: IpVersion::Both,
            resolve_interval: RESOLVE_INTERVAL,
            link_filter: LinkFilter::InterfaceInterface,
            multi_interface,
            fec_config: None,
            phantun_multi_stack: None,
        };
        let addrs = this.resolve(resolved);
        if addrs.len() == 0 {
            proof {
                if resolved@.len() > 0 {
                    assert(resolved@.contains(resolved@[0]));
                    assert(addrs@.contains(resolved@[0]));
                }
            }
            return Err(TransportError::Unresolved);
        }
        assert(addrs@.contains(addrs@[0]));
        Ok(this)
    }

    /// Picks the endpoints to connect to from all that the hosts resolved to.
    pub fn resolve(&self, resolved: &Vec<SocketAddr>) -> (addrs: Vec<SocketAddr>)
        ensures
            in_order(addrs@),
            forall|a: SocketAddr| #[trigger]
                addrs@.contains(a) <==> resolved@.contains(a) && self.ip_version.allows(a),
    {
        resolve_hosts(resolved, self.ip_version)
    }

    /// Sets the parameters of the KCP protocol.
    pub fn set_kcp_config(&mut self, kcp_config: KcpConfig)
        ensures
            *final(self) == (KcpConnector { kcp_config, ..*old(self) }),
    {
        self.kcp_config = kcp_config;
    }

    /// Sets the IP version used for connecting.
    pub fn set_ip_version(&mut self, ip_version: IpVersion)
        ensures
            *final(self) == (KcpConnector { ip_version, ..*old(self) }),
    {
        self.ip_version = ip_version;
    }

    /// Sets how often hosts are resolved anew and interfaces are looked at, in nanoseconds.
    pub fn set_resolve_interval(&mut self, resolve_interval: u128)
        ensures
            *final(self) == (KcpConnector { resolve_interval, ..*old(self) }),
    {
        self.resolve_interval = resolve_interval;
    }

    /// Sets which links are redundant.
    pub fn set_link_filter(&mut self, link_filter: KcpLinkFilter)
        ensures
            *final(self) == (KcpConnector { link_filter, ..*old(self) }),
    {
        self.link_filter = link_filter;
    }

    /// Sets whether each interface gets links of its own.
    ///
    /// If this is true, a link is established for each pair of endpoint and local interface. Otherwise one link is established for each endpoint, and the
    /// system chooses the interface.
    pub fn set_multi_interface(&mut self, multi_interface: bool)
        ensures
            *final(self) == (KcpConnector { multi_interface, ..*old(self) }),
    {
        self.multi_interface = multi_interface;
    }

    /// Enables forward error correction.
    pub fn set_fec(&mut self, fec_config: FecConfig)
        ensures
            *final(self) == (KcpConnector { fec_config: Some(fec_config), ..*old(self) }),
    {
        self.fec_config = Some(fec_config);
    }

    /// Enables fake TCP. A TUN interface is created for each network interface, when it is
    /// needed.
    pub fn set_phantun(&mut self, phantun_config: PhantunConfig)
        ensures
            final(self).phantun_multi_stack is Some,
            final(self).phantun_multi_stack->0.base_config == phantun_config,
            final(self).phantun_multi_stack->0.registered() == Map::<
                Option<Seq<u8>>,
                u64,
            >::empty(),
            final(self).phantun_multi_stack->0.next_index == 0,
            *final(self) == (KcpConnector {
                phantun_multi_stack: final(self).phantun_multi_stack,
                ..*old(self)
            }),
    {
        self.phantun_multi_stack = Some(PhantunMultiStack::new(phantun_config));
    }

    /// The name of the transport.
    pub fn name(&self) -> (name: &'static str)
        ensures
            name@ == "kcp"@,
    {
        "kcp"
    }

    /// Lists the links that should be set up, each once: to all endpoints that the hosts
    /// resolved to, through all interfaces of the machine or through that which the system
    /// chooses.
    pub fn link_tags(&self, interfaces: &Vec<NetworkInterface>, resolved: &Vec<SocketAddr>) -> (tags:
        Vec<KcpLinkTag>)
        ensures
            tag_views(tags@).no_duplicates(),
            forall|tag: TagView| #[trigger]
                tag_views(tags@).contains(tag) <==> wanted_tag(
                    if self.multi_interface {
                        Some(interfaces@)
                    } else {
                        None
                    },
                    resolved@,
                    tag,
                ) && self.ip_version.allows(tag.remote),
    {
        let addrs = self.resolve(resolved);
        proof {
            lemma_in_order_distinct(addrs@);
            assert forall|tag: TagView, interfaces: Option<Seq<NetworkInterface>>| #[trigger]
                wanted_tag(interfaces, addrs@, tag) <==> wanted_tag(interfaces, resolved@, tag)
                    && self.ip_version.allows(tag.remote) by {
                assert(addrs@.contains(tag.remote) <==> resolved@.contains(tag.remote)
                    && self.ip_version.allows(tag.remote));
            }
        }
        if self.multi_interface {
            outgoing_tags(Some(interfaces), &addrs)
        } else {
            outgoing_tags(None, &addrs)
        }
    }

    /// Decides how to connect a link. `interfaces` are those of the machine, or nothing where
    /// they are not known.
    pub fn connect(&self, tag: &KcpLinkTag, interfaces: &Option<Vec<NetworkInterface>>) -> (r:
        Result<KcpConnect, TransportError>)
        ensures
            ({
                let bind = bind_endpoint(
                    interfaces_view(*interfaces),
                    tag@.interface,
                    tag.remote,
                );
                match r {
                    Ok(plan) => bind is Some && plan == if self.phantun_multi_stack is Some {
                        KcpConnect::Phantun { fec: self.fec_config }
                    } else {
                        KcpConnect::Udp { bind_addr: bind->0, fec: self.fec_config }
                    } && plan == connect_plan(
                        bind->0,
                        self.phantun_multi_stack is Some,
                        self.fec_config,
                    ),
                    Err(e) => bind is None && tag@.interface is Some && (e matches
                        TransportError::NoInterfaceAddress(name) && name@ == tag@.interface->0),
                }
            }),
    {
        let bind_addr = match bind_addr_for(interfaces, &tag.interface, tag.remote) {
            Ok(addr) => addr,
            Err(e) => {
                return Err(e);
            },
        };
        if self.phantun_multi_stack.is_some() {
            Ok(KcpConnect::Phantun { fec: self.fec_config })
        } else {
            Ok(KcpConnect::Udp { bind_addr, fec: self.fec_config })
        }
    }

    /// Decides whether a link is wanted beside the existing ones.
    pub fn link_filter(&self, new: &LinkInfo, existing: &Vec<LinkInfo>) -> (wanted: bool)
        ensures
            wanted == (forall|i: int|
                0 <= i < existing@.len() ==> !redundant(
                    self.link_filter,
                    *new,
                    #[trigger] existing@[i],
                )),
    {
        link_wanted(self.link_filter, new, existing)
    }

    /// The text of the transport: its hosts.
    pub fn text(&self) -> (out: String)
        requires
            self.wf(),
        ensures
            out@ == listed(text_views(self.hosts@)),
    {
        list(&self.hosts)
    }
}

/// How to listen.
#[derive(Debug)]
pub enum KcpListen {
    /// For fake TCP on a port.
    Phantun {
        /// The port.
        port: u16,
        /// With this error correction.
        fec: Option<FecConfig>,
    },
    /// For UDP on an endpoint.
    Udp {
        /// The endpoint.
        bind_addr: SocketAddr,
        /// With this error correction.
        fec: Option<FecConfig>,
    },
}

/// How to listen on an endpoint: for fake TCP where it is enabled, and otherwise for UDP.
pub open spec fn listen_plan(
    bind_addr: SocketAddr,
    phantun: bool,
    fec: Option<FecConfig>,
) -> KcpListen {
    if phantun {
        KcpListen::Phantun { port: bind_addr.spec_port(), fec }
    } else {
        KcpListen::Udp { bind_addr, fec }
    }
}

/// KCP transport for incoming connections.
pub struct KcpAcceptor {
    /// The endpoint to listen on.
    pub bind_addr: SocketAddr,
    /// The parameters of the KCP protocol.
    pub kcp_config: KcpConfig,
    /// Forward error correction, where it is enabled.
    pub fec_config: Option<FecConfig>,
    /// Fake TCP, where it is enabled.
    pub phantun_config: Option<PhantunConfig>,
}

impl KcpAcceptor {
    /// Creates a transport that will listen on `bind_addr`.
    pub fn new(bind_addr: SocketAddr, kcp_config: KcpConfig) -> (a: KcpAcceptor)
        ensures
            a == (KcpAcceptor { bind_addr, kcp_config, fec_config: None, phantun_config: None }),
    {
        KcpAcceptor { bind_addr, kcp_config, fec_config: None, phantun_config: None }
    }

    /// Enables forward error correction. Both sides must use the same shard counts.
    pub fn set_fec(&mut self, fec_config: FecConfig)
        ensures
            *final(self) == (KcpAcceptor { fec_config: Some(fec_config), ..*old(self) }),
    {
        self.fec_config = Some(fec_config);
    }

    /// Enables fake TCP. Connections are then accepted through a TUN interface instead of a
    /// UDP socket.
    pub fn set_phantun(&mut self, phantun_config: PhantunConfig)
        ensures
            *final(self) == (KcpAcceptor { phantun_config: Some(phantun_config), ..*old(self) }),
    {
        self.phantun_config = Some(phantun_config);
    }

    /// The name of the transport.
    pub fn name(&self) -> (name: &'static str)
        ensures
            name@ == "kcp"@,
    {
        "kcp"
    }

    /// Decides how to listen.
    pub fn listen(&self) -> (plan: KcpListen)
        ensures
            plan == if self.phantun_config is Some {
                KcpListen::Phantun { port: self.bind_addr.spec_port(), fec: self.fec_config }
            } else {
                KcpListen::Udp { bind_addr: self.bind_addr, fec: self.fec_config }
            },
            plan == listen_plan(self.bind_addr, self.phantun_config is Some, self.fec_config),
    {
        if self.phantun_config.is_some() {
            KcpListen::Phantun { port: self.bind_addr.port(), fec: self.fec_config }
        } else {
            KcpListen::Udp { bind_addr: self.bind_addr, fec: self.fec_config }
        }
    }

    /// The tag of a link that was accepted.
    pub fn accepted_tag(&self, remote: SocketAddr) -> (tag: KcpLinkTag)
        ensures
            tag@ == (TagView { interface: None, remote, direction: Direction::Incoming }),
    {
        LinkTag { interface: None, remote, direction: Direction::Incoming }
    }
}

/// Both sides of a link use the same carrier and the same error correction, where they are set
/// up alike: fake TCP exactly where it is enabled, and error correction as it was enabled in
/// either case. Over UDP the endpoint is bound to; for fake TCP its port is listened on.
pub proof fn law_both_sides_use_the_same_carrier(
    local: SocketAddr,
    remote: SocketAddr,
    phantun: bool,
    fec: Option<FecConfig>,
)
    ensures
        match connect_plan(local, phantun, fec) {
            KcpConnect::Phantun { fec: f } => phantun && f == fec,
            KcpConnect::Udp { bind_addr, fec: f } => !phantun && bind_addr == local && f == fec,
        },
        match listen_plan(remote, phantun, fec) {
            KcpListen::Phantun { port, fec: f } => phantun && port == remote.spec_port() && f == fec,
            KcpListen::Udp { bind_addr, fec: f } => !phantun && bind_addr == remote && f == fec,
        },
{
}

} // verus!
