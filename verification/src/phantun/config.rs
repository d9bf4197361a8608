//! Configuration of TUN interfaces.

use crate::addr::{Ipv4Addr, Ipv6Addr};
use vstd::prelude::*;

verus! {

/// Configuration of a TUN interface.
///
/// Both sides need a point-to-point TUN interface. The usual addresses are:
///
/// | Role   | `tun_local` (system side) | `tun_peer` (fake-TCP side) |
/// |--------|---------------------------|----------------------------|
/// | Client | 192.168.200.1             | 192.168.200.2              |
/// | Server | 192.168.201.1             | 192.168.201.2              |
#[derive(Debug)]
pub struct PhantunConfig {
    /// Name of the interface. An empty one is chosen by the system.
    pub tun_name: String,
    /// IPv4 address of the interface (system side).
    pub tun_local: Ipv4Addr,
    /// IPv4 address of the other end (fake-TCP side).
    pub tun_peer: Ipv4Addr,
    /// IPv6 address of the interface.
    pub tun_local6: Option<Ipv6Addr>,
    /// IPv6 address of the other end.
    pub tun_peer6: Option<Ipv6Addr>,
}

/// What a configuration says.
#[verifier::ext_equal]
pub struct ConfigView {
    /// Name of the interface.
    pub tun_name: Seq<char>,
    /// IPv4 address of the interface.
    pub tun_local: Ipv4Addr,
    /// IPv4 address of the other end.
    pub tun_peer: Ipv4Addr,
    /// IPv6 address of the interface.
    pub tun_local6: Option<Ipv6Addr>,
    /// IPv6 address of the other end.
    pub tun_peer6: Option<Ipv6Addr>,
}

impl View for PhantunConfig {
    type V = ConfigView;

    open spec fn view(&self) -> ConfigView {
        ConfigView {
            tun_name: self.tun_name@,
            tun_local: self.tun_local,
            tun_peer: self.tun_peer,
            tun_local6: self.tun_local6,
            tun_peer6: self.tun_peer6,
        }
    }
}

impl PhantunConfig {
    /// Configuration with the usual client addresses.
    pub fn client_default() -> (config: PhantunConfig)
        ensures
            config@ == (ConfigView {
                tun_name: Seq::empty(),
                tun_local: Ipv4Addr { bits: 0xc0a8_c801 },
                tun_peer: Ipv4Addr { bits: 0xc0a8_c802 },
                tun_local6: None,
                tun_peer6: None,
            }),
    {
        PhantunConfig {
            tun_name: String::new(),
            tun_local: Ipv4Addr::new(192, 168, 200, 1),
            tun_peer: Ipv4Addr::new(192, 168, 200, 2),
            tun_local6: None,
            tun_peer6: None,
        }
    }

    /// Configuration with the usual server addresses.
    pub fn server_default() -> (config: PhantunConfig)
        ensures
            config@ == (ConfigView {
                tun_name: Seq::empty(),
                tun_local: Ipv4Addr { bits: 0xc0a8_c901 },
                tun_peer: Ipv4Addr { bits: 0xc0a8_c902 },
                tun_local6: None,
                tun_peer6: None,
            }),
    {
        PhantunConfig {
            tun_name: String::new(),
            tun_local: Ipv4Addr::new(192, 168, 201, 1),
            tun_peer: Ipv4Addr::new(192, 168, 201, 2),
            tun_local6: None,
            tun_peer6: None,
        }
    }
}

impl Clone for PhantunConfig {
    fn clone(&self) -> (config: PhantunConfig)
        ensures
            config@ == self@,
    {
        PhantunConfig {
            tun_name: self.tun_name.clone(),
            tun_local: self.tun_local,
            tun_peer: self.tun_peer,
            tun_local6: self.tun_local6,
            tun_peer6: self.tun_peer6,
        }
    }
}

/// What is seen of a configuration is all of it.
pub proof fn law_configurations_are_seen_whole(config: PhantunConfig)
    ensures
        config@.tun_name == config.tun_name@,
        config@.tun_local == config.tun_local,
        config@.tun_peer == config.tun_peer,
        config@.tun_local6 == config.tun_local6,
        config@.tun_peer6 == config.tun_peer6,
{
}

} // verus!
