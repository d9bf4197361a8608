//! One TUN interface for each network interface.

use crate::addr::{Ipv4Addr, Ipv6Addr};
use crate::phantun::config::{ConfigView, PhantunConfig};
use crate::text::{decimal, push_decimal};
use crate::wire::{copy_optional_bytes, optional_bytes, same_optional_bytes};
use vstd::prelude::*;
use vstd::string::*;

verus! {

/// An address moved on by `index` subnets of four addresses.
pub open spec fn moved_v4(ip: Ipv4Addr, index: u8) -> Ipv4Addr {
    Ipv4Addr { bits: ((ip.bits + index * 4) % 0x1_0000_0000) as u32 }
}

/// An address moved on by `index` subnets of four addresses, within its last 16 bits.
pub open spec fn moved_v6(ip: Ipv6Addr, index: u8) -> Ipv6Addr {
    Ipv6Addr {
        bits: (ip.bits as int - ip.bits as int % 0x1_0000 + (ip.bits as int % 0x1_0000 + index * 4)
            % 0x1_0000) as u128,
    }
}

/// An optional address moved on.
pub open spec fn moved_optional(ip: Option<Ipv6Addr>, index: u8) -> Option<Ipv6Addr> {
    match ip {
        Some(ip) => Some(moved_v6(ip, index)),
        None => None,
    }
}

/// The configuration of the TUN interface number `index`. The first one is the base itself;
/// the others are numbered, and each has its own subnet of four addresses.
pub open spec fn config_at(base: ConfigView, index: u8) -> ConfigView {
    if index == 0 {
        base
    } else {
        ConfigView {
            tun_name: if base.tun_name.len() == 0 {
                Seq::empty()
            } else {
                base.tun_name + decimal(index as nat)
            },
            tun_local: moved_v4(base.tun_local, index),
            tun_peer: moved_v4(base.tun_peer, index),
            tun_local6: moved_optional(base.tun_local6, index),
            tun_peer6: moved_optional(base.tun_peer6, index),
        }
    }
}

/// Moves an address on.
fn move_v4(ip: Ipv4Addr, index: u8) -> (r: Ipv4Addr)
    ensures
        r == moved_v4(ip, index),
{
    let offset: u32 = index as u32 * 4;
    Ipv4Addr { bits: ip.bits.wrapping_add(offset) }
}

/// Moves an address on.
fn move_v6(ip: Ipv6Addr, index: u8) -> (r: Ipv6Addr)
    ensures
        r == moved_v6(ip, index),
{
    let offset: u128 = index as u128 * 4;
    let last: u128 = ip.bits % 0x1_0000;
    Ipv6Addr { bits: ip.bits - last + (last + offset) % 0x1_0000 }
}

/// Moves an optional address on.
fn move_optional(ip: Option<Ipv6Addr>, index: u8) -> (r: Option<Ipv6Addr>)
    ensures
        r == moved_optional(ip, index),
{
    match ip {
        Some(ip) => Some(move_v6(ip, index)),
        None => None,
    }
}

/// What to do for a network interface.
#[derive(Debug)]
pub enum GetOrCreate {
    /// Use this stack.
    Existing(u64),
    /// Create a stack with this configuration and register it.
    Create(PhantunConfig),
}

/// The stacks by network interface; each is known by a number.
pub struct PhantunMultiStack {
    /// The configuration of the first stack.
    pub base_config: PhantunConfig,
    /// The stack of each network interface.
    pub stacks: Vec<(Option<Vec<u8>>, u64)>,
    /// The index of the next stack.
    pub next_index: u8,
}

/// The stacks in a list.
pub open spec fn stack_map(stacks: Seq<(Option<Vec<u8>>, u64)>) -> Map<Option<Seq<u8>>, u64>
    decreases stacks.len(),
{
    if stacks.len() == 0 {
        Map::empty()
    } else {
        stack_map(stacks.drop_last()).insert(optional_bytes(stacks.last().0), stacks.last().1)
    }
}

/// The stack of a network interface, or the configuration with which to create one.
pub open spec fn stack_or_config(
    registered: Map<Option<Seq<u8>>, u64>,
    base: ConfigView,
    next_index: u8,
    interface: Option<Seq<u8>>,
) -> Result<u64, ConfigView> {
    if registered.contains_key(interface) {
        Ok(registered[interface])
    } else {
        Err(config_at(base, next_index))
    }
}

impl PhantunMultiStack {
    /// The stack of each network interface.
    pub open spec fn registered(&self) -> Map<Option<Seq<u8>>, u64> {
        stack_map(self.stacks@)
    }

    /// No stack exists at first. They are created when they are needed.
    pub fn new(base_config: PhantunConfig) -> (m: PhantunMultiStack)
        ensures
            m.base_config == base_config,
            m.registered() == Map::<Option<Seq<u8>>, u64>::empty(),
            m.next_index == 0,
    {
        PhantunMultiStack { base_config, stacks: Vec::new(), next_index: 0 }
    }

    /// The stack of a network interface, if there is one.
    fn find(&self, interface: &Option<Vec<u8>>) -> (r: Option<u64>)
        ensures
            match r {
                Some(stack) => self.registered().contains_key(optional_bytes(*interface))
                    && self.registered()[optional_bytes(*interface)] == stack,
                None => !self.registered().contains_key(optional_bytes(*interface)),
            },
    {
        let ghost key = optional_bytes(*interface);
        let ghost all = self.registered();
        let mut i: usize = self.stacks.len();
        assert(self.stacks@.take(i as int) =~= self.stacks@);
        while i > 0
            invariant
                i <= self.stacks@.len(),
                key == optional_bytes(*interface),
                all == self.registered(),
                all.contains_key(key) == stack_map(self.stacks@.take(i as int)).contains_key(key),
                all.contains_key(key) ==> all[key] == stack_map(self.stacks@.take(i as int))[key],
            decreases i,
        {
            assert(self.stacks@.take(i as int).drop_last() =~= self.stacks@.take(i - 1));
            i -= 1;
            if same_optional_bytes(&self.stacks[i].0, interface) {
                return Some(self.stacks[i].1);
            }
        }
        None
    }

    /// Decides what to do for a network interface: use the stack that it has, or create one
    /// with the next configuration. The configuration stays the next one until the stack is
    /// registered.
    pub fn get_or_create(&self, interface: &Option<Vec<u8>>) -> (r: GetOrCreate)
        ensures
            match r {
                GetOrCreate::Existing(stack) => self.registered().contains_key(
                    optional_bytes(*interface),
                ) && stack == self.registered()[optional_bytes(*interface)],
                GetOrCreate::Create(config) => !self.registered().contains_key(
                    optional_bytes(*interface),
                ) && config@ == config_at(self.base_config@, self.next_index),
            },
            stack_or_config(
                self.registered(),
                self.base_config@,
                self.next_index,
                optional_bytes(*interface),
            ) == match r {
                GetOrCreate::Existing(stack) => Ok::<u64, ConfigView>(stack),
                GetOrCreate::Create(config) => Err::<u64, ConfigView>(config@),
            },
    {
        match self.find(interface) {
            Some(stack) => GetOrCreate::Existing(stack),
            None => GetOrCreate::Create(self.config_for_index(self.next_index)),
        }
    }

    /// Registers the stack that was created for a network interface. The next stack gets the
    /// next configuration.
    pub fn register(&mut self, interface: &Option<Vec<u8>>, stack: u64)
        ensures
            final(self).base_config == old(self).base_config,
            final(self).next_index == old(self).next_index.wrapping_add(1),
            final(self).registered() == old(self).registered().insert(
                optional_bytes(*interface),
                stack,
            ),
    {
        let ghost before = self.stacks@;
        self.stacks.push((copy_optional_bytes(interface), stack));
        self.next_index = self.next_index.wrapping_add(1);
        assert(self.stacks@.drop_last() =~= before);
    }

    /// The configuration of the TUN interface number `index`.
    pub fn config_for_index(&self, index: u8) -> (config: PhantunConfig)
        ensures
            config@ == config_at(self.base_config@, index),
    {
        let base = &self.base_config;
        if index == 0 {
            return base.clone();
        }
        let tun_name: String = if base.tun_name.as_str().unicode_len() == 0 {
            String::new()
        } else {
            let mut name: String = base.tun_name.clone();
            push_decimal(&mut name, index as u64);
            name
        };
        let config = PhantunConfig {
            tun_name,
            tun_local: move_v4(base.tun_local, index),
            tun_peer: move_v4(base.tun_peer, index),
            tun_local6: move_optional(base.tun_local6, index),
            tun_peer6: move_optional(base.tun_peer6, index),
        };
        assert(config@ =~= config_at(self.base_config@, index));
        config
    }
}

/// The base is a pair of addresses of one subnet of four addresses, in both IP versions.
pub open spec fn is_pair(base: ConfigView) -> bool {
    &&& base.tun_local.bits / 4 == base.tun_peer.bits / 4
    &&& base.tun_local6 is Some && base.tun_peer6 is Some ==> base.tun_local6->0.bits / 4
        == base.tun_peer6->0.bits / 4
}

/// TUN interfaces with different numbers lie in different subnets of four addresses, in both
/// IP versions: their local addresses do, their peers do, and, where the addresses of the
/// base are a pair, so do the local address of one and the peer of the other. So no address
/// is used twice.
pub proof fn law_subnets_are_disjoint(base: ConfigView, i: u8, j: u8)
    requires
        i != j,
    ensures
        ({
            let a = config_at(base, i);
            let b = config_at(base, j);
            &&& a.tun_local.bits / 4 != b.tun_local.bits / 4
            &&& a.tun_peer.bits / 4 != b.tun_peer.bits / 4
            &&& is_pair(base) ==> a.tun_local.bits / 4 != b.tun_peer.bits / 4
            &&& base.tun_local6 is Some ==> a.tun_local6->0.bits / 4 != b.tun_local6->0.bits / 4
            &&& base.tun_peer6 is Some ==> a.tun_peer6->0.bits / 4 != b.tun_peer6->0.bits / 4
            &&& is_pair(base) && base.tun_local6 is Some && base.tun_peer6 is Some
                ==> a.tun_local6->0.bits / 4 != b.tun_peer6->0.bits / 4
        }),
{
    lemma_moved_v4(base.tun_local, base.tun_local, i, j);
    lemma_moved_v4(base.tun_peer, base.tun_peer, i, j);
    if is_pair(base) {
        lemma_moved_v4(base.tun_local, base.tun_peer, i, j);
    }
    if base.tun_local6 is Some {
        lemma_moved_v6(base.tun_local6->0, base.tun_local6->0, i, j);
    }
    if base.tun_peer6 is Some {
        lemma_moved_v6(base.tun_peer6->0, base.tun_peer6->0, i, j);
    }
    if is_pair(base) && base.tun_local6 is Some && base.tun_peer6 is Some {
        lemma_moved_v6(base.tun_local6->0, base.tun_peer6->0, i, j);
    }
}

/// Moving by nothing changes nothing, and from one subnet, moving by different amounts leads
/// to different subnets.
proof fn lemma_moved_v4(a: Ipv4Addr, b: Ipv4Addr, i: u8, j: u8)
    requires
        i != j,
        a.bits / 4 == b.bits / 4,
    ensures
        moved_v4(a, 0) == a,
        moved_v4(b, 0) == b,
        moved_v4(a, i).bits / 4 != moved_v4(b, j).bits / 4,
{
}

/// Moving by nothing changes nothing, and from one subnet, moving by different amounts leads
/// to different subnets.
proof fn lemma_moved_v6(a: Ipv6Addr, b: Ipv6Addr, i: u8, j: u8)
    requires
        i != j,
        a.bits / 4 == b.bits / 4,
    ensures
        moved_v6(a, 0) == a,
        moved_v6(b, 0) == b,
        moved_v6(a, i).bits / 4 != moved_v6(b, j).bits / 4,
{
    lemma_subnet_in_last(a, i);
    lemma_subnet_in_last(b, j);
    let q = a.bits as int / 4 % 0x4000;
    assert(b.bits as int / 4 % 0x4000 == q);
    assert((q + i) % 0x4000 != (q + j) % 0x4000);
}

/// Which of the subnets of its last 16 bits an address is moved to.
proof fn lemma_subnet_in_last(ip: Ipv6Addr, i: u8)
    ensures
        moved_v6(ip, 0) == ip,
        moved_v6(ip, i).bits as int / 4 % 0x4000 == (ip.bits as int / 4 % 0x4000 + i) % 0x4000,
{
    let bits = ip.bits as int;
    let low = bits % 0x1_0000;
    let high = bits / 0x1_0000;
    assert(bits == high * 0x1_0000 + low);
    let moved = (low + i * 4) % 0x1_0000;
    assert(moved_v6(ip, i).bits == high * 0x1_0000 + moved);
    assert((high * 0x1_0000 + moved) / 4 == high * 0x4000 + moved / 4);
    assert((high * 0x4000 + moved / 4) % 0x4000 == moved / 4);
    assert(bits / 4 == high * 0x4000 + low / 4);
    assert(bits / 4 % 0x4000 == low / 4);
    assert(moved / 4 == (low / 4 + i) % 0x4000);
}

/// The configuration of each TUN interface. The first one has the base itself. The one with
/// number `index` has its addresses `4 * index` further on: those of IP version 4 in the
/// circle of 32 bits, those of version 6 in the circle of their last 16 bits, the others of
/// which stay. An address that the base does not have it does not have either. A name is
/// followed by the number; one that the system chooses stays so.
#[verifier::rlimit(60)]
pub proof fn law_configurations_go_by_subnets(base: ConfigView, index: u8)
    ensures
        config_at(base, 0) == base,
        ({
            let c = config_at(base, index);
            &&& (c.tun_local.bits - base.tun_local.bits - 4 * index) % 0x1_0000_0000 == 0
            &&& (c.tun_peer.bits - base.tun_peer.bits - 4 * index) % 0x1_0000_0000 == 0
            &&& c.tun_local6 is Some <==> base.tun_local6 is Some
            &&& c.tun_peer6 is Some <==> base.tun_peer6 is Some
            &&& base.tun_local6 is Some ==> c.tun_local6->0.bits / 0x1_0000
                == base.tun_local6->0.bits / 0x1_0000 && (c.tun_local6->0.bits
                - base.tun_local6->0.bits - 4 * index) % 0x1_0000 == 0
            &&& base.tun_peer6 is Some ==> c.tun_peer6->0.bits / 0x1_0000
                == base.tun_peer6->0.bits / 0x1_0000 && (c.tun_peer6->0.bits
                - base.tun_peer6->0.bits - 4 * index) % 0x1_0000 == 0
            &&& base.tun_name.len() == 0 ==> c.tun_name.len() == 0
            &&& base.tun_name.len() > 0 && index > 0 ==> c.tun_name == base.tun_name + decimal(
                index as nat,
            )
        }),
{
    if base.tun_local6 is Some {
        lemma_moved_in_last(base.tun_local6->0, index);
    }
    if base.tun_peer6 is Some {
        lemma_moved_in_last(base.tun_peer6->0, index);
    }
}

/// Moving changes only the last 16 bits of an address.
#[verifier::rlimit(60)]
proof fn lemma_moved_in_last(ip: Ipv6Addr, index: u8)
    ensures
        moved_v6(ip, 0) == ip,
        moved_v6(ip, index).bits / 0x1_0000 == ip.bits / 0x1_0000,
        (moved_v6(ip, index).bits - ip.bits - 4 * index) % 0x1_0000 == 0,
{
    let bits = ip.bits as int;
    let low = bits % 0x1_0000;
    let high = bits / 0x1_0000;
    let moved = (low + index * 4) % 0x1_0000;
    assert(bits == high * 0x1_0000 + low);
    assert(moved_v6(ip, index).bits == high * 0x1_0000 + moved);
    assert((high * 0x1_0000 + moved) / 0x1_0000 == high);
    assert((moved - low - 4 * index) % 0x1_0000 == 0);
}

/// A network interface has a stack if one was registered for it, and it is the one that was
/// registered last.
pub proof fn law_the_last_registered_stack_counts(
    stacks: Seq<(Option<Vec<u8>>, u64)>,
    interface: Option<Seq<u8>>,
    last: int,
)
    ensures
        stack_map(stacks).contains_key(interface) <==> exists|i: int|
            0 <= i < stacks.len() && optional_bytes((#[trigger] stacks[i]).0) == interface,
        0 <= last < stacks.len() && optional_bytes(stacks[last].0) == interface && (forall|i: int|
            last < i < stacks.len() ==> optional_bytes((#[trigger] stacks[i]).0) != interface)
            ==> stack_map(stacks)[interface] == stacks[last].1,
    decreases stacks.len(),
{
    if stacks.len() > 0 {
        let rest = stacks.drop_last();
        let n = stacks.len() - 1;
        law_the_last_registered_stack_counts(rest, interface, last);
        assert(stacks[n] == stacks.last());
        if exists|i: int| 0 <= i < rest.len() && optional_bytes((#[trigger] rest[i]).0) == interface {
            let i = choose|i: int|
                0 <= i < rest.len() && optional_bytes((#[trigger] rest[i]).0) == interface;
            assert(optional_bytes(stacks[i].0) == interface);
        }
        if exists|i: int|
            0 <= i < stacks.len() && optional_bytes((#[trigger] stacks[i]).0) == interface {
            let i = choose|i: int|
                0 <= i < stacks.len() && optional_bytes((#[trigger] stacks[i]).0) == interface;
            if i < n {
                assert(optional_bytes(rest[i].0) == interface);
            }
        }
        if 0 <= last < n && optional_bytes(stacks[last].0) == interface && (forall|i: int|
            last < i < stacks.len() ==> optional_bytes((#[trigger] stacks[i]).0) != interface) {
            assert(rest[last] == stacks[last]);
            assert forall|i: int| last < i < rest.len() implies optional_bytes(
                (#[trigger] rest[i]).0,
            ) != interface by {
                assert(rest[i] == stacks[i]);
            }
            assert(optional_bytes(stacks[n].0) != interface);
        }
    }
}

/// A network interface without a stack gets the next configuration, and the first one of all the
/// base itself. Once a stack is registered for it, it has that one, and so it stays when others
/// are registered for other interfaces.
pub proof fn law_each_interface_has_one_stack(
    registered: Map<Option<Seq<u8>>, u64>,
    base: ConfigView,
    next_index: u8,
    interface: Option<Seq<u8>>,
    other: Option<Seq<u8>>,
    stack: u64,
)
    ensures
        !registered.contains_key(interface) ==> stack_or_config(
            registered,
            base,
            next_index,
            interface,
        ) == Err::<u64, ConfigView>(config_at(base, next_index)),
        !registered.contains_key(interface) ==> stack_or_config(registered, base, 0, interface)
            == Err::<u64, ConfigView>(base),
        stack_or_config(registered.insert(interface, stack), base, next_index, interface) == Ok::<
            u64,
            ConfigView,
        >(stack),
        other != interface ==> stack_or_config(
            registered.insert(interface, stack),
            base,
            next_index,
            other,
        ) == stack_or_config(registered, base, next_index, other),
{
}

} // verus!
