//! Links between two endpoints.

use crate::addr::{IpAddr, SocketAddr};
use crate::net::{interface_names_for_target, name_views, NetworkInterface};
use crate::text::{from_utf8_lossy, lossy_text, pad, padded};
use crate::wire::{
    copy_bytes, copy_optional_bytes, optional_bytes, same_bytes, same_optional_bytes,
};
use vstd::prelude::*;
use vstd::string::*;

verus! {

/// Which side set a link up.
#[derive(Debug, Clone, Copy, PartialEq, Eq, PartialOrd, Ord, Hash, Structural)]
pub enum Direction {
    /// The other side.
    Incoming,
    /// This side.
    Outgoing,
}

/// Which links are redundant.
#[derive(Debug, Clone, Copy, PartialEq, Eq, Structural)]
pub enum LinkFilter {
    /// No link filtering.
    NoFilter,
    /// Filter based on local interface and remote interface.
    ///
    /// One link for each pair of local interface and remote interface is established.
    InterfaceInterface,
    /// Filter based on local interface and remote IP address.
    ///
    /// One link for each pair of local interface and remote IP address is established.
    InterfaceIp,
}

impl Default for LinkFilter {
    fn default() -> (filter: LinkFilter)
        ensures
            filter == LinkFilter::InterfaceInterface,
    {
        LinkFilter::InterfaceInterface
    }
}

/// Identifies a link by its local interface, remote endpoint and direction.
#[derive(Debug, PartialEq, Eq, PartialOrd, Ord, Hash)]
pub struct LinkTag {
    /// Local interface name.
    pub interface: Option<Vec<u8>>,
    /// Remote endpoint.
    pub remote: SocketAddr,
    /// Link direction.
    pub direction: Direction,
}

/// What a tag says.
pub struct TagView {
    /// Local interface name.
    pub interface: Option<Seq<u8>>,
    /// Remote endpoint.
    pub remote: SocketAddr,
    /// Link direction.
    pub direction: Direction,
}

impl View for LinkTag {
    type V = TagView;

    open spec fn view(&self) -> TagView {
        TagView {
            interface: optional_bytes(self.interface),
            remote: self.remote,
            direction: self.direction,
        }
    }
}

/// The text of a link: its interface, its direction and its remote endpoint.
pub open spec fn link_text(interface: Seq<char>, direction: Direction, remote: Seq<char>) -> Seq<
    char,
> {
    padded(interface, 16) + match direction {
        Direction::Incoming => seq![' ', '<', '-', ' '],
        Direction::Outgoing => seq![' ', '-', '>', ' '],
    } + remote
}

/// The text of a tag, with `remote` for the text of its remote endpoint.
pub open spec fn tag_text(tag: TagView, remote: Seq<char>) -> Seq<char> {
    let interface = match tag.interface {
        Some(name) => name,
        None => Seq::empty(),
    };
    link_text(lossy_text(interface), tag.direction, remote)
}

/// Writes a link, given the texts of its interface and of its remote endpoint.
pub fn write_link(interface: String, direction: Direction, remote: &str) -> (out: String)
    ensures
        out@ == link_text(interface@, direction, remote@),
{
    let mut out: String = pad(interface, 16);
    proof {
        reveal_strlit(" <- ");
        reveal_strlit(" -> ");
        assert(" <- "@ =~= seq![' ', '<', '-', ' ']);
        assert(" -> "@ =~= seq![' ', '-', '>', ' ']);
    }
    match direction {
        Direction::Incoming => out.append(" <- "),
        Direction::Outgoing => out.append(" -> "),
    }
    out.append(remote);
    out
}

impl Clone for LinkTag {
    fn clone(&self) -> (tag: LinkTag)
        ensures
            tag@ == self@,
    {
        LinkTag {
            interface: copy_optional_bytes(&self.interface),
            remote: self.remote,
            direction: self.direction,
        }
    }
}

impl LinkTag {
    /// Creates a tag.
    pub fn new(interface: Option<&[u8]>, remote: SocketAddr, direction: Direction) -> (tag: LinkTag)
        ensures
            tag@ == (TagView {
                interface: match interface {
                    Some(name) => Some(name@),
                    None => None,
                },
                remote,
                direction,
            }),
    {
        let interface = match interface {
            Some(name) => Some(copy_bytes(name)),
            None => None,
        };
        LinkTag { interface, remote, direction }
    }

    /// The direction of the link.
    pub fn direction(&self) -> (direction: Direction)
        ensures
            direction == self@.direction,
    {
        self.direction
    }

    /// What the other side is told about the link: the name of the local interface.
    pub fn user_data(&self) -> (data: Vec<u8>)
        ensures
            data@ == match self@.interface {
                Some(name) => name,
                None => Seq::empty(),
            },
    {
        match &self.interface {
            Some(name) => copy_bytes(name),
            None => {
                let none: Vec<u8> = Vec::new();
                assert(none@ =~= Seq::empty());
                none
            },
        }
    }

    /// Writes the tag, with `remote` for the text of its remote endpoint.
    pub fn text(&self, remote: &str) -> (out: String)
        ensures
            out@ == tag_text(self@, remote@),
    {
        let name = self.user_data();
        write_link(from_utf8_lossy(&name), self.direction, remote)
    }
}

/// A link, as far as a filter looks at it.
#[derive(Debug)]
pub struct LinkInfo {
    /// The tag; a link of another transport has none here.
    pub tag: Option<LinkTag>,
    /// What the other side told about the link.
    pub remote_user_data: Vec<u8>,
}

/// Whether the link `other` makes the link `new` redundant.
pub open spec fn redundant(filter: LinkFilter, new: LinkInfo, other: LinkInfo) -> bool {
    match (new.tag, other.tag) {
        (Some(new_tag), Some(tag)) => match filter {
            LinkFilter::NoFilter => false,
            LinkFilter::InterfaceInterface => tag@.interface == new_tag@.interface
                && other.remote_user_data@ == new.remote_user_data@,
            LinkFilter::InterfaceIp => tag@.interface == new_tag@.interface
                && tag.remote.spec_ip() == new_tag.remote.spec_ip(),
        },
        _ => false,
    }
}

/// Decides whether a link is wanted beside the existing ones.
pub fn link_wanted(filter: LinkFilter, new: &LinkInfo, existing: &Vec<LinkInfo>) -> (wanted: bool)
    ensures
        wanted == (forall|i: int|
            0 <= i < existing@.len() ==> !redundant(filter, *new, #[trigger] existing@[i])),
{
    let mut i: usize = 0;
    while i < existing.len()
        invariant
            i <= existing@.len(),
            forall|j: int| 0 <= j < i ==> !redundant(filter, *new, #[trigger] existing@[j]),
        decreases existing@.len() - i,
    {
        if is_redundant(filter, new, &existing[i]) {
            return false;
        }
        i += 1;
    }
    true
}

/// Decides whether one link makes another redundant.
fn is_redundant(filter: LinkFilter, new: &LinkInfo, other: &LinkInfo) -> (b: bool)
    ensures
        b == redundant(filter, *new, *other),
{
    match (&new.tag, &other.tag) {
        (Some(new_tag), Some(tag)) => match filter {
            LinkFilter::NoFilter => false,
            LinkFilter::InterfaceInterface => same_optional_bytes(
                &tag.interface,
                &new_tag.interface,
            ) && same_bytes(&other.remote_user_data, &new.remote_user_data),
            LinkFilter::InterfaceIp => {
                let a: IpAddr = tag.remote.ip();
                let b: IpAddr = new_tag.remote.ip();
                same_optional_bytes(&tag.interface, &new_tag.interface) && a == b
            },
        },
        _ => false,
    }
}

/// A link that stands makes an equal one redundant, whatever filters there are.
pub proof fn law_filter_rejects_duplicates(filter: LinkFilter, new: LinkInfo, other: LinkInfo)
    requires
        filter != LinkFilter::NoFilter,
        new.tag is Some,
        other.tag is Some,
        new.tag->0@ == other.tag->0@,
        new.remote_user_data@ == other.remote_user_data@,
    ensures
        redundant(filter, new, other),
{
}

/// Of two links each makes the other redundant, or neither does.
pub proof fn law_redundancy_is_mutual(filter: LinkFilter, a: LinkInfo, b: LinkInfo)
    ensures
        redundant(filter, a, b) == redundant(filter, b, a),
{
}

/// The contents of a list of tags.
pub open spec fn tag_views(tags: Seq<LinkTag>) -> Seq<TagView> {
    Seq::new(tags.len(), |i: int| tags[i]@)
}

/// `tag` is one of the links that should be set up: to one of the endpoints, through any
/// interface from which it can be reached, or, where no interfaces are given, through the one
/// that the system chooses.
pub open spec fn wanted_tag(
    interfaces: Option<Seq<NetworkInterface>>,
    addrs: Seq<SocketAddr>,
    tag: TagView,
) -> bool {
    &&& tag.direction == Direction::Outgoing
    &&& addrs.contains(tag.remote)
    &&& match interfaces {
        Some(interfaces) => tag.interface is Some && exists|i: int|
            0 <= i < interfaces.len() && (#[trigger] interfaces[i]).name@ == tag.interface->0
                && interfaces[i].reaches(tag.remote),
        None => tag.interface is None,
    }
}

/// Lists the links that should be set up, each once.
pub fn outgoing_tags(interfaces: Option<&Vec<NetworkInterface>>, addrs: &Vec<SocketAddr>) -> (tags:
    Vec<LinkTag>)
    requires
        addrs@.no_duplicates(),
    ensures
        tag_views(tags@).no_duplicates(),
        forall|tag: TagView| #[trigger]
            tag_views(tags@).contains(tag) <==> wanted_tag(
                match interfaces {
                    Some(interfaces) => Some(interfaces@),
                    None => None,
                },
                addrs@,
                tag,
            ),
{
    let ghost all: Option<Seq<NetworkInterface>> = match interfaces {
        Some(interfaces) => Some(interfaces@),
        None => None,
    };
    let mut tags: Vec<LinkTag> = Vec::new();
    let mut i: usize = 0;
    while i < addrs.len()
        invariant
            i <= addrs@.len(),
            addrs@.no_duplicates(),
            all == (match interfaces {
                Some(interfaces) => Some(interfaces@),
                None => None,
            }),
            tag_views(tags@).no_duplicates(),
            forall|tag: TagView| #[trigger]
                tag_views(tags@).contains(tag) <==> wanted_tag(all, addrs@.take(i as int), tag),
        decreases addrs@.len() - i,
    {
        let addr: SocketAddr = addrs[i];
        let ghost before = tag_views(tags@);
        let ghost seen = addrs@.take(i as int);
        let ghost now = addrs@.take(i + 1);
        proof {
            lemma_take_contains(addrs@, i as int);
        }
        match interfaces {
            Some(interfaces) => {
                let names = interface_names_for_target(interfaces, addr);
                push_tags(&mut tags, names, addr);
                proof {
                    assert forall|tag: TagView| #[trigger]
                        tag_views(tags@).contains(tag) <==> wanted_tag(all, now, tag) by {
                        assert(before.contains(tag) <==> wanted_tag(all, seen, tag));
                        assert(now.contains(tag.remote) <==> seen.contains(tag.remote) || tag.remote
                            == addr);
                        if tag.remote == addr {
                            assert(!before.contains(tag));
                            if tag.interface is Some && tag.direction == Direction::Outgoing {
                                assert(tag_views(tags@).contains(tag) <==> name_views(
                                    names@,
                                ).contains(tag.interface->0));
                                assert(now.contains(addr));
                                assert(all->0 == interfaces@);
                                assert(wanted_tag(all, now, tag) <==> exists|k: int|
                                    0 <= k < interfaces@.len() && (#[trigger] interfaces@[k]).name@
                                        == tag.interface->0 && interfaces@[k].reaches(addr));
                            }
                        } else {
                            assert(wanted_tag(all, now, tag) <==> wanted_tag(all, seen, tag));
                            assert(tag_views(tags@).contains(tag) <==> before.contains(tag));
                        }
                    }
                }
            },
            None => {
                let tag = LinkTag { interface: None, remote: addr, direction: Direction::Outgoing };
                proof {
                    if before.contains(tag@) {
                        assert(wanted_tag(all, seen, tag@));
                    }
                }
                tags.push(tag);
                proof {
                    assert(tag_views(tags@) =~= before.push(tag@));
                    lemma_push_contains(before, tag@);
                    assert forall|t: TagView| #[trigger]
                        tag_views(tags@).contains(t) <==> wanted_tag(all, now, t) by {
                        assert(before.contains(t) <==> wanted_tag(all, seen, t));
                        if t.interface is None && t.direction == Direction::Outgoing && t.remote
                            == addr {
                            assert(t == tag@);
                        }
                    }
                }
            },
        }
        i += 1;
    }
    assert(addrs@.take(i as int) =~= addrs@);
    tags
}

/// What a longer prefix holds.
proof fn lemma_take_contains<A>(s: Seq<A>, i: int)
    requires
        0 <= i < s.len(),
        s.no_duplicates(),
    ensures
        forall|x: A| #[trigger] s.take(i + 1).contains(x) <==> s.take(i).contains(x) || x == s[i],
        !s.take(i).contains(s[i]),
{
    assert(s.take(i + 1) =~= s.take(i).push(s[i]));
    lemma_push_contains(s.take(i), s[i]);
}

/// What a longer list holds.
proof fn lemma_push_contains<A>(s: Seq<A>, a: A)
    ensures
        forall|x: A| #[trigger] s.push(a).contains(x) <==> s.contains(x) || x == a,
{
    assert forall|x: A| #[trigger] s.push(a).contains(x) <==> s.contains(x) || x == a by {
        assert(s.push(a)[s.len() as int] == a);
        if s.contains(x) {
            let k = choose|k: int| 0 <= k < s.len() && s[k] == x;
            assert(s.push(a)[k] == x);
        }
        if s.push(a).contains(x) && x != a {
            let k = choose|k: int| 0 <= k < s.push(a).len() && s.push(a)[k] == x;
            assert(s[k] == x);
        }
    }
}

/// Adds a tag for each interface name. None of them may be to the endpoint yet.
fn push_tags(tags: &mut Vec<LinkTag>, names: Vec<Vec<u8>>, remote: SocketAddr)
    requires
        tag_views(old(tags)@).no_duplicates(),
        name_views(names@).no_duplicates(),
        forall|tag: TagView| #[trigger]
            tag_views(old(tags)@).contains(tag) ==> tag.remote != remote,
    ensures
        tag_views(final(tags)@).no_duplicates(),
        forall|tag: TagView| #[trigger]
            tag_views(final(tags)@).contains(tag) <==> tag_views(old(tags)@).contains(tag) || (
            tag.direction == Direction::Outgoing && tag.remote == remote && tag.interface is Some
                && name_views(names@).contains(tag.interface->0)),
{
    let ghost first = tag_views(tags@);
    let ghost all = name_views(names@);
    let mut i: usize = 0;
    while i < names.len()
        invariant
            i <= names@.len(),
            all == name_views(names@),
            all.no_duplicates(),
            tag_views(tags@).no_duplicates(),
            forall|tag: TagView| #[trigger] first.contains(tag) ==> tag.remote != remote,
            forall|tag: TagView| #[trigger]
                tag_views(tags@).contains(tag) <==> first.contains(tag) || (tag.direction
                    == Direction::Outgoing && tag.remote == remote && tag.interface is Some
                    && all.take(i as int).contains(tag.interface->0)),
        decreases names@.len() - i,
    {
        let ghost before = tag_views(tags@);
        let tag = LinkTag {
            interface: Some(copy_bytes(&names[i])),
            remote,
            direction: Direction::Outgoing,
        };
        proof {
            assert(all[i as int] == names@[i as int]@);
            lemma_take_contains(all, i as int);
            assert(!before.contains(tag@));
        }
        tags.push(tag);
        proof {
            assert(tag_views(tags@) =~= before.push(tag@));
            lemma_push_contains(before, tag@);
            assert forall|t: TagView| #[trigger]
                tag_views(tags@).contains(t) <==> first.contains(t) || (t.direction
                    == Direction::Outgoing && t.remote == remote && t.interface is Some && all.take(
                    i + 1,
                ).contains(t.interface->0)) by {
                if t.direction == Direction::Outgoing && t.remote == remote && t.interface is Some
                    && t.interface->0 == all[i as int] {
                    assert(t == tag@);
                }
            }
        }
        i += 1;
    }
    assert(all.take(i as int) =~= all);
}

/// Which links make each other redundant. Links over different local interfaces never do, and
/// neither do links of which one is of another transport, nor any without a filter. Links over
/// the same interface do exactly if the filter looks at remote interfaces and the other sides
/// told the same about them, or if it looks at remote addresses and these are the same.
pub proof fn law_one_link_for_each_pair(filter: LinkFilter, new: LinkInfo, other: LinkInfo)
    ensures
        new.tag is None || other.tag is None ==> !redundant(filter, new, other),
        filter == LinkFilter::NoFilter ==> !redundant(filter, new, other),
        new.tag is Some && other.tag is Some ==> {
            let a = new.tag->0;
            let b = other.tag->0;
            let same_interface = optional_bytes(a.interface) == optional_bytes(b.interface);
            &&& !same_interface ==> !redundant(filter, new, other)
            &&& same_interface && filter == LinkFilter::InterfaceInterface ==> (redundant(
                filter,
                new,
                other,
            ) <==> new.remote_user_data@ == other.remote_user_data@)
            &&& same_interface && filter == LinkFilter::InterfaceIp ==> (redundant(
                filter,
                new,
                other,
            ) <==> a.remote.spec_ip() == b.remote.spec_ip())
        },
{
}

/// What is seen of a tag is all of it, and of a list of tags each one in its place.
pub proof fn law_tags_are_seen_whole(tag: LinkTag, tags: Seq<LinkTag>, i: int)
    ensures
        tag_views(tags).len() == tags.len(),
        0 <= i < tags.len() ==> tag_views(tags)[i] == tags[i]@,
        tag@.interface is None <==> tag.interface is None,
        tag.interface is Some ==> tag@.interface == Some(tag.interface->0@),
        tag@.remote == tag.remote,
        tag@.direction == tag.direction,
{
}

/// To each endpoint one link should be set up through each interface that has an address from
/// which it can be reached, and, where no interfaces are given, one through that which the
/// system chooses. No others should be.
pub proof fn law_links_go_to_all_endpoints(
    interfaces: Option<Seq<NetworkInterface>>,
    addrs: Seq<SocketAddr>,
    i: int,
    j: int,
    tag: TagView,
)
    requires
        0 <= i < addrs.len(),
    ensures
        interfaces is None ==> wanted_tag(
            interfaces,
            addrs,
            TagView { interface: None, remote: addrs[i], direction: Direction::Outgoing },
        ),
        interfaces is Some && 0 <= j < interfaces->0.len() && interfaces->0[j].reaches(addrs[i])
            ==> wanted_tag(
            interfaces,
            addrs,
            TagView {
                interface: Some(interfaces->0[j].name@),
                remote: addrs[i],
                direction: Direction::Outgoing,
            },
        ),
        wanted_tag(interfaces, addrs, tag) ==> tag.direction == Direction::Outgoing && addrs.contains(
            tag.remote,
        ) && (tag.interface is None <==> interfaces is None),
        wanted_tag(interfaces, addrs, tag) && interfaces is Some ==> exists|k: int|
            0 <= k < interfaces->0.len() && (#[trigger] interfaces->0[k]).name@ == tag.interface->0
                && interfaces->0[k].reaches(tag.remote),
{
}

/// A link is written as its interface, filled up to sixteen characters, an arrow to the left
/// where it came in and to the right where it goes out, and its remote endpoint. The interface
/// of a tag is written as a text; one that has none is written as nothing.
pub proof fn law_links_are_written_with_an_arrow(
    interface: Seq<char>,
    direction: Direction,
    remote: Seq<char>,
    tag: TagView,
)
    ensures
        ({
            let text = link_text(interface, direction, remote);
            let width = if interface.len() < 16 {
                16
            } else {
                interface.len() as int
            };
            &&& text.len() == width + 4 + remote.len()
            &&& interface.is_prefix_of(text)
            &&& forall|i: int| interface.len() <= i < width ==> #[trigger] text[i] == ' '
            &&& text.subrange(width, width + 4) == if direction == Direction::Incoming {
                seq![' ', '<', '-', ' ']
            } else {
                seq![' ', '-', '>', ' ']
            }
            &&& text.skip(width + 4) == remote
        }),
        tag.interface matches Some(name) ==> tag_text(tag, remote) == link_text(
            lossy_text(name),
            tag.direction,
            remote,
        ),
        tag.interface is None ==> tag_text(tag, remote) == link_text(
            lossy_text(Seq::empty()),
            tag.direction,
            remote,
        ),
{
    let text = link_text(interface, direction, remote);
    let width = padded(interface, 16).len() as int;
    assert(text.skip(width + 4) =~= remote);
    assert(text.subrange(width, width + 4) =~= if direction == Direction::Incoming {
        seq![' ', '<', '-', ' ']
    } else {
        seq![' ', '-', '>', ' ']
    });
    assert(interface =~= text.subrange(0, interface.len() as int));
}

} // verus!
