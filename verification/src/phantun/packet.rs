//! TCP segments in IP packets.

use crate::addr::{IpAddr, Ipv4Addr, Ipv6Addr, SocketAddr};
use crate::phantun::checksum::{
    add_to_sum, complement, folded, inet_checksum, lemma_checksum_completes, lemma_folded_add,
    lemma_folded_bound, lemma_folded_congruent, lemma_word_sum_add, word_sum,
};
use crate::wire::{
    be_bytes, be_value, copy_range, lemma_be_bytes_len, lemma_be_bytes_small, lemma_be_roundtrip,
    lemma_be_roundtrip_bytes, lemma_be_small, lemma_be_value_bound, lemma_pow256_sizes, push_all, push_be, push_u128, push_u16, push_u32, read_u128, read_u16,
    read_u32,
};
use vstd::prelude::*;

verus! {

/// Size of an IPv4 header without options.
pub const IPV4_HEADER_LEN: usize = 20;

/// Size of an IPv6 header.
pub const IPV6_HEADER_LEN: usize = 40;

/// Size of a TCP header without options.
pub const TCP_HEADER_LEN: usize = 20;

/// TCP flag: open a connection.
pub const SYN: u8 = 2;

/// TCP flag: there is no such connection.
pub const RST: u8 = 4;

/// TCP flag: the acknowledgement number counts.
pub const ACK: u8 = 16;

/// Both endpoints are of one IP version.
pub open spec fn same_family(a: SocketAddr, b: SocketAddr) -> bool {
    a is V4 <==> b is V4
}

/// The octets of an IP address.
pub open spec fn ip_octets(ip: IpAddr) -> Seq<u8> {
    match ip {
        IpAddr::V4(ip) => ip.octets(),
        IpAddr::V6(ip) => ip.octets(),
    }
}

/// An IPv4 header with the given checksum: no options, "don't fragment", 64 hops, TCP.
pub open spec fn ipv4_header(src: Ipv4Addr, dst: Ipv4Addr, total_len: nat, sum: nat) -> Seq<u8> {
    seq![0x45u8, 0] + be_bytes(total_len, 2) + seq![0u8, 0, 0x40, 0, 64, 6] + be_bytes(sum, 2)
        + src.octets() + dst.octets()
}

/// An IPv6 header: no flow, 64 hops, TCP.
pub open spec fn ipv6_header(src: Ipv6Addr, dst: Ipv6Addr, payload_len: nat) -> Seq<u8> {
    seq![0x60u8, 0, 0, 0] + be_bytes(payload_len, 2) + seq![6u8, 64] + src.octets() + dst.octets()
}

/// The IP header of a segment.
pub open spec fn ip_header(local: IpAddr, remote: IpAddr, tcp_len: nat) -> Seq<u8> {
    match (local, remote) {
        (IpAddr::V4(src), IpAddr::V4(dst)) => ipv4_header(
            src,
            dst,
            IPV4_HEADER_LEN as nat + tcp_len,
            inet_checksum(ipv4_header(src, dst, IPV4_HEADER_LEN as nat + tcp_len, 0)),
        ),
        (IpAddr::V6(src), IpAddr::V6(dst)) => ipv6_header(src, dst, tcp_len),
        _ => Seq::empty(),
    }
}

/// What the checksum of a segment covers beside the segment.
pub open spec fn pseudo_header(local: IpAddr, remote: IpAddr, tcp_len: nat) -> Seq<u8> {
    ip_octets(local) + ip_octets(remote) + match local {
        IpAddr::V4(_) => seq![0u8, 6] + be_bytes(tcp_len, 2),
        IpAddr::V6(_) => be_bytes(tcp_len, 4) + seq![0u8, 0, 0, 6],
    }
}

/// The TCP options: a segment that opens a connection asks for a window scale of 14.
pub open spec fn tcp_options(flags: u8) -> Seq<u8> {
    if flags & SYN != 0 {
        seq![1u8, 3, 3, 14]
    } else {
        Seq::empty()
    }
}

/// The numbers in a segment.
pub struct SegmentFields {
    /// The port of the sender.
    pub source: u16,
    /// The port of the receiver.
    pub destination: u16,
    /// The sequence number.
    pub seq: u32,
    /// The acknowledgement number.
    pub ack: u32,
    /// The flags.
    pub flags: u8,
}

/// A TCP segment with the given checksum. The window is as large as can be.
pub open spec fn tcp_segment(f: SegmentFields, sum: nat, payload: Seq<u8>) -> Seq<u8> {
    tcp_before_sum(f) + be_bytes(sum, 2) + (seq![0u8, 0] + tcp_options(f.flags) + payload)
}

/// A TCP segment up to its checksum.
pub open spec fn tcp_before_sum(f: SegmentFields) -> Seq<u8> {
    be_bytes(f.source as nat, 2) + be_bytes(f.destination as nat, 2) + be_bytes(f.seq as nat, 4)
        + be_bytes(f.ack as nat, 4) + seq![
        (if f.flags & SYN != 0 {
            0x60u8
        } else {
            0x50u8
        }),
        f.flags,
        0xff,
        0xff,
    ]
}

/// The length of a segment.
pub open spec fn tcp_len(flags: u8, payload: Seq<u8>) -> nat {
    TCP_HEADER_LEN as nat + tcp_options(flags).len() + payload.len()
}

/// A whole packet.
#[verifier::opaque]
pub open spec fn tcp_packet(
    local: SocketAddr,
    remote: SocketAddr,
    seq: u32,
    ack: u32,
    flags: u8,
    payload: Seq<u8>,
) -> Seq<u8> {
    let f = SegmentFields {
        source: local.spec_port(),
        destination: remote.spec_port(),
        seq,
        ack,
        flags,
    };
    let len = tcp_len(flags, payload);
    ip_header(local.spec_ip(), remote.spec_ip(), len) + tcp_segment(
        f,
        inet_checksum(
            pseudo_header(local.spec_ip(), remote.spec_ip(), len) + tcp_segment(f, 0, payload),
        ),
        payload,
    )
}

/// Appends the octets of an address.
fn push_ip(out: &mut Vec<u8>, ip: IpAddr)
    ensures
        final(out)@ == old(out)@ + ip_octets(ip),
{
    match ip {
        IpAddr::V4(ip) => push_u32(out, ip.bits),
        IpAddr::V6(ip) => push_u128(out, ip.bits),
    }
}

/// Writes the header of an IPv4 packet.
fn build_ipv4_header(src: Ipv4Addr, dst: Ipv4Addr, total_len: usize, sum: u16) -> (out: Vec<u8>)
    ensures
        out@ == ipv4_header(src, dst, total_len as nat, sum as nat),
{
    let mut out: Vec<u8> = Vec::new();
    out.push(0x45);
    out.push(0);
    push_be(&mut out, total_len as u128, 2);
    out.push(0);
    out.push(0);
    out.push(0x40);
    out.push(0);
    out.push(64);
    out.push(6);
    push_u16(&mut out, sum);
    push_u32(&mut out, src.bits);
    push_u32(&mut out, dst.bits);
    assert(out@ =~= ipv4_header(src, dst, total_len as nat, sum as nat));
    out
}

/// Writes the header of an IPv6 packet.
fn build_ipv6_header(src: Ipv6Addr, dst: Ipv6Addr, payload_len: usize) -> (out: Vec<u8>)
    ensures
        out@ == ipv6_header(src, dst, payload_len as nat),
{
    let mut out: Vec<u8> = Vec::new();
    out.push(0x60);
    out.push(0);
    out.push(0);
    out.push(0);
    push_be(&mut out, payload_len as u128, 2);
    out.push(6);
    out.push(64);
    push_u128(&mut out, src.bits);
    push_u128(&mut out, dst.bits);
    assert(out@ =~= ipv6_header(src, dst, payload_len as nat));
    out
}

/// Writes a TCP segment.
fn build_segment(
    source: u16,
    destination: u16,
    seq: u32,
    ack: u32,
    flags: u8,
    sum: u16,
    payload: &[u8],
) -> (out: Vec<u8>)
    ensures
        out@ == tcp_segment(
            SegmentFields { source, destination, seq, ack, flags },
            sum as nat,
            payload@,
        ),
{
    let mut out: Vec<u8> = Vec::new();
    push_u16(&mut out, source);
    push_u16(&mut out, destination);
    push_u32(&mut out, seq);
    push_u32(&mut out, ack);
    out.push(
        if flags & SYN != 0 {
            0x60
        } else {
            0x50
        },
    );
    out.push(flags);
    out.push(0xff);
    out.push(0xff);
    push_u16(&mut out, sum);
    out.push(0);
    out.push(0);
    if flags & SYN != 0 {
        out.push(1);
        out.push(3);
        out.push(3);
        out.push(14);
    }
    push_all(&mut out, payload);
    assert(out@ =~= tcp_segment(
        SegmentFields { source, destination, seq, ack, flags },
        sum as nat,
        payload@,
    ));
    out
}

/// Builds a packet from `local` to `remote`.
pub fn build_tcp_packet(
    local: SocketAddr,
    remote: SocketAddr,
    seq: u32,
    ack: u32,
    flags: u8,
    payload: &[u8],
) -> (out: Vec<u8>)
    requires
        same_family(local, remote),
        payload@.len() + 64 <= usize::MAX,
    ensures
        out@ == tcp_packet(local, remote, seq, ack, flags, payload@),
{
    let options_len: usize = if flags & SYN != 0 {
        4
    } else {
        0
    };
    let len: usize = TCP_HEADER_LEN + options_len + payload.len();
    let ghost f = SegmentFields {
        source: local.spec_port(),
        destination: remote.spec_port(),
        seq,
        ack,
        flags,
    };
    let mut pseudo: Vec<u8> = Vec::new();
    push_ip(&mut pseudo, local.ip());
    push_ip(&mut pseudo, remote.ip());
    let mut out: Vec<u8>;
    match (local.ip(), remote.ip()) {
        (IpAddr::V4(src), IpAddr::V4(dst)) => {
            let blank = build_ipv4_header(src, dst, IPV4_HEADER_LEN + len, 0);
            let sum: u16 = add_to_sum(0, &blank);
            out = build_ipv4_header(src, dst, IPV4_HEADER_LEN + len, complement(sum));
            pseudo.push(0);
            pseudo.push(6);
            push_be(&mut pseudo, len as u128, 2);
        },
        (IpAddr::V6(src), IpAddr::V6(dst)) => {
            out = build_ipv6_header(src, dst, len);
            push_be(&mut pseudo, len as u128, 4);
            pseudo.push(0);
            pseudo.push(0);
            pseudo.push(0);
            pseudo.push(6);
        },
        _ => {
            out = Vec::new();
        },
    }
    assert(pseudo@ =~= pseudo_header(local.spec_ip(), remote.spec_ip(), len as nat));
    let blank = build_segment(local.port(), remote.port(), seq, ack, flags, 0, payload);
    let sum: u16 = add_to_sum(add_to_sum(0, &pseudo), &blank);
    proof {
        lemma_pseudo_even(local.spec_ip(), remote.spec_ip(), len as nat);
        lemma_word_sum_add(pseudo@, blank@);
        lemma_folded_add(word_sum(pseudo@), word_sum(blank@));
    }
    let segment = build_segment(
        local.port(),
        remote.port(),
        seq,
        ack,
        flags,
        complement(sum),
        payload,
    );
    push_all(&mut out, &segment);
    reveal(tcp_packet);
    out
}

/// A pseudo header has an even length.
proof fn lemma_pseudo_even(local: IpAddr, remote: IpAddr, len: nat)
    ensures
        pseudo_header(local, remote, len).len() % 2 == 0,
{
    broadcast use lemma_be_bytes_len;

}

/// What a packet says.
#[derive(Debug)]
pub struct TcpPacket {
    /// The sender.
    pub src: IpAddr,
    /// The receiver.
    pub dst: IpAddr,
    /// The port of the sender.
    pub source: u16,
    /// The port of the receiver.
    pub destination: u16,
    /// The sequence number.
    pub seq: u32,
    /// The acknowledgement number.
    pub ack: u32,
    /// The flags.
    pub flags: u8,
    /// The payload.
    pub payload: Vec<u8>,
}

/// What a packet says.
#[verifier::ext_equal]
pub struct PacketView {
    /// The sender.
    pub src: IpAddr,
    /// The receiver.
    pub dst: IpAddr,
    /// The numbers in the segment.
    pub fields: SegmentFields,
    /// The payload.
    pub payload: Seq<u8>,
}

impl View for TcpPacket {
    type V = PacketView;

    open spec fn view(&self) -> PacketView {
        PacketView {
            src: self.src,
            dst: self.dst,
            fields: SegmentFields {
                source: self.source,
                destination: self.destination,
                seq: self.seq,
                ack: self.ack,
                flags: self.flags,
            },
            payload: self.payload@,
        }
    }
}

/// Where the payload of a segment starts. An offset that is too small counts as none.
pub open spec fn payload_start(segment: Seq<u8>) -> nat {
    if segment[12] / 16 > 5 {
        segment[12] as nat / 16 * 4
    } else {
        TCP_HEADER_LEN as nat
    }
}

/// The numbers in a segment.
pub open spec fn segment_fields(segment: Seq<u8>) -> SegmentFields {
    SegmentFields {
        source: be_value(segment.subrange(0, 2)) as u16,
        destination: be_value(segment.subrange(2, 4)) as u16,
        seq: be_value(segment.subrange(4, 8)) as u32,
        ack: be_value(segment.subrange(8, 12)) as u32,
        flags: segment[13],
    }
}

/// The payload of a segment, empty where it starts behind the end.
pub open spec fn segment_payload(segment: Seq<u8>) -> Seq<u8> {
    if payload_start(segment) < segment.len() {
        segment.skip(payload_start(segment) as int)
    } else {
        Seq::empty()
    }
}

/// Reads the segment of a packet between two addresses.
pub open spec fn parse_segment(src: IpAddr, dst: IpAddr, segment: Seq<u8>) -> Option<PacketView> {
    if segment.len() < TCP_HEADER_LEN {
        None
    } else {
        Some(
            PacketView {
                src,
                dst,
                fields: segment_fields(segment),
                payload: segment_payload(segment),
            },
        )
    }
}

/// The size of the header of an IPv4 packet, as it says itself.
pub open spec fn ipv4_header_size(buf: Seq<u8>) -> nat {
    buf[0] as nat % 16 * 4
}

/// Reads a packet. It must be of IP version 4 or 6, carry TCP, and be long enough for its
/// headers.
pub open spec fn parse_packet(buf: Seq<u8>) -> Option<PacketView> {
    if buf.len() == 0 {
        None
    } else if buf[0] / 16 == 4 {
        if buf.len() < IPV4_HEADER_LEN || buf[9] != 6 || ipv4_header_size(buf) < IPV4_HEADER_LEN
            || buf.len() < ipv4_header_size(buf) {
            None
        } else {
            parse_segment(
                IpAddr::V4(Ipv4Addr { bits: be_value(buf.subrange(12, 16)) as u32 }),
                IpAddr::V4(Ipv4Addr { bits: be_value(buf.subrange(16, 20)) as u32 }),
                buf.skip(ipv4_header_size(buf) as int),
            )
        }
    } else if buf[0] / 16 == 6 {
        if buf.len() < IPV6_HEADER_LEN || buf[6] != 6 {
            None
        } else {
            parse_segment(
                IpAddr::V6(Ipv6Addr { bits: be_value(buf.subrange(8, 24)) as u128 }),
                IpAddr::V6(Ipv6Addr { bits: be_value(buf.subrange(24, 40)) as u128 }),
                buf.skip(IPV6_HEADER_LEN as int),
            )
        }
    } else {
        None
    }
}

/// Reads the segment that starts at `start`.
fn read_segment(src: IpAddr, dst: IpAddr, buf: &[u8], start: usize) -> (r: Option<TcpPacket>)
    requires
        start <= buf@.len(),
    ensures
        match r {
            Some(p) => parse_segment(src, dst, buf@.skip(start as int)) == Some(p@),
            None => parse_segment(src, dst, buf@.skip(start as int)) is None,
        },
{
    let ghost segment = buf@.skip(start as int);
    assert(buf.len() == buf@.len());
    if buf.len() - start < TCP_HEADER_LEN {
        return None;
    }
    let offset: usize = (buf[start + 12] / 16) as usize;
    let header: usize = if offset > 5 {
        offset * 4
    } else {
        TCP_HEADER_LEN
    };
    let payload = if header < buf.len() - start {
        copy_range(buf, start + header, buf.len())
    } else {
        Vec::new()
    };
    let p = TcpPacket {
        src,
        dst,
        source: read_u16(buf, start),
        destination: read_u16(buf, start + 2),
        seq: read_u32(buf, start + 4),
        ack: read_u32(buf, start + 8),
        flags: buf[start + 13],
        payload,
    };
    proof {
        assert(segment.subrange(0, 2) =~= buf@.subrange(start as int, start + 2));
        assert(segment.subrange(2, 4) =~= buf@.subrange(start + 2, start + 4));
        assert(segment.subrange(4, 8) =~= buf@.subrange(start + 4, start + 8));
        assert(segment.subrange(8, 12) =~= buf@.subrange(start + 8, start + 12));
        assert(p@.payload =~= segment_payload(segment));
    }
    Some(p)
}

/// Reads a packet.
pub fn parse_ip_packet(buf: &[u8]) -> (r: Option<TcpPacket>)
    ensures
        match r {
            Some(p) => parse_packet(buf@) == Some(p@),
            None => parse_packet(buf@) is None,
        },
{
    if buf.len() == 0 {
        return None;
    }
    if buf[0] / 16 == 4 {
        if buf.len() < IPV4_HEADER_LEN || buf[9] != 6 {
            return None;
        }
        let header: usize = (buf[0] % 16) as usize * 4;
        if header < IPV4_HEADER_LEN || buf.len() < header {
            return None;
        }
        read_segment(
            IpAddr::V4(Ipv4Addr { bits: read_u32(buf, 12) }),
            IpAddr::V4(Ipv4Addr { bits: read_u32(buf, 16) }),
            buf,
            header,
        )
    } else if buf[0] / 16 == 6 {
        if buf.len() < IPV6_HEADER_LEN || buf[6] != 6 {
            return None;
        }
        read_segment(
            IpAddr::V6(Ipv6Addr { bits: read_u128(buf, 8) }),
            IpAddr::V6(Ipv6Addr { bits: read_u128(buf, 24) }),
            buf,
            IPV6_HEADER_LEN,
        )
    } else {
        None
    }
}

/// A packet is read as it was built.
pub proof fn law_packet_roundtrip(
    local: SocketAddr,
    remote: SocketAddr,
    seq: u32,
    ack: u32,
    flags: u8,
    payload: Seq<u8>,
)
    requires
        same_family(local, remote),
    ensures
        parse_packet(tcp_packet(local, remote, seq, ack, flags, payload)) == Some(
            PacketView {
                src: local.spec_ip(),
                dst: remote.spec_ip(),
                fields: SegmentFields {
                    source: local.spec_port(),
                    destination: remote.spec_port(),
                    seq,
                    ack,
                    flags,
                },
                payload,
            },
        ),
{
    reveal(tcp_packet);
    let f = SegmentFields {
        source: local.spec_port(),
        destination: remote.spec_port(),
        seq,
        ack,
        flags,
    };
    let len = tcp_len(flags, payload);
    let sum = inet_checksum(
        pseudo_header(local.spec_ip(), remote.spec_ip(), len) + tcp_segment(f, 0, payload),
    );
    let segment = tcp_segment(f, sum, payload);
    lemma_segment_roundtrip(f, sum, payload);
    match (local.spec_ip(), remote.spec_ip()) {
        (IpAddr::V4(src), IpAddr::V4(dst)) => {
            let total = IPV4_HEADER_LEN as nat + len;
            lemma_ipv4_roundtrip(
                src,
                dst,
                total,
                inet_checksum(ipv4_header(src, dst, total, 0)),
                segment,
            );
        },
        (IpAddr::V6(src), IpAddr::V6(dst)) => {
            lemma_ipv6_roundtrip(src, dst, len, segment);
        },
        _ => {},
    }
}

/// Behind an IPv4 header the segment is found, and the addresses in it.
pub proof fn lemma_ipv4_roundtrip(
    src: Ipv4Addr,
    dst: Ipv4Addr,
    total_len: nat,
    sum: nat,
    segment: Seq<u8>,
)
    ensures
        parse_packet(ipv4_header(src, dst, total_len, sum) + segment) == parse_segment(
            IpAddr::V4(src),
            IpAddr::V4(dst),
            segment,
        ),
{
    let buf = ipv4_header(src, dst, total_len, sum) + segment;
    lemma_be_bytes_len(total_len, 2);
    lemma_be_bytes_len(sum, 2);
    lemma_be_bytes_len(src.bits as nat, 4);
    lemma_be_bytes_len(dst.bits as nat, 4);
    lemma_pow256_sizes();
    assert(buf.subrange(12, 16) =~= src.octets());
    assert(buf.subrange(16, 20) =~= dst.octets());
    assert(buf.skip(20) =~= segment);
    lemma_be_roundtrip(src.bits as nat, 4);
    lemma_be_roundtrip(dst.bits as nat, 4);
}

/// Behind an IPv6 header the segment is found, and the addresses in it.
pub proof fn lemma_ipv6_roundtrip(
    src: Ipv6Addr,
    dst: Ipv6Addr,
    payload_len: nat,
    segment: Seq<u8>,
)
    ensures
        parse_packet(ipv6_header(src, dst, payload_len) + segment) == parse_segment(
            IpAddr::V6(src),
            IpAddr::V6(dst),
            segment,
        ),
{
    let buf = ipv6_header(src, dst, payload_len) + segment;
    lemma_be_bytes_len(payload_len, 2);
    lemma_be_bytes_len(src.bits as nat, 16);
    lemma_be_bytes_len(dst.bits as nat, 16);
    lemma_pow256_sizes();
    assert(buf.subrange(8, 24) =~= src.octets());
    assert(buf.subrange(24, 40) =~= dst.octets());
    assert(buf.skip(40) =~= segment);
    lemma_be_roundtrip(src.bits as nat, 16);
    lemma_be_roundtrip(dst.bits as nat, 16);
}

/// A segment is read as it was built.
pub proof fn lemma_segment_roundtrip(f: SegmentFields, sum: nat, payload: Seq<u8>)
    ensures
        segment_fields(tcp_segment(f, sum, payload)) == f,
        segment_payload(tcp_segment(f, sum, payload)) == payload,
        tcp_segment(f, sum, payload).len() == tcp_len(f.flags, payload),
{
    broadcast use lemma_be_bytes_len;

    let segment = tcp_segment(f, sum, payload);
    lemma_pow256_sizes();
    assert(segment.subrange(0, 2) =~= be_bytes(f.source as nat, 2));
    assert(segment.subrange(2, 4) =~= be_bytes(f.destination as nat, 2));
    assert(segment.subrange(4, 8) =~= be_bytes(f.seq as nat, 4));
    assert(segment.subrange(8, 12) =~= be_bytes(f.ack as nat, 4));
    lemma_be_roundtrip(f.source as nat, 2);
    lemma_be_roundtrip(f.destination as nat, 2);
    lemma_be_roundtrip(f.seq as nat, 4);
    lemma_be_roundtrip(f.ack as nat, 4);
    assert(segment_payload(segment) =~= payload);
}

/// A sum written as a word counts as itself.
proof fn lemma_sum_word(sum: nat)
    requires
        sum <= 65535,
    ensures
        word_sum(be_bytes(sum, 2)) == sum,
        be_bytes(sum, 2).len() == 2,
{
    reveal_with_fuel(be_bytes, 3);
    reveal_with_fuel(word_sum, 2);
    lemma_be_bytes_len(sum, 2);
}

/// The checksums of a packet are right: with them in place, the words of the IPv4 header,
/// and those of the pseudo header and the segment, add up to 65535.
#[verifier::rlimit(60)]
pub proof fn law_checksums_are_valid(
    local: SocketAddr,
    remote: SocketAddr,
    seq: u32,
    ack: u32,
    flags: u8,
    payload: Seq<u8>,
)
    requires
        same_family(local, remote),
    ensures
        ({
            let packet = tcp_packet(local, remote, seq, ack, flags, payload);
            let header_len: int = if local is V4 {
                20
            } else {
                40
            };
            &&& local is V4 ==> folded(word_sum(packet.take(20))) == 65535
            &&& folded(
                word_sum(
                    pseudo_header(
                        local.spec_ip(),
                        remote.spec_ip(),
                        tcp_len(flags, payload),
                    ) + packet.skip(header_len),
                ),
            ) == 65535
        }),
{
    broadcast use lemma_be_bytes_len;

    reveal(tcp_packet);
    let f = SegmentFields {
        source: local.spec_port(),
        destination: remote.spec_port(),
        seq,
        ack,
        flags,
    };
    let len = tcp_len(flags, payload);
    let pseudo = pseudo_header(local.spec_ip(), remote.spec_ip(), len);
    let covered = pseudo + tcp_segment(f, 0, payload);
    let sum = inet_checksum(covered);
    let segment = tcp_segment(f, sum, payload);
    let header = ip_header(local.spec_ip(), remote.spec_ip(), len);
    let packet = tcp_packet(local, remote, seq, ack, flags, payload);
    lemma_folded_bound(word_sum(covered));
    lemma_pseudo_even(local.spec_ip(), remote.spec_ip(), len);
    lemma_sum_at(
        pseudo + tcp_before_sum(f),
        sum,
        seq![0u8, 0] + tcp_options(flags) + payload,
    );
    assert(pseudo + segment =~= (pseudo + tcp_before_sum(f)) + be_bytes(sum, 2) + (seq![0u8, 0]
        + tcp_options(flags) + payload));
    assert(covered =~= (pseudo + tcp_before_sum(f)) + be_bytes(0, 2) + (seq![0u8, 0]
        + tcp_options(flags) + payload));
    lemma_checksum_completes(word_sum(covered));
    match (local.spec_ip(), remote.spec_ip()) {
        (IpAddr::V4(src), IpAddr::V4(dst)) => {
            let total = IPV4_HEADER_LEN as nat + len;
            let blank = ipv4_header(src, dst, total, 0);
            let before = seq![0x45u8, 0] + be_bytes(total, 2) + seq![0u8, 0, 0x40, 0, 64, 6];
            let after = src.octets() + dst.octets();
            lemma_folded_bound(word_sum(blank));
            lemma_sum_at(before, inet_checksum(blank), after);
            assert(blank =~= before + be_bytes(0, 2) + after);
            assert(header =~= before + be_bytes(inet_checksum(blank), 2) + after);
            lemma_checksum_completes(word_sum(blank));
            assert(packet.take(20) =~= header);
            assert(packet.skip(20) =~= segment);
        },
        (IpAddr::V6(src), IpAddr::V6(dst)) => {
            assert(packet.skip(40) =~= segment);
        },
        _ => {},
    }
}

/// A word in the middle counts as its value.
proof fn lemma_sum_at(before: Seq<u8>, sum: nat, after: Seq<u8>)
    requires
        before.len() % 2 == 0,
        sum <= 65535,
    ensures
        word_sum(before + be_bytes(sum, 2) + after) == word_sum(before + be_bytes(0, 2) + after)
            + sum,
{
    lemma_sum_word(sum);
    lemma_sum_word(0);
    lemma_word_sum_add(before, be_bytes(sum, 2));
    lemma_word_sum_add(before, be_bytes(0, 2));
    lemma_word_sum_add(before + be_bytes(sum, 2), after);
    lemma_word_sum_add(before + be_bytes(0, 2), after);
}

/// What stands where in a packet. In front is a header of IP version 4 or 6, which says how long
/// the packet is, that it carries TCP, and between which addresses. Behind it come the ports,
/// the sequence and the acknowledgement number, the length of the TCP header, the flags, the
/// largest window, no urgent data, the window scale where the packet opens a connection, and
/// the payload.
#[verifier::spinoff_prover]
#[verifier::rlimit(60)]
pub proof fn law_packet_layout(
    local: SocketAddr,
    remote: SocketAddr,
    seq: u32,
    ack: u32,
    flags: u8,
    payload: Seq<u8>,
)
    requires
        same_family(local, remote),
    ensures
        ({
            let p = tcp_packet(local, remote, seq, ack, flags, payload);
            let opening = flags & 2 != 0;
            let options: int = if opening {
                4
            } else {
                0
            };
            let h: int = if local is V4 {
                20
            } else {
                40
            };
            &&& p.len() == h + 20 + options + payload.len()
            &&& local matches SocketAddr::V4(a) ==> {
                &&& p[0] == 0x45
                &&& p[1] == 0
                &&& p.len() <= 65535 ==> p[2] * 256 + p[3] == p.len()
                &&& p[4] == 0 && p[5] == 0
                &&& p[6] == 0x40 && p[7] == 0
                &&& p[8] == 64
                &&& p[9] == 6
                &&& p.subrange(12, 16) == a.ip.octets()
            }
            &&& remote matches SocketAddr::V4(b) ==> p.subrange(16, 20) == b.ip.octets()
            &&& local matches SocketAddr::V6(a) ==> {
                &&& p[0] == 0x60
                &&& p[1] == 0 && p[2] == 0 && p[3] == 0
                &&& p.len() <= 65575 ==> p[4] * 256 + p[5] == p.len() - 40
                &&& p[6] == 6
                &&& p[7] == 64
                &&& p.subrange(8, 24) == a.ip.octets()
            }
            &&& remote matches SocketAddr::V6(b) ==> p.subrange(24, 40) == b.ip.octets()
            &&& p[h] * 256 + p[h + 1] == local.spec_port()
            &&& p[h + 2] * 256 + p[h + 3] == remote.spec_port()
            &&& p[h + 4] * 0x100_0000 + p[h + 5] * 0x1_0000 + p[h + 6] * 0x100 + p[h + 7] == seq
            &&& p[h + 8] * 0x100_0000 + p[h + 9] * 0x1_0000 + p[h + 10] * 0x100 + p[h + 11] == ack
            &&& p[h + 12] == if opening {
                0x60u8
            } else {
                0x50u8
            }
            &&& p[h + 13] == flags
            &&& p[h + 14] == 0xff && p[h + 15] == 0xff
            &&& p[h + 18] == 0 && p[h + 19] == 0
            &&& opening ==> p.subrange(h + 20, h + 24) == seq![1u8, 3, 3, 14]
            &&& p.skip(h + 20 + options) == payload
        }),
{
    reveal(tcp_packet);
    let f = SegmentFields {
        source: local.spec_port(),
        destination: remote.spec_port(),
        seq,
        ack,
        flags,
    };
    let len = tcp_len(flags, payload);
    let sum = inet_checksum(
        pseudo_header(local.spec_ip(), remote.spec_ip(), len) + tcp_segment(f, 0, payload),
    );
    let segment = tcp_segment(f, sum, payload);
    let header = ip_header(local.spec_ip(), remote.spec_ip(), len);
    let p = tcp_packet(local, remote, seq, ack, flags, payload);
    assert(p == header + segment);
    lemma_segment_layout(f, sum, payload);
    let options = tcp_options(flags).len() as int;
    let h = header.len() as int;
    match (local.spec_ip(), remote.spec_ip()) {
        (IpAddr::V4(src), IpAddr::V4(dst)) => {
            let total = IPV4_HEADER_LEN as nat + len;
            lemma_ipv4_layout(src, dst, total, inet_checksum(ipv4_header(src, dst, total, 0)));
            assert(p.subrange(12, 16) =~= header.subrange(12, 16));
            assert(p.subrange(16, 20) =~= header.subrange(16, 20));
        },
        (IpAddr::V6(src), IpAddr::V6(dst)) => {
            lemma_ipv6_layout(src, dst, len);
            assert(p.subrange(8, 24) =~= header.subrange(8, 24));
            assert(p.subrange(24, 40) =~= header.subrange(24, 40));
        },
        _ => {},
    }
    assert(p.skip(h + 20 + options) =~= segment.skip(20 + options));
    assert(flags & 2 != 0 ==> p.subrange(h + 20, h + 24) =~= segment.subrange(20, 24));
}

/// What stands where in an IPv4 header.
#[verifier::spinoff_prover]
#[verifier::rlimit(60)]
proof fn lemma_ipv4_layout(src: Ipv4Addr, dst: Ipv4Addr, total_len: nat, sum: nat)
    ensures
        ({
            let header = ipv4_header(src, dst, total_len, sum);
            &&& header.len() == 20
            &&& header[0] == 0x45 && header[1] == 0
            &&& total_len <= 65535 ==> header[2] * 256 + header[3] == total_len
            &&& header[4] == 0 && header[5] == 0
            &&& header[6] == 0x40 && header[7] == 0
            &&& header[8] == 64 && header[9] == 6
            &&& header.subrange(12, 16) == src.octets()
            &&& header.subrange(16, 20) == dst.octets()
        }),
{
    let header = ipv4_header(src, dst, total_len, sum);
    lemma_be_bytes_small(total_len);
    lemma_be_bytes_len(sum, 2);
    lemma_be_bytes_len(src.bits as nat, 4);
    lemma_be_bytes_len(dst.bits as nat, 4);
    assert(header.subrange(12, 16) =~= src.octets());
    assert(header.subrange(16, 20) =~= dst.octets());
}

/// What stands where in an IPv6 header.
#[verifier::spinoff_prover]
#[verifier::rlimit(60)]
proof fn lemma_ipv6_layout(src: Ipv6Addr, dst: Ipv6Addr, payload_len: nat)
    ensures
        ({
            let header = ipv6_header(src, dst, payload_len);
            &&& header.len() == 40
            &&& header[0] == 0x60
            &&& header[1] == 0 && header[2] == 0 && header[3] == 0
            &&& payload_len <= 65535 ==> header[4] * 256 + header[5] == payload_len
            &&& header[6] == 6 && header[7] == 64
            &&& header.subrange(8, 24) == src.octets()
            &&& header.subrange(24, 40) == dst.octets()
        }),
{
    let header = ipv6_header(src, dst, payload_len);
    lemma_be_bytes_small(payload_len);
    lemma_be_bytes_len(src.bits as nat, 16);
    lemma_be_bytes_len(dst.bits as nat, 16);
    assert(header.subrange(8, 24) =~= src.octets());
    assert(header.subrange(24, 40) =~= dst.octets());
}

/// What stands where in a segment.
#[verifier::spinoff_prover]
#[verifier::rlimit(60)]
proof fn lemma_segment_layout(f: SegmentFields, sum: nat, payload: Seq<u8>)
    ensures
        ({
            let s = tcp_segment(f, sum, payload);
            let options = tcp_options(f.flags).len();
            &&& s.len() == 20 + options + payload.len()
            &&& s[0] * 256 + s[1] == f.source
            &&& s[2] * 256 + s[3] == f.destination
            &&& s[4] * 0x100_0000 + s[5] * 0x1_0000 + s[6] * 0x100 + s[7] == f.seq
            &&& s[8] * 0x100_0000 + s[9] * 0x1_0000 + s[10] * 0x100 + s[11] == f.ack
            &&& s[12] == if f.flags & 2 != 0 {
                0x60u8
            } else {
                0x50u8
            }
            &&& s[13] == f.flags
            &&& s[14] == 0xff && s[15] == 0xff
            &&& s[18] == 0 && s[19] == 0
            &&& f.flags & 2 != 0 ==> options == 4 && s.subrange(20, 24) == seq![1u8, 3, 3, 14]
            &&& f.flags & 2 == 0 ==> options == 0
            &&& s.skip(20 + options as int) == payload
        }),
{
    let s = tcp_segment(f, sum, payload);
    lemma_segment_roundtrip(f, sum, payload);
    lemma_be_small(s.subrange(0, 2));
    lemma_be_small(s.subrange(2, 4));
    lemma_be_small(s.subrange(4, 8));
    lemma_be_small(s.subrange(8, 12));
    lemma_be_bytes_len(f.source as nat, 2);
    lemma_be_bytes_len(f.destination as nat, 2);
    lemma_be_bytes_len(f.seq as nat, 4);
    lemma_be_bytes_len(f.ack as nat, 4);
    lemma_be_bytes_len(sum, 2);
    let middle = s.subrange(12, 16);
    let first: u8 = if f.flags & 2 != 0 {
        0x60
    } else {
        0x50
    };
    assert(middle =~= seq![first, f.flags, 0xff, 0xff]);
    assert(s[12] == middle[0] && s[13] == middle[1] && s[14] == middle[2] && s[15] == middle[3]);
    let end = s.skip(18);
    assert(s.skip(20 + tcp_options(f.flags).len() as int) =~= payload);
    assert(end =~= seq![0u8, 0] + tcp_options(f.flags) + payload);
    assert(s[18] == end[0] && s[19] == end[1]);
    if f.flags & 2 != 0 {
        assert(s.subrange(20, 24) =~= end.subrange(2, 6));
        assert(end.subrange(2, 6) =~= seq![1u8, 3, 3, 14]);
    }
}

/// The checksums of a packet, word by word. The words of an IPv4 header add up to a multiple of
/// 65535. So do those of the segment together with the addresses in the header, the number of
/// the protocol and the length of the segment.
#[verifier::spinoff_prover]
#[verifier::rlimit(60)]
pub proof fn law_checksums_cover_the_packet(
    local: SocketAddr,
    remote: SocketAddr,
    seq: u32,
    ack: u32,
    flags: u8,
    payload: Seq<u8>,
)
    requires
        same_family(local, remote),
        payload.len() + 24 <= 65535,
    ensures
        ({
            let p = tcp_packet(local, remote, seq, ack, flags, payload);
            if local is V4 {
                &&& word_sum(p.take(20)) as int % 65535 == 0
                &&& (word_sum(p.subrange(12, 20)) + 6 + (p.len() - 20) + word_sum(p.skip(20)))
                    % 65535 == 0
            } else {
                (word_sum(p.subrange(8, 40)) + 6 + (p.len() - 40) + word_sum(p.skip(40))) % 65535
                    == 0
            }
        }),
{
    broadcast use lemma_be_bytes_len;

    law_checksums_are_valid(local, remote, seq, ack, flags, payload);
    law_packet_layout(local, remote, seq, ack, flags, payload);
    let p = tcp_packet(local, remote, seq, ack, flags, payload);
    let len = tcp_len(flags, payload);
    let pseudo = pseudo_header(local.spec_ip(), remote.spec_ip(), len);
    let addresses = ip_octets(local.spec_ip()) + ip_octets(remote.spec_ip());
    lemma_pseudo_even(local.spec_ip(), remote.spec_ip(), len);
    lemma_sum_word(len);
    lemma_sum_word(6);
    lemma_sum_word(0);
    reveal_with_fuel(word_sum, 3);
    if local is V4 {
        lemma_folded_congruent(word_sum(p.take(20)));
        let rest = seq![0u8, 6] + be_bytes(len, 2);
        let six = seq![0u8, 6];
        assert(six.skip(2) =~= Seq::empty());
        lemma_word_sum_add(six, be_bytes(len, 2));
        assert(p.subrange(12, 20) =~= addresses);
        lemma_word_sum_add(addresses, rest);
        assert(pseudo =~= addresses + rest);
        lemma_word_sum_add(pseudo, p.skip(20));
        lemma_folded_congruent(word_sum(pseudo + p.skip(20)));
    } else {
        let six = seq![0u8, 0, 0, 6];
        let rest = be_bytes(len, 4) + six;
        assert(six.skip(2).skip(2) =~= Seq::empty());
        lemma_be_bytes_small(len);
        assert(be_bytes(len, 4).skip(2).skip(2) =~= Seq::empty());
        lemma_word_sum_add(be_bytes(len, 4), six);
        assert(p.subrange(8, 40) =~= addresses);
        lemma_word_sum_add(addresses, rest);
        assert(pseudo =~= addresses + rest);
        lemma_word_sum_add(pseudo, p.skip(40));
        lemma_folded_congruent(word_sum(pseudo + p.skip(40)));
    }
}

/// What is read from any packet at all. One of IP version 4 must say that it carries TCP, and be
/// long enough for its own header, options of it included, and a TCP header; one of version 6
/// for the fixed header and a TCP header. Anything else is not read. What is read is what
/// stands there; the payload begins behind the TCP header with its options.
#[verifier::spinoff_prover]
#[verifier::rlimit(60)]
pub proof fn law_packets_are_read_as_they_stand(buf: Seq<u8>)
    ensures
        ({
            let version = if buf.len() > 0 {
                buf[0] as int / 16
            } else {
                0
            };
            let h = if version == 4 {
                buf[0] as int % 16 * 4
            } else {
                40
            };
            let readable = (version == 4 && buf.len() >= 20 && buf[9] == 6 && h >= 20 || version == 6
                && buf.len() >= 40 && buf[6] == 6) && buf.len() >= h + 20;
            &&& parse_packet(buf) is Some <==> readable
            &&& parse_packet(buf) matches Some(p) ==> {
                let offset = buf[h + 12] as int / 16;
                let start = h + if offset > 5 {
                    offset * 4
                } else {
                    20
                };
                &&& version == 4 ==> (p.src matches IpAddr::V4(a) && a.octets() == buf.subrange(
                    12,
                    16,
                ))
                &&& version == 4 ==> (p.dst matches IpAddr::V4(a) && a.octets() == buf.subrange(
                    16,
                    20,
                ))
                &&& version == 6 ==> (p.src matches IpAddr::V6(a) && a.octets() == buf.subrange(
                    8,
                    24,
                ))
                &&& version == 6 ==> (p.dst matches IpAddr::V6(a) && a.octets() == buf.subrange(
                    24,
                    40,
                ))
                &&& p.fields.source == buf[h] * 256 + buf[h + 1]
                &&& p.fields.destination == buf[h + 2] * 256 + buf[h + 3]
                &&& p.fields.seq == buf[h + 4] * 0x100_0000 + buf[h + 5] * 0x1_0000 + buf[h + 6]
                    * 0x100 + buf[h + 7]
                &&& p.fields.ack == buf[h + 8] * 0x100_0000 + buf[h + 9] * 0x1_0000 + buf[h + 10]
                    * 0x100 + buf[h + 11]
                &&& p.fields.flags == buf[h + 13]
                &&& p.payload.len() == if start <= buf.len() {
                    buf.len() - start
                } else {
                    0
                }
                &&& forall|i: int| 0 <= i < p.payload.len() ==> p.payload[i] == buf[start + i]
            }
        }),
{
    if parse_packet(buf) is Some {
        let h: int = if buf[0] / 16 == 4 {
            ipv4_header_size(buf) as int
        } else {
            40
        };
        let s = buf.skip(h);
        lemma_be_small(s.subrange(0, 2));
        lemma_be_small(s.subrange(2, 4));
        lemma_be_small(s.subrange(4, 8));
        lemma_be_small(s.subrange(8, 12));
        lemma_pow256_sizes();
        if buf[0] / 16 == 4 {
            lemma_be_value_bound(buf.subrange(12, 16));
            lemma_be_value_bound(buf.subrange(16, 20));
            lemma_be_roundtrip_bytes(buf.subrange(12, 16));
            lemma_be_roundtrip_bytes(buf.subrange(16, 20));
        } else {
            lemma_be_value_bound(buf.subrange(8, 24));
            lemma_be_value_bound(buf.subrange(24, 40));
            lemma_be_roundtrip_bytes(buf.subrange(8, 24));
            lemma_be_roundtrip_bytes(buf.subrange(24, 40));
        }
    }
}

/// What is seen of a packet that was read is all of it.
pub proof fn law_packets_are_seen_whole(p: TcpPacket)
    ensures
        p@.src == p.src,
        p@.dst == p.dst,
        p@.fields.source == p.source,
        p@.fields.destination == p.destination,
        p@.fields.seq == p.seq,
        p@.fields.ack == p.ack,
        p@.fields.flags == p.flags,
        p@.payload == p.payload@,
{
}

} // verus!
