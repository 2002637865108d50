//! Packet building utilities for TCP resets, ICMP blocks, and UDP responses.
//! Every frame that leaves here carries checksums that hold of its own bytes.

use crate::addr::IpAddress;
use crate::bytes::{be_bytes, lemma_be_bytes_len, push_be128, push_be16, push_be32};
use crate::device::{
    parse_packet_spec, ParseError, ParsedPacketView, TcpPacket, TcpPacketView, UdpPacket,
    UdpPacketView,
};
use crate::flow_manager::checksum::{
    icmpv6, ipv4_header, ones_complement, ones_complement_spec, pseudo_header_v4, pseudo_header_v6,
    tcp_ipv4, tcp_ipv6, udp_ipv4, udp_ipv6,
};
use crate::flow_manager::packet_laws::{
    checksums_hold, icmp_checksum_ok, ipv4_header_checksum_ok, ipv4_transport_checksum_ok, ipv6_transport_checksum_ok,
    lemma_icmp_block_checksums, lemma_ipv4_header_layout, lemma_ipv4_udp_checksums,
    lemma_ipv4_udp_round_trip, lemma_ipv6_header_layout, lemma_ipv6_udp_checksums,
    lemma_ipv6_udp_round_trip, lemma_reset_segment_layout,
    lemma_tcp_reset_checksums,
};
use vstd::prelude::*;

verus! {

/// `data` with the 16-bit number `sum` written at `off`, most significant byte first.
pub open spec fn with_checksum(data: Seq<u8>, off: int, sum: u16) -> Seq<u8> {
    data.update(off, (sum / 256) as u8).update(off + 1, (sum % 256) as u8)
}

/// An IPv4 header of twenty bytes with a zero checksum field: no options, no
/// fragmentation, a TTL of 64.
pub open spec fn ipv4_header_unsummed(total_len: nat, protocol: u8, src: u32, dst: u32) -> Seq<u8> {
    seq![0x45u8, 0u8] + be_bytes(total_len % 0x1_0000, 2) + seq![
        0u8,
        0u8,
        0u8,
        0u8,
        64u8,
        protocol,
        0u8,
        0u8,
    ] + be_bytes(src as nat, 4) + be_bytes(dst as nat, 4)
}

/// The IPv4 header with its checksum filled in.
pub open spec fn ipv4_header_spec(total_len: nat, protocol: u8, src: u32, dst: u32) -> Seq<u8> {
    let header = ipv4_header_unsummed(total_len, protocol, src, dst);
    with_checksum(header, 10, ones_complement_spec(0, header))
}

/// An IPv6 header of forty bytes: no traffic class, no flow label, a hop limit of 64.
pub open spec fn ipv6_header_spec(payload_len: nat, next_header: u8, src: u128, dst: u128) -> Seq<
    u8,
> {
    seq![0x60u8, 0u8, 0u8, 0u8] + be_bytes(payload_len % 0x1_0000, 2) + seq![next_header, 64u8]
        + be_bytes(src as nat, 16) + be_bytes(dst as nat, 16)
}

/// The sequence number of the reset that answers `packet`.
pub open spec fn reset_seq_number(packet: TcpPacketView) -> u32 {
    if packet.flags.ack {
        packet.ack_number
    } else {
        0
    }
}

/// The acknowledgement number of the reset that answers `packet`: its sequence
/// number plus the payload length, plus one for SYN and one for FIN, modulo `2^32`.
pub open spec fn tcp_ack_number_spec(packet: TcpPacketView) -> u32 {
    ((packet.payload.len() + packet.seq_number as nat + (if packet.flags.syn {
        1nat
    } else {
        0nat
    }) + (if packet.flags.fin {
        1nat
    } else {
        0nat
    })) % 0x1_0000_0000) as u32
}

/// The TCP header of the reset that answers `packet`, with a zero checksum
/// field: ports swapped, RST and ACK set, no window.
pub open spec fn tcp_reset_segment(packet: TcpPacketView) -> Seq<u8> {
    be_bytes(packet.dst_port as nat, 2) + be_bytes(packet.src_port as nat, 2) + be_bytes(
        reset_seq_number(packet) as nat,
        4,
    ) + be_bytes(tcp_ack_number_spec(packet) as nat, 4) + seq![
        0x50u8,
        0x14u8,
        0u8,
        0u8,
        0u8,
        0u8,
        0u8,
        0u8,
    ]
}

/// The reset frame that answers `packet` over IPv4, from `server` to `client`.
pub open spec fn ipv4_tcp_reset_frame(client: u32, server: u32, packet: TcpPacketView) -> Seq<u8> {
    let segment = tcp_reset_segment(packet);
    let sum = ones_complement_spec(0, pseudo_header_v4(server, client, 6, 20) + segment);
    ipv4_header_spec(40, 6, server, client) + with_checksum(segment, 16, sum)
}

/// The reset frame that answers `packet` over IPv6, from `server` to `client`.
pub open spec fn ipv6_tcp_reset_frame(client: u128, server: u128, packet: TcpPacketView) -> Seq<
    u8,
> {
    let segment = tcp_reset_segment(packet);
    let sum = ones_complement_spec(0, pseudo_header_v6(server, client, 6, 20) + segment);
    ipv6_header_spec(20, 6, server, client) + with_checksum(segment, 16, sum)
}

/// The reset frame that answers `packet`, if its two addresses are of one family.
pub open spec fn tcp_reset_frame(packet: TcpPacketView) -> Option<Seq<u8>> {
    match (packet.src, packet.dst) {
        (IpAddress::V4(client), IpAddress::V4(server)) => Some(
            ipv4_tcp_reset_frame(client, server, packet),
        ),
        (IpAddress::V6(client), IpAddress::V6(server)) => Some(
            ipv6_tcp_reset_frame(client, server, packet),
        ),
        _ => None,
    }
}

/// A UDP header and payload with a zero checksum field.
pub open spec fn udp_segment(src_port: u16, dst_port: u16, payload: Seq<u8>) -> Seq<u8> {
    be_bytes(src_port as nat, 2) + be_bytes(dst_port as nat, 2) + be_bytes(
        (8 + payload.len()) % 0x1_0000,
        2,
    ) + seq![0u8, 0u8] + payload
}

/// The UDP datagram over IPv4 that carries `payload` from `src` to `dst`.
pub open spec fn ipv4_udp_frame(
    src: u32,
    dst: u32,
    src_port: u16,
    dst_port: u16,
    payload: Seq<u8>,
) -> Seq<u8> {
    let segment = udp_segment(src_port, dst_port, payload);
    let sum = ones_complement_spec(0, pseudo_header_v4(src, dst, 17, segment.len()) + segment);
    ipv4_header_spec(20 + segment.len(), 17, src, dst) + with_checksum(segment, 6, sum)
}

/// The UDP datagram over IPv6 that carries `payload` from `src` to `dst`.
pub open spec fn ipv6_udp_frame(
    src: u128,
    dst: u128,
    src_port: u16,
    dst_port: u16,
    payload: Seq<u8>,
) -> Seq<u8> {
    let segment = udp_segment(src_port, dst_port, payload);
    let sum = ones_complement_spec(0, pseudo_header_v6(src, dst, 17, segment.len()) + segment);
    ipv6_header_spec(segment.len(), 17, src, dst) + with_checksum(segment, 6, sum)
}

/// The server-to-client datagram for a flow from `client` to `server`, if the
/// two addresses are of one family.
pub open spec fn udp_response_frame(
    client: IpAddress,
    client_port: u16,
    server: IpAddress,
    server_port: u16,
    payload: Seq<u8>,
) -> Option<Seq<u8>> {
    match (client, server) {
        (IpAddress::V4(c), IpAddress::V4(s)) => Some(
            ipv4_udp_frame(s, c, server_port, client_port, payload),
        ),
        (IpAddress::V6(c), IpAddress::V6(s)) => Some(
            ipv6_udp_frame(s, c, server_port, client_port, payload),
        ),
        _ => None,
    }
}

/// The first eight bytes of the payload of a blocked datagram, or all of it if it is shorter.
pub open spec fn quoted_payload(payload: Seq<u8>) -> Seq<u8> {
    if payload.len() <= 8 {
        payload
    } else {
        payload.take(8)
    }
}

/// The start of the blocked datagram as ICMP quotes it over IPv4.
pub open spec fn ipv4_quoted_datagram(client: u32, server: u32, packet: UdpPacketView) -> Seq<u8> {
    let quoted = quoted_payload(packet.payload);
    ipv4_header_spec(28 + quoted.len(), 17, client, server) + udp_segment(
        packet.src_port,
        packet.dst_port,
        quoted,
    )
}

/// The start of the blocked datagram as ICMPv6 quotes it.
pub open spec fn ipv6_quoted_datagram(client: u128, server: u128, packet: UdpPacketView) -> Seq<
    u8,
> {
    let quoted = quoted_payload(packet.payload);
    ipv6_header_spec(8 + quoted.len(), 17, client, server) + udp_segment(
        packet.src_port,
        packet.dst_port,
        quoted,
    )
}

/// An ICMP message of the given type and code around `quoted`, with a zero checksum field.
pub open spec fn icmp_message(kind: u8, code: u8, quoted: Seq<u8>) -> Seq<u8> {
    seq![kind, code, 0u8, 0u8, 0u8, 0u8, 0u8, 0u8] + quoted
}

/// The ICMP destination-unreachable frame (administratively prohibited) that
/// answers a blocked datagram over IPv4.
pub open spec fn ipv4_prohibited_frame(client: u32, server: u32, packet: UdpPacketView) -> Seq<u8> {
    let message = icmp_message(3, 13, ipv4_quoted_datagram(client, server, packet));
    let sum = ones_complement_spec(0, message);
    ipv4_header_spec(20 + message.len(), 1, server, client) + with_checksum(message, 2, sum)
}

/// The ICMPv6 destination-unreachable frame (administratively prohibited) that
/// answers a blocked datagram.
pub open spec fn ipv6_prohibited_frame(client: u128, server: u128, packet: UdpPacketView) -> Seq<
    u8,
> {
    let message = icmp_message(1, 1, ipv6_quoted_datagram(client, server, packet));
    let sum = ones_complement_spec(0, pseudo_header_v6(server, client, 58, message.len()) + message);
    ipv6_header_spec(message.len(), 58, server, client) + with_checksum(message, 2, sum)
}

/// The frame that answers a blocked datagram, if its two addresses are of one family.
pub open spec fn prohibited_frame(packet: UdpPacketView) -> Option<Seq<u8>> {
    match (packet.src, packet.dst) {
        (IpAddress::V4(client), IpAddress::V4(server)) => Some(
            ipv4_prohibited_frame(client, server, packet),
        ),
        (IpAddress::V6(client), IpAddress::V6(server)) => Some(
            ipv6_prohibited_frame(client, server, packet),
        ),
        _ => None,
    }
}

fn set_checksum(data: &mut Vec<u8>, off: usize, sum: u16)
    requires
        off + 2 <= old(data)@.len(),
    ensures
        final(data)@ == with_checksum(old(data)@, off as int, sum),
{
    let len: usize = data.len();
    assert(off + 2 <= len);
    data.set(off, (sum / 256) as u8);
    data.set(off + 1, (sum % 256) as u8);
}

fn append_bytes(out: &mut Vec<u8>, bytes: &[u8])
    ensures
        final(out)@ == old(out)@ + bytes@,
{
    let len: usize = bytes.len();
    let mut i: usize = 0;
    while i < len
        invariant
            i <= len,
            len == bytes@.len(),
            out@ =~= old(out)@ + bytes@.subrange(0, i as int),
        decreases len - i,
    {
        out.push(bytes[i]);
        i = i + 1;
    }
    assert(bytes@.subrange(0, len as int) =~= bytes@);
}

fn build_ipv4_header(total_len: usize, protocol: u8, src: u32, dst: u32) -> (header: Vec<u8>)
    ensures
        header@ == ipv4_header_spec(total_len as nat, protocol, src, dst),
        header@.len() == 20,
{
    let mut header: Vec<u8> = Vec::new();
    header.push(0x45);
    header.push(0);
    push_be16(&mut header, ((total_len as u64) % 0x1_0000) as u16);
    header.push(0);
    header.push(0);
    header.push(0);
    header.push(0);
    header.push(64);
    header.push(protocol);
    header.push(0);
    header.push(0);
    push_be32(&mut header, src);
    push_be32(&mut header, dst);
    proof {
        lemma_be_bytes_len((total_len as nat) % 0x1_0000, 2);
        lemma_be_bytes_len(src as nat, 4);
        lemma_be_bytes_len(dst as nat, 4);
        assert(header@ =~= ipv4_header_unsummed(total_len as nat, protocol, src, dst));
    }
    let sum = ipv4_header(header.as_slice());
    set_checksum(&mut header, 10, sum);
    header
}

fn build_ipv6_header(payload_len: usize, next_header: u8, src: u128, dst: u128) -> (header: Vec<
    u8,
>)
    ensures
        header@ == ipv6_header_spec(payload_len as nat, next_header, src, dst),
        header@.len() == 40,
{
    let mut header: Vec<u8> = Vec::new();
    header.push(0x60);
    header.push(0);
    header.push(0);
    header.push(0);
    push_be16(&mut header, ((payload_len as u64) % 0x1_0000) as u16);
    header.push(next_header);
    header.push(64);
    push_be128(&mut header, src);
    push_be128(&mut header, dst);
    proof {
        lemma_be_bytes_len((payload_len as nat) % 0x1_0000, 2);
        lemma_be_bytes_len(src as nat, 16);
        lemma_be_bytes_len(dst as nat, 16);
        assert(header@ =~= ipv6_header_spec(payload_len as nat, next_header, src, dst));
    }
    header
}

#[verifier::rlimit(30)]
fn tcp_ack_number(packet: &TcpPacket<'_>) -> (r: u32)
    ensures
        r == tcp_ack_number_spec(packet@),
{
    let len: u64 = ((packet.payload.len() as u64) % 0x1_0000_0000);
    let syn: u64 = if packet.flags.syn {
        1
    } else {
        0
    };
    let fin: u64 = if packet.flags.fin {
        1
    } else {
        0
    };
    let total: u64 = len + (packet.seq_number as u64) + syn + fin;
    (total % 0x1_0000_0000) as u32
}

fn build_tcp_reset_segment(packet: &TcpPacket<'_>) -> (segment: Vec<u8>)
    ensures
        segment@ == tcp_reset_segment(packet@),
        segment@.len() == 20,
{
    let mut segment: Vec<u8> = Vec::new();
    push_be16(&mut segment, packet.dst_port);
    push_be16(&mut segment, packet.src_port);
    let seq_number = if packet.flags.ack {
        packet.ack_number
    } else {
        0
    };
    let ack_number = tcp_ack_number(packet);
    push_be32(&mut segment, seq_number);
    push_be32(&mut segment, ack_number);
    segment.push(0x50);
    segment.push(0x14);
    segment.push(0);
    segment.push(0);
    segment.push(0);
    segment.push(0);
    segment.push(0);
    segment.push(0);
    proof {
        lemma_be_bytes_len(packet.dst_port as nat, 2);
        lemma_be_bytes_len(packet.src_port as nat, 2);
        lemma_be_bytes_len(seq_number as nat, 4);
        lemma_be_bytes_len(ack_number as nat, 4);
        assert(segment@ =~= tcp_reset_segment(packet@));
    }
    segment
}

pub fn build_ipv4_tcp_reset(client: u32, server: u32, packet: &TcpPacket<'_>) -> (frame: Vec<u8>)
    ensures
        frame@ == ipv4_tcp_reset_frame(client, server, packet@),
        frame@.len() == 40,
        ipv4_header_checksum_ok(frame@),
        ipv4_transport_checksum_ok(frame@, 6),
{
    proof {
        let turned = TcpPacketView {
            src: IpAddress::V4(client),
            dst: IpAddress::V4(server),
            ..packet@
        };
        lemma_tcp_reset_checksums(turned);
        lemma_reset_segment_layout(packet@);
        lemma_ipv4_header_layout(40, 6, server, client);
        assert(ipv4_tcp_reset_frame(client, server, turned) == ipv4_tcp_reset_frame(
            client,
            server,
            packet@,
        ));
    }
    let mut segment = build_tcp_reset_segment(packet);
    let sum = tcp_ipv4(server, client, segment.as_slice());
    set_checksum(&mut segment, 16, sum);
    let mut frame = build_ipv4_header(40, 6, server, client);
    append_bytes(&mut frame, segment.as_slice());
    frame
}

pub fn build_ipv6_tcp_reset(client: u128, server: u128, packet: &TcpPacket<'_>) -> (frame: Vec<u8>)
    ensures
        frame@ == ipv6_tcp_reset_frame(client, server, packet@),
        frame@.len() == 60,
        ipv6_transport_checksum_ok(frame@, 6),
{
    proof {
        let turned = TcpPacketView {
            src: IpAddress::V6(client),
            dst: IpAddress::V6(server),
            ..packet@
        };
        lemma_tcp_reset_checksums(turned);
        lemma_reset_segment_layout(packet@);
        lemma_ipv6_header_layout(20, 6, server, client);
        assert(ipv6_tcp_reset_frame(client, server, turned) == ipv6_tcp_reset_frame(
            client,
            server,
            packet@,
        ));
    }
    let mut segment = build_tcp_reset_segment(packet);
    let sum = tcp_ipv6(server, client, segment.as_slice());
    set_checksum(&mut segment, 16, sum);
    let mut frame = build_ipv6_header(20, 6, server, client);
    append_bytes(&mut frame, segment.as_slice());
    frame
}

/// Builds the TCP reset that answers `packet`: `None` if its two addresses
/// are not of one family.
pub fn build_tcp_reset(packet: &TcpPacket<'_>) -> (frame: Option<Vec<u8>>)
    ensures
        match frame {
            Some(bytes) => tcp_reset_frame(packet@) == Some(bytes@),
            None => tcp_reset_frame(packet@) is None,
        },
        frame matches Some(bytes) ==> checksums_hold(bytes@, packet.src is V6, 6),
{
    match (packet.src, packet.dst) {
        (IpAddress::V4(src), IpAddress::V4(dst)) => Some(build_ipv4_tcp_reset(src, dst, packet)),
        (IpAddress::V6(src), IpAddress::V6(dst)) => Some(build_ipv6_tcp_reset(src, dst, packet)),
        _ => None,
    }
}

fn build_udp_segment(src_port: u16, dst_port: u16, payload: &[u8]) -> (segment: Vec<u8>)
    requires
        payload@.len() + 8 <= usize::MAX,
    ensures
        segment@ == udp_segment(src_port, dst_port, payload@),
        segment@.len() == 8 + payload@.len(),
{
    let mut segment: Vec<u8> = Vec::new();
    push_be16(&mut segment, src_port);
    push_be16(&mut segment, dst_port);
    let udp_len: usize = 8 + payload.len();
    push_be16(&mut segment, ((udp_len as u64) % 0x1_0000) as u16);
    segment.push(0);
    segment.push(0);
    proof {
        lemma_be_bytes_len(src_port as nat, 2);
        lemma_be_bytes_len(dst_port as nat, 2);
        lemma_be_bytes_len((8 + payload@.len()) as nat % 0x1_0000, 2);
    }
    append_bytes(&mut segment, payload);
    assert(segment@ =~= udp_segment(src_port, dst_port, payload@));
    segment
}

pub fn build_ipv4_udp_response(src: u32, dst: u32, src_port: u16, dst_port: u16, payload: &[u8]) -> (frame:
    Vec<u8>)
    requires
        payload@.len() + 28 <= usize::MAX,
    ensures
        frame@ == ipv4_udp_frame(src, dst, src_port, dst_port, payload@),
        ipv4_header_checksum_ok(frame@),
        ipv4_transport_checksum_ok(frame@, 17),
        payload@.len() + 28 <= 0xFFFF ==> parse_packet_spec(frame@) == Ok::<
            ParsedPacketView,
            ParseError,
        >(
            ParsedPacketView::Udp(
                UdpPacketView {
                    src: IpAddress::V4(src),
                    dst: IpAddress::V4(dst),
                    src_port,
                    dst_port,
                    payload: payload@,
                },
            ),
        ),
{
    proof {
        lemma_ipv4_udp_checksums(src, dst, src_port, dst_port, payload@);
        if payload@.len() + 28 <= 0xFFFF {
            lemma_ipv4_udp_round_trip(src, dst, src_port, dst_port, payload@);
        }
    }
    let mut segment = build_udp_segment(src_port, dst_port, payload);
    let sum = udp_ipv4(src, dst, segment.as_slice());
    set_checksum(&mut segment, 6, sum);
    let mut frame = build_ipv4_header(20 + segment.len(), 17, src, dst);
    append_bytes(&mut frame, segment.as_slice());
    frame
}

pub fn build_ipv6_udp_response(src: u128, dst: u128, src_port: u16, dst_port: u16, payload: &[u8]) -> (frame:
    Vec<u8>)
    requires
        payload@.len() + 8 <= usize::MAX,
    ensures
        frame@ == ipv6_udp_frame(src, dst, src_port, dst_port, payload@),
        ipv6_transport_checksum_ok(frame@, 17),
        payload@.len() + 8 <= 0xFFFF ==> parse_packet_spec(frame@) == Ok::<
            ParsedPacketView,
            ParseError,
        >(
            ParsedPacketView::Udp(
                UdpPacketView {
                    src: IpAddress::V6(src),
                    dst: IpAddress::V6(dst),
                    src_port,
                    dst_port,
                    payload: payload@,
                },
            ),
        ),
{
    proof {
        lemma_ipv6_udp_checksums(src, dst, src_port, dst_port, payload@);
        if payload@.len() + 8 <= 0xFFFF {
            lemma_ipv6_udp_round_trip(src, dst, src_port, dst_port, payload@);
        }
    }
    let mut segment = build_udp_segment(src_port, dst_port, payload);
    let sum = udp_ipv6(src, dst, segment.as_slice());
    set_checksum(&mut segment, 6, sum);
    let mut frame = build_ipv6_header(segment.len(), 17, src, dst);
    append_bytes(&mut frame, segment.as_slice());
    frame
}

/// Build a UDP response packet (server -> client) for a flow from
/// `client:client_port` to `server:server_port`: `None` if the two addresses
/// are not of one family.
pub fn build_udp_response(
    client: IpAddress,
    client_port: u16,
    server: IpAddress,
    server_port: u16,
    payload: &[u8],
) -> (frame: Option<Vec<u8>>)
    requires
        payload@.len() + 28 <= usize::MAX,
    ensures
        match frame {
            Some(bytes) => udp_response_frame(client, client_port, server, server_port, payload@)
                == Some(bytes@),
            None => udp_response_frame(client, client_port, server, server_port, payload@)
                is None,
        },
        frame matches Some(bytes) ==> checksums_hold(bytes@, client is V6, 17),
        (frame matches Some(bytes) && payload@.len() + (if client is V6 {
            8nat
        } else {
            28nat
        }) <= 0xFFFF) ==> parse_packet_spec(
            frame->0@,
        ) == Ok::<ParsedPacketView, ParseError>(
            ParsedPacketView::Udp(
                UdpPacketView {
                    src: server,
                    dst: client,
                    src_port: server_port,
                    dst_port: client_port,
                    payload: payload@,
                },
            ),
        ),
{
    match (client, server) {
        (IpAddress::V4(c), IpAddress::V4(s)) => Some(
            build_ipv4_udp_response(s, c, server_port, client_port, payload),
        ),
        (IpAddress::V6(c), IpAddress::V6(s)) => Some(
            build_ipv6_udp_response(s, c, server_port, client_port, payload),
        ),
        _ => None,
    }
}

fn quoted_slice<'a>(payload: &'a [u8]) -> (quoted: &'a [u8])
    ensures
        quoted@ == quoted_payload(payload@),
        quoted@.len() <= 8,
{
    if payload.len() <= 8 {
        payload
    } else {
        let quoted = vstd::slice::slice_subrange(payload, 0, 8);
        assert(quoted@ =~= payload@.take(8));
        quoted
    }
}

fn build_icmp_message(kind: u8, code: u8, quoted: &[u8]) -> (message: Vec<u8>)
    ensures
        message@ == icmp_message(kind, code, quoted@),
        message@.len() == 8 + quoted@.len(),
{
    let mut message: Vec<u8> = Vec::new();
    message.push(kind);
    message.push(code);
    message.push(0);
    message.push(0);
    message.push(0);
    message.push(0);
    message.push(0);
    message.push(0);
    append_bytes(&mut message, quoted);
    assert(message@ =~= icmp_message(kind, code, quoted@));
    message
}

pub fn build_ipv4_icmp_block(client: u32, server: u32, packet: &UdpPacket<'_>) -> (frame: Vec<u8>)
    ensures
        frame@ == ipv4_prohibited_frame(client, server, packet@),
        ipv4_header_checksum_ok(frame@),
        icmp_checksum_ok(frame@),
{
    proof {
        let turned = UdpPacketView {
            src: IpAddress::V4(client),
            dst: IpAddress::V4(server),
            ..packet@
        };
        lemma_icmp_block_checksums(turned);
        assert(ipv4_prohibited_frame(client, server, turned) == ipv4_prohibited_frame(
            client,
            server,
            packet@,
        ));
    }
    let quoted = quoted_slice(packet.payload);
    let mut original = build_ipv4_header(28 + quoted.len(), 17, client, server);
    let segment = build_udp_segment(packet.src_port, packet.dst_port, quoted);
    append_bytes(&mut original, segment.as_slice());
    let mut message = build_icmp_message(3, 13, original.as_slice());
    let sum = ones_complement(0, message.as_slice());
    set_checksum(&mut message, 2, sum);
    let mut frame = build_ipv4_header(20 + message.len(), 1, server, client);
    append_bytes(&mut frame, message.as_slice());
    frame
}

pub fn build_ipv6_icmp_block(client: u128, server: u128, packet: &UdpPacket<'_>) -> (frame: Vec<u8>)
    ensures
        frame@ == ipv6_prohibited_frame(client, server, packet@),
        ipv6_transport_checksum_ok(frame@, 58),
{
    proof {
        let turned = UdpPacketView {
            src: IpAddress::V6(client),
            dst: IpAddress::V6(server),
            ..packet@
        };
        lemma_icmp_block_checksums(turned);
        assert(ipv6_prohibited_frame(client, server, turned) == ipv6_prohibited_frame(
            client,
            server,
            packet@,
        ));
    }
    let quoted = quoted_slice(packet.payload);
    let mut original = build_ipv6_header(8 + quoted.len(), 17, client, server);
    let segment = build_udp_segment(packet.src_port, packet.dst_port, quoted);
    append_bytes(&mut original, segment.as_slice());
    let mut message = build_icmp_message(1, 1, original.as_slice());
    let sum = icmpv6(server, client, message.as_slice());
    set_checksum(&mut message, 2, sum);
    let mut frame = build_ipv6_header(message.len(), 58, server, client);
    append_bytes(&mut frame, message.as_slice());
    frame
}

/// Builds the ICMP frame that answers a blocked datagram: `None` if its two
/// addresses are not of one family.
pub fn build_icmp_block(packet: &UdpPacket<'_>) -> (frame: Option<Vec<u8>>)
    ensures
        match frame {
            Some(bytes) => prohibited_frame(packet@) == Some(bytes@),
            None => prohibited_frame(packet@) is None,
        },
        frame matches Some(bytes) ==> checksums_hold(
            bytes@,
            packet.src is V6,
            if packet.src is V6 {
                58
            } else {
                1
            },
        ),
{
    match (packet.src, packet.dst) {
        (IpAddress::V4(src), IpAddress::V4(dst)) => Some(build_ipv4_icmp_block(src, dst, packet)),
        (IpAddress::V6(src), IpAddress::V6(dst)) => Some(build_ipv6_icmp_block(src, dst, packet)),
        _ => None,
    }
}

} // verus!
