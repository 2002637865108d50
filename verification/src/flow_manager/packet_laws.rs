//! What holds of every frame that the packet builders produce: the checksums
//! in it are those that a receiver computes, and a reset parses back to the
//! packet that it answers, turned around.

use crate::addr::IpAddress;
use crate::bytes::{
    be_bytes, be_value, lemma_be_bytes_2, lemma_be_bytes_len, lemma_be_value_of_bytes,
    lemma_pow256_values,
};
use crate::device::{
    parse_packet_spec, ParseError, ParsedPacketView, TcpFlags, TcpPacketView, UdpPacketView,
};
use crate::flow_manager::checksum::{
    lemma_checksum_verifies, ones_complement_spec, pseudo_header_v4, pseudo_header_v6,
};
use crate::flow_manager::packet_builder::{
    prohibited_frame, icmp_message, ipv4_header_spec, ipv4_header_unsummed, ipv4_prohibited_frame,
    ipv4_quoted_datagram, ipv4_tcp_reset_frame, ipv4_udp_frame, ipv6_header_spec,
    ipv6_prohibited_frame, ipv6_quoted_datagram, ipv6_tcp_reset_frame, ipv6_udp_frame,
    reset_seq_number, tcp_ack_number_spec, tcp_reset_frame, tcp_reset_segment,
    udp_segment, with_checksum,
};
use vstd::prelude::*;

verus! {

/// The receiver's check of an IPv4 header: its twenty bytes sum to all ones.
pub open spec fn ipv4_header_checksum_ok(frame: Seq<u8>) -> bool {
    frame.len() >= 20 && ones_complement_spec(0, frame.subrange(0, 20)) == 0
}

/// The receiver's check of what an IPv4 frame carries behind its twenty-byte
/// header: with the pseudo-header before it, it sums to all ones.
pub open spec fn ipv4_transport_checksum_ok(frame: Seq<u8>, protocol: u8) -> bool {
    frame.len() >= 20 && ones_complement_spec(
        0,
        pseudo_header_v4(
            be_value(frame.subrange(12, 16)) as u32,
            be_value(frame.subrange(16, 20)) as u32,
            protocol,
            (frame.len() - 20) as nat,
        ) + frame.subrange(20, frame.len() as int),
    ) == 0
}

/// The receiver's check of what an IPv6 frame carries behind its header.
pub open spec fn ipv6_transport_checksum_ok(frame: Seq<u8>, next_header: u8) -> bool {
    frame.len() >= 40 && ones_complement_spec(
        0,
        pseudo_header_v6(
            be_value(frame.subrange(8, 24)) as u128,
            be_value(frame.subrange(24, 40)) as u128,
            next_header,
            (frame.len() - 40) as nat,
        ) + frame.subrange(40, frame.len() as int),
    ) == 0
}

/// The receiver's check of an ICMP message behind an IPv4 header: it sums to all ones.
pub open spec fn icmp_checksum_ok(frame: Seq<u8>) -> bool {
    frame.len() >= 20 && ones_complement_spec(0, frame.skip(20)) == 0
}

/// Whether the checksums of a frame that carries `protocol` hold of its own
/// bytes, as a receiver checks them: over IPv4 the checksum of the header
/// and that of what it carries, over IPv6 the one of what it carries.
pub open spec fn checksums_hold(frame: Seq<u8>, v6: bool, protocol: u8) -> bool {
    if v6 {
        ipv6_transport_checksum_ok(frame, protocol)
    } else if protocol == 1 {
        ipv4_header_checksum_ok(frame) && icmp_checksum_ok(frame)
    } else {
        ipv4_header_checksum_ok(frame) && ipv4_transport_checksum_ok(frame, protocol)
    }
}

/// The layout of the IPv4 header that the builders write.
pub proof fn lemma_ipv4_header_layout(total_len: nat, protocol: u8, src: u32, dst: u32)
    ensures
        ({
            let header = ipv4_header_spec(total_len, protocol, src, dst);
            &&& header.len() == 20
            &&& header[0] == 0x45
            &&& header[9] == protocol
            &&& header[2] as nat * 256 + header[3] as nat == total_len % 0x1_0000
            &&& header.subrange(12, 16) == be_bytes(src as nat, 4)
            &&& header.subrange(16, 20) == be_bytes(dst as nat, 4)
            &&& ones_complement_spec(0, header) == 0
        }),
{
    let unsummed = ipv4_header_unsummed(total_len, protocol, src, dst);
    let header = ipv4_header_spec(total_len, protocol, src, dst);
    lemma_be_bytes_len(total_len % 0x1_0000, 2);
    lemma_be_bytes_len(src as nat, 4);
    lemma_be_bytes_len(dst as nat, 4);
    lemma_be_bytes_2(total_len % 0x1_0000);
    assert(unsummed.len() == 20);
    assert(unsummed[10] == 0 && unsummed[11] == 0);
    assert(header.subrange(12, 16) =~= be_bytes(src as nat, 4));
    assert(header.subrange(16, 20) =~= be_bytes(dst as nat, 4));
    lemma_checksum_verifies(Seq::empty(), unsummed, 10);
    assert(Seq::<u8>::empty() + unsummed =~= unsummed);
    assert(Seq::<u8>::empty() + header =~= header);
}

/// The layout of the IPv6 header that the builders write.
pub proof fn lemma_ipv6_header_layout(payload_len: nat, next_header: u8, src: u128, dst: u128)
    ensures
        ({
            let header = ipv6_header_spec(payload_len, next_header, src, dst);
            &&& header.len() == 40
            &&& header[0] == 0x60
            &&& header[6] == next_header
            &&& header[4] as nat * 256 + header[5] as nat == payload_len % 0x1_0000
            &&& header.subrange(8, 24) == be_bytes(src as nat, 16)
            &&& header.subrange(24, 40) == be_bytes(dst as nat, 16)
        }),
{
    let header = ipv6_header_spec(payload_len, next_header, src, dst);
    lemma_be_bytes_len(payload_len % 0x1_0000, 2);
    lemma_be_bytes_len(src as nat, 16);
    lemma_be_bytes_len(dst as nat, 16);
    lemma_be_bytes_2(payload_len % 0x1_0000);
    assert(header.subrange(8, 24) =~= be_bytes(src as nat, 16));
    assert(header.subrange(24, 40) =~= be_bytes(dst as nat, 16));
}

/// A frame made of an IPv4 header and a segment whose checksum field holds
/// the checksum of pseudo-header and segment passes both of the receiver's checks.
proof fn lemma_ipv4_frame_checks(
    total_len: nat,
    protocol: u8,
    src: u32,
    dst: u32,
    segment: Seq<u8>,
    off: int,
)
    requires
        0 <= off,
        off % 2 == 0,
        off + 2 <= segment.len(),
        segment[off] == 0,
        segment[off + 1] == 0,
    ensures
        ({
            let sum = ones_complement_spec(
                0,
                pseudo_header_v4(src, dst, protocol, segment.len()) + segment,
            );
            let frame = ipv4_header_spec(total_len, protocol, src, dst) + with_checksum(
                segment,
                off,
                sum,
            );
            ipv4_header_checksum_ok(frame) && ipv4_transport_checksum_ok(frame, protocol)
        }),
{
    let pseudo = pseudo_header_v4(src, dst, protocol, segment.len());
    let sum = ones_complement_spec(0, pseudo + segment);
    let header = ipv4_header_spec(total_len, protocol, src, dst);
    let filled = with_checksum(segment, off, sum);
    let frame = header + filled;
    lemma_ipv4_header_layout(total_len, protocol, src, dst);
    lemma_pow256_values();
    lemma_be_value_of_bytes(src as nat, 4);
    lemma_be_value_of_bytes(dst as nat, 4);
    lemma_be_bytes_len(src as nat, 4);
    lemma_be_bytes_len(dst as nat, 4);
    lemma_be_bytes_len(segment.len() % 0x1_0000, 2);
    assert(pseudo.len() == 12);
    assert(frame.subrange(0, 20) =~= header);
    assert(frame.subrange(12, 16) =~= header.subrange(12, 16));
    assert(frame.subrange(16, 20) =~= header.subrange(16, 20));
    assert(frame.subrange(20, frame.len() as int) =~= filled);
    lemma_checksum_verifies(pseudo, segment, off);
}

/// A frame made of an IPv6 header and a segment whose checksum field holds
/// the checksum of pseudo-header and segment passes the receiver's check.
proof fn lemma_ipv6_frame_checks(
    payload_len: nat,
    next_header: u8,
    src: u128,
    dst: u128,
    segment: Seq<u8>,
    off: int,
)
    requires
        0 <= off,
        off % 2 == 0,
        off + 2 <= segment.len(),
        segment[off] == 0,
        segment[off + 1] == 0,
    ensures
        ({
            let sum = ones_complement_spec(
                0,
                pseudo_header_v6(src, dst, next_header, segment.len()) + segment,
            );
            let frame = ipv6_header_spec(payload_len, next_header, src, dst) + with_checksum(
                segment,
                off,
                sum,
            );
            ipv6_transport_checksum_ok(frame, next_header)
        }),
{
    let pseudo = pseudo_header_v6(src, dst, next_header, segment.len());
    let sum = ones_complement_spec(0, pseudo + segment);
    let header = ipv6_header_spec(payload_len, next_header, src, dst);
    let filled = with_checksum(segment, off, sum);
    let frame = header + filled;
    lemma_ipv6_header_layout(payload_len, next_header, src, dst);
    lemma_pow256_values();
    lemma_be_value_of_bytes(src as nat, 16);
    lemma_be_value_of_bytes(dst as nat, 16);
    lemma_be_bytes_len(src as nat, 16);
    lemma_be_bytes_len(dst as nat, 16);
    lemma_be_bytes_len(segment.len() % 0x1_0000_0000, 4);
    assert(pseudo.len() == 40);
    assert(frame.subrange(8, 24) =~= header.subrange(8, 24));
    assert(frame.subrange(24, 40) =~= header.subrange(24, 40));
    assert(frame.subrange(40, frame.len() as int) =~= filled);
    lemma_checksum_verifies(pseudo, segment, off);
}

/// The layout of the TCP header of a reset.
pub proof fn lemma_reset_segment_layout(packet: TcpPacketView)
    ensures
        ({
            let segment = tcp_reset_segment(packet);
            &&& segment.len() == 20
            &&& segment[0] as nat * 256 + segment[1] as nat == packet.dst_port
            &&& segment[2] as nat * 256 + segment[3] as nat == packet.src_port
            &&& segment.subrange(4, 8) == be_bytes(reset_seq_number(packet) as nat, 4)
            &&& segment.subrange(8, 12) == be_bytes(tcp_ack_number_spec(packet) as nat, 4)
            &&& segment[12] == 0x50
            &&& segment[13] == 0x14
            &&& segment[16] == 0
            &&& segment[17] == 0
        }),
{
    let segment = tcp_reset_segment(packet);
    lemma_be_bytes_len(packet.dst_port as nat, 2);
    lemma_be_bytes_len(packet.src_port as nat, 2);
    lemma_be_bytes_len(reset_seq_number(packet) as nat, 4);
    lemma_be_bytes_len(tcp_ack_number_spec(packet) as nat, 4);
    lemma_be_bytes_2(packet.dst_port as nat);
    lemma_be_bytes_2(packet.src_port as nat);
    assert(segment.subrange(4, 8) =~= be_bytes(reset_seq_number(packet) as nat, 4));
    assert(segment.subrange(8, 12) =~= be_bytes(tcp_ack_number_spec(packet) as nat, 4));
}

/// Every reset that the builder produces carries an IP header checksum (over
/// IPv4) and a TCP checksum over the pseudo-header that hold of its own bytes.
pub proof fn lemma_tcp_reset_checksums(packet: TcpPacketView)
    ensures
        match (packet.src, packet.dst) {
            (IpAddress::V4(client), IpAddress::V4(server)) => {
                let frame = ipv4_tcp_reset_frame(client, server, packet);
                ipv4_header_checksum_ok(frame) && ipv4_transport_checksum_ok(frame, 6)
            },
            (IpAddress::V6(client), IpAddress::V6(server)) => ipv6_transport_checksum_ok(
                ipv6_tcp_reset_frame(client, server, packet),
                6,
            ),
            _ => tcp_reset_frame(packet) is None,
        },
{
    lemma_reset_segment_layout(packet);
    match (packet.src, packet.dst) {
        (IpAddress::V4(client), IpAddress::V4(server)) => {
            lemma_ipv4_frame_checks(40, 6, server, client, tcp_reset_segment(packet), 16);
        },
        (IpAddress::V6(client), IpAddress::V6(server)) => {
            lemma_ipv6_frame_checks(20, 6, server, client, tcp_reset_segment(packet), 16);
        },
        _ => {},
    }
}

/// The layout of a UDP header with its payload.
pub proof fn lemma_udp_segment_layout(src_port: u16, dst_port: u16, payload: Seq<u8>)
    ensures
        ({
            let segment = udp_segment(src_port, dst_port, payload);
            &&& segment.len() == 8 + payload.len()
            &&& segment[0] as nat * 256 + segment[1] as nat == src_port
            &&& segment[2] as nat * 256 + segment[3] as nat == dst_port
            &&& segment[4] as nat * 256 + segment[5] as nat == (8 + payload.len()) % 0x1_0000
            &&& segment[6] == 0
            &&& segment[7] == 0
            &&& segment.subrange(8, segment.len() as int) == payload
        }),
{
    let segment = udp_segment(src_port, dst_port, payload);
    lemma_be_bytes_len(src_port as nat, 2);
    lemma_be_bytes_len(dst_port as nat, 2);
    lemma_be_bytes_len((8 + payload.len()) % 0x1_0000, 2);
    lemma_be_bytes_2(src_port as nat);
    lemma_be_bytes_2(dst_port as nat);
    lemma_be_bytes_2((8 + payload.len()) % 0x1_0000);
    assert(segment.subrange(8, segment.len() as int) =~= payload);
}

/// Every UDP datagram that the builder produces over IPv4 carries an IP header
/// checksum and a UDP checksum over the pseudo-header that hold of its own bytes.
pub proof fn lemma_ipv4_udp_checksums(
    src: u32,
    dst: u32,
    src_port: u16,
    dst_port: u16,
    payload: Seq<u8>,
)
    ensures
        ipv4_header_checksum_ok(ipv4_udp_frame(src, dst, src_port, dst_port, payload)),
        ipv4_transport_checksum_ok(ipv4_udp_frame(src, dst, src_port, dst_port, payload), 17),
{
    let segment = udp_segment(src_port, dst_port, payload);
    lemma_udp_segment_layout(src_port, dst_port, payload);
    lemma_ipv4_frame_checks(20 + segment.len(), 17, src, dst, segment, 6);
}

/// Every UDP datagram that the builder produces over IPv6 carries a UDP
/// checksum over the pseudo-header that holds of its own bytes.
pub proof fn lemma_ipv6_udp_checksums(
    src: u128,
    dst: u128,
    src_port: u16,
    dst_port: u16,
    payload: Seq<u8>,
)
    ensures
        ipv6_transport_checksum_ok(ipv6_udp_frame(src, dst, src_port, dst_port, payload), 17),
{
    let segment = udp_segment(src_port, dst_port, payload);
    lemma_udp_segment_layout(src_port, dst_port, payload);
    lemma_ipv6_frame_checks(segment.len(), 17, src, dst, segment, 6);
}

/// An ICMP message behind an IPv4 header passes the receiver's checks once
/// its checksum field holds the checksum of the message.
proof fn lemma_ipv4_icmp_checks(src: u32, dst: u32, kind: u8, code: u8, quoted: Seq<u8>)
    ensures
        ({
            let message = icmp_message(kind, code, quoted);
            let frame = ipv4_header_spec(20 + message.len(), 1, src, dst) + with_checksum(
                message,
                2,
                ones_complement_spec(0, message),
            );
            ipv4_header_checksum_ok(frame) && icmp_checksum_ok(frame)
        }),
{
    let message = icmp_message(kind, code, quoted);
    let sum = ones_complement_spec(0, message);
    let header = ipv4_header_spec(20 + message.len(), 1, src, dst);
    let filled = with_checksum(message, 2, sum);
    let frame = header + filled;
    lemma_ipv4_header_layout(20 + message.len(), 1, src, dst);
    assert(frame.subrange(0, 20) =~= header);
    assert(frame.skip(20) =~= filled);
    lemma_checksum_verifies(Seq::empty(), message, 2);
    assert(Seq::<u8>::empty() + message =~= message);
    assert(Seq::<u8>::empty() + filled =~= filled);
}

/// Every ICMP frame that answers a blocked datagram carries checksums that
/// hold of its own bytes: the outer IPv4 header's and the ICMP message's, or
/// the ICMPv6 message's over the pseudo-header.
pub proof fn lemma_icmp_block_checksums(packet: UdpPacketView)
    ensures
        match (packet.src, packet.dst) {
            (IpAddress::V4(client), IpAddress::V4(server)) => {
                let frame = ipv4_prohibited_frame(client, server, packet);
                ipv4_header_checksum_ok(frame) && icmp_checksum_ok(frame)
            },
            (IpAddress::V6(client), IpAddress::V6(server)) => ipv6_transport_checksum_ok(
                ipv6_prohibited_frame(client, server, packet),
                58,
            ),
            _ => prohibited_frame(packet) is None,
        },
{
    match (packet.src, packet.dst) {
        (IpAddress::V4(client), IpAddress::V4(server)) => {
            lemma_ipv4_icmp_checks(
                server,
                client,
                3,
                13,
                ipv4_quoted_datagram(client, server, packet),
            );
        },
        (IpAddress::V6(client), IpAddress::V6(server)) => {
            let message = icmp_message(1, 1, ipv6_quoted_datagram(client, server, packet));
            lemma_ipv6_frame_checks(message.len(), 58, server, client, message, 2);
        },
        _ => {},
    }
}

/// The bytes of a frame that is made of a header and, behind it, a segment
/// with its checksum filled in at `off`.
proof fn lemma_framed_bytes(header: Seq<u8>, segment: Seq<u8>, off: int, sum: u16)
    requires
        0 <= off,
        off + 2 <= segment.len(),
    ensures
        ({
            let frame = header + with_checksum(segment, off, sum);
            &&& frame.len() == header.len() + segment.len()
            &&& forall|i: int| 0 <= i < header.len() ==> #[trigger] frame[i] == header[i]
            &&& forall|j: int|
                0 <= j < segment.len() && j != off && j != off + 1 ==> #[trigger] frame[header.len()
                    + j] == segment[j]
        }),
{
}

/// The addresses that a frame holds where its IPv4 header holds them.
proof fn lemma_framed_v4_addresses(header: Seq<u8>, rest: Seq<u8>, src: u32, dst: u32)
    requires
        header.len() == 20,
        header.subrange(12, 16) == be_bytes(src as nat, 4),
        header.subrange(16, 20) == be_bytes(dst as nat, 4),
    ensures
        be_value((header + rest).subrange(12, 16)) == src,
        be_value((header + rest).subrange(16, 20)) == dst,
{
    lemma_pow256_values();
    lemma_be_value_of_bytes(src as nat, 4);
    lemma_be_value_of_bytes(dst as nat, 4);
    assert((header + rest).subrange(12, 16) =~= header.subrange(12, 16));
    assert((header + rest).subrange(16, 20) =~= header.subrange(16, 20));
}

/// The addresses that a frame holds where its IPv6 header holds them.
proof fn lemma_framed_v6_addresses(header: Seq<u8>, rest: Seq<u8>, src: u128, dst: u128)
    requires
        header.len() == 40,
        header.subrange(8, 24) == be_bytes(src as nat, 16),
        header.subrange(24, 40) == be_bytes(dst as nat, 16),
    ensures
        be_value((header + rest).subrange(8, 24)) == src,
        be_value((header + rest).subrange(24, 40)) == dst,
{
    lemma_pow256_values();
    lemma_be_value_of_bytes(src as nat, 16);
    lemma_be_value_of_bytes(dst as nat, 16);
    assert((header + rest).subrange(8, 24) =~= header.subrange(8, 24));
    assert((header + rest).subrange(24, 40) =~= header.subrange(24, 40));
}

/// A frame of an IPv4 header and, behind it, a UDP segment with its
/// checksum filled in parses to the datagram that the two are laid out for.
proof fn lemma_framed_v4_udp_parses(
    header: Seq<u8>,
    segment: Seq<u8>,
    sum: u16,
    src: u32,
    dst: u32,
    src_port: u16,
    dst_port: u16,
    payload: Seq<u8>,
)
    requires
        payload.len() + 28 <= 0xFFFF,
        header.len() == 20,
        header[0] == 0x45,
        header[9] == 17,
        header[2] as nat * 256 + header[3] as nat == 28 + payload.len(),
        header.subrange(12, 16) == be_bytes(src as nat, 4),
        header.subrange(16, 20) == be_bytes(dst as nat, 4),
        segment.len() == 8 + payload.len(),
        segment[0] as nat * 256 + segment[1] as nat == src_port,
        segment[2] as nat * 256 + segment[3] as nat == dst_port,
        segment[4] as nat * 256 + segment[5] as nat == 8 + payload.len(),
        segment.subrange(8, segment.len() as int) == payload,
    ensures
        parse_packet_spec(header + with_checksum(segment, 6, sum)) == Ok::<
            ParsedPacketView,
            ParseError,
        >(
            ParsedPacketView::Udp(
                UdpPacketView {
                    src: IpAddress::V4(src),
                    dst: IpAddress::V4(dst),
                    src_port,
                    dst_port,
                    payload,
                },
            ),
        ),
{
    let frame = header + with_checksum(segment, 6, sum);
    lemma_framed_bytes(header, segment, 6, sum);
    lemma_framed_v4_addresses(header, with_checksum(segment, 6, sum), src, dst);
    assert(frame[0] == header[0] && frame[2] == header[2] && frame[3] == header[3] && frame[9]
        == header[9]);
    assert(frame[header.len() + 0int] == segment[0]);
    assert(frame[header.len() + 1int] == segment[1]);
    assert(frame[header.len() + 2int] == segment[2]);
    assert(frame[header.len() + 3int] == segment[3]);
    assert(frame[header.len() + 4int] == segment[4]);
    assert(frame[header.len() + 5int] == segment[5]);
    assert(frame.subrange(28, frame.len() as int) =~= payload) by {
        assert forall|k: int| 0 <= k < payload.len() implies frame.subrange(
            28,
            frame.len() as int,
        )[k] == payload[k] by {
            assert(frame[header.len() + (8 + k)] == segment[8 + k]);
            assert(segment.subrange(8, segment.len() as int)[k] == segment[8 + k]);
        }
    }
    crate::device::lemma_ipv4_udp_parses(frame, src, dst, src_port, dst_port, payload);
}

/// A frame of an IPv6 header and, behind it, a UDP segment with its
/// checksum filled in parses to the datagram that the two are laid out for.
proof fn lemma_framed_v6_udp_parses(
    header: Seq<u8>,
    segment: Seq<u8>,
    sum: u16,
    src: u128,
    dst: u128,
    src_port: u16,
    dst_port: u16,
    payload: Seq<u8>,
)
    requires
        payload.len() + 8 <= 0xFFFF,
        header.len() == 40,
        header[0] == 0x60,
        header[6] == 17,
        header[4] as nat * 256 + header[5] as nat == 8 + payload.len(),
        header.subrange(8, 24) == be_bytes(src as nat, 16),
        header.subrange(24, 40) == be_bytes(dst as nat, 16),
        segment.len() == 8 + payload.len(),
        segment[0] as nat * 256 + segment[1] as nat == src_port,
        segment[2] as nat * 256 + segment[3] as nat == dst_port,
        segment[4] as nat * 256 + segment[5] as nat == 8 + payload.len(),
        segment.subrange(8, segment.len() as int) == payload,
    ensures
        parse_packet_spec(header + with_checksum(segment, 6, sum)) == Ok::<
            ParsedPacketView,
            ParseError,
        >(
            ParsedPacketView::Udp(
                UdpPacketView {
                    src: IpAddress::V6(src),
                    dst: IpAddress::V6(dst),
                    src_port,
                    dst_port,
                    payload,
                },
            ),
        ),
{
    let frame = header + with_checksum(segment, 6, sum);
    lemma_framed_bytes(header, segment, 6, sum);
    lemma_framed_v6_addresses(header, with_checksum(segment, 6, sum), src, dst);
    assert(frame[0] == header[0] && frame[4] == header[4] && frame[5] == header[5] && frame[6]
        == header[6]);
    assert(frame[header.len() + 0int] == segment[0]);
    assert(frame[header.len() + 1int] == segment[1]);
    assert(frame[header.len() + 2int] == segment[2]);
    assert(frame[header.len() + 3int] == segment[3]);
    assert(frame[header.len() + 4int] == segment[4]);
    assert(frame[header.len() + 5int] == segment[5]);
    assert(frame.subrange(48, frame.len() as int) =~= payload) by {
        assert forall|k: int| 0 <= k < payload.len() implies frame.subrange(
            48,
            frame.len() as int,
        )[k] == payload[k] by {
            assert(frame[header.len() + (8 + k)] == segment[8 + k]);
            assert(segment.subrange(8, segment.len() as int)[k] == segment[8 + k]);
        }
    }
    crate::device::lemma_ipv6_udp_parses(frame, src, dst, src_port, dst_port, payload);
}

/// A datagram that the builder makes over IPv4 parses back to its
/// addresses, its ports and its payload, as long as it fits the length
/// field of the header.
pub proof fn lemma_ipv4_udp_round_trip(
    src: u32,
    dst: u32,
    src_port: u16,
    dst_port: u16,
    payload: Seq<u8>,
)
    requires
        payload.len() + 28 <= 0xFFFF,
    ensures
        parse_packet_spec(ipv4_udp_frame(src, dst, src_port, dst_port, payload)) == Ok::<
            ParsedPacketView,
            ParseError,
        >(
            ParsedPacketView::Udp(
                UdpPacketView {
                    src: IpAddress::V4(src),
                    dst: IpAddress::V4(dst),
                    src_port,
                    dst_port,
                    payload,
                },
            ),
        ),
{
    let segment = udp_segment(src_port, dst_port, payload);
    let sum = ones_complement_spec(0, pseudo_header_v4(src, dst, 17, segment.len()) + segment);
    let header = ipv4_header_spec(20 + segment.len(), 17, src, dst);
    lemma_udp_segment_layout(src_port, dst_port, payload);
    lemma_ipv4_header_layout(20 + segment.len(), 17, src, dst);
    lemma_framed_v4_udp_parses(header, segment, sum, src, dst, src_port, dst_port, payload);
}

/// A datagram that the builder makes over IPv6 parses back to its
/// addresses, its ports and its payload, as long as it fits the length
/// field of the header.
pub proof fn lemma_ipv6_udp_round_trip(
    src: u128,
    dst: u128,
    src_port: u16,
    dst_port: u16,
    payload: Seq<u8>,
)
    requires
        payload.len() + 8 <= 0xFFFF,
    ensures
        parse_packet_spec(ipv6_udp_frame(src, dst, src_port, dst_port, payload)) == Ok::<
            ParsedPacketView,
            ParseError,
        >(
            ParsedPacketView::Udp(
                UdpPacketView {
                    src: IpAddress::V6(src),
                    dst: IpAddress::V6(dst),
                    src_port,
                    dst_port,
                    payload,
                },
            ),
        ),
{
    let segment = udp_segment(src_port, dst_port, payload);
    let sum = ones_complement_spec(0, pseudo_header_v6(src, dst, 17, segment.len()) + segment);
    let header = ipv6_header_spec(segment.len(), 17, src, dst);
    lemma_udp_segment_layout(src_port, dst_port, payload);
    lemma_ipv6_header_layout(segment.len(), 17, src, dst);
    lemma_framed_v6_udp_parses(header, segment, sum, src, dst, src_port, dst_port, payload);
}

/// The packet that the reset for `packet` parses to: the addresses and ports
/// swapped, RST and ACK set, no payload.
pub open spec fn reset_as_parsed(packet: TcpPacketView) -> TcpPacketView {
    TcpPacketView {
        src: packet.dst,
        dst: packet.src,
        src_port: packet.dst_port,
        dst_port: packet.src_port,
        seq_number: reset_seq_number(packet),
        ack_number: tcp_ack_number_spec(packet),
        flags: TcpFlags { syn: false, ack: true, fin: false, rst: true },
        payload: Seq::empty(),
    }
}

/// Building a reset and parsing it gives flags RST and ACK, the ports and
/// addresses swapped, and as acknowledgement number the incoming sequence
/// number plus the payload length, plus one for SYN and one for FIN.
pub proof fn lemma_reset_round_trip(packet: TcpPacketView, frame: Seq<u8>)
    requires
        tcp_reset_frame(packet) == Some(frame),
    ensures
        parse_packet_spec(frame) == Ok::<ParsedPacketView, ParseError>(
            ParsedPacketView::Tcp(reset_as_parsed(packet)),
        ),
{
    let segment = tcp_reset_segment(packet);
    lemma_reset_segment_layout(packet);
    lemma_pow256_values();
    lemma_be_value_of_bytes(reset_seq_number(packet) as nat, 4);
    lemma_be_value_of_bytes(tcp_ack_number_spec(packet) as nat, 4);
    match (packet.src, packet.dst) {
        (IpAddress::V4(client), IpAddress::V4(server)) => {
            let sum = ones_complement_spec(0, pseudo_header_v4(server, client, 6, 20) + segment);
            let header = ipv4_header_spec(40, 6, server, client);
            let filled = with_checksum(segment, 16, sum);
            lemma_ipv4_header_layout(40, 6, server, client);
            lemma_be_value_of_bytes(server as nat, 4);
            lemma_be_value_of_bytes(client as nat, 4);
            assert(frame.subrange(12, 16) =~= header.subrange(12, 16));
            assert(frame.subrange(16, 20) =~= header.subrange(16, 20));
            let payload = frame.subrange(20, 40);
            assert(payload =~= filled);
            assert(payload.subrange(4, 8) =~= segment.subrange(4, 8));
            assert(payload.subrange(8, 12) =~= segment.subrange(8, 12));
            assert(payload.subrange(20, 20) =~= Seq::<u8>::empty());
            assert(frame[0] == 0x45);
            assert(frame[2] == 0 && frame[3] == 40);
            assert(frame[9] == 6);
        },
        (IpAddress::V6(client), IpAddress::V6(server)) => {
            let sum = ones_complement_spec(0, pseudo_header_v6(server, client, 6, 20) + segment);
            let header = ipv6_header_spec(20, 6, server, client);
            let filled = with_checksum(segment, 16, sum);
            lemma_ipv6_header_layout(20, 6, server, client);
            lemma_be_value_of_bytes(server as nat, 16);
            lemma_be_value_of_bytes(client as nat, 16);
            assert(frame.subrange(8, 24) =~= header.subrange(8, 24));
            assert(frame.subrange(24, 40) =~= header.subrange(24, 40));
            let payload = frame.subrange(40, 60);
            assert(payload =~= filled);
            assert(payload.subrange(4, 8) =~= segment.subrange(4, 8));
            assert(payload.subrange(8, 12) =~= segment.subrange(8, 12));
            assert(payload.subrange(20, 20) =~= Seq::<u8>::empty());
            assert(frame[0] == 0x60);
            assert(frame[4] == 0 && frame[5] == 20);
            assert(frame[6] == 6);
        },
        _ => {},
    }
}

} // verus!
