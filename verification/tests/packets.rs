use engine_bridge::addr::{ip_string, parse_ip, IpAddress};
use engine_bridge::device::{parse_packet_validated, ParsedPacket, TcpFlags, TcpPacket, UdpPacket};
use engine_bridge::flow_manager::checksum::{
    icmpv6, ipv4_header, ones_complement, tcp_ipv4, tcp_ipv6, udp_ipv4, udp_ipv6,
};
use engine_bridge::flow_manager::packet_builder::{
    build_icmp_block, build_ipv4_icmp_block, build_ipv4_tcp_reset, build_ipv4_udp_response,
    build_ipv6_icmp_block, build_ipv6_tcp_reset, build_ipv6_udp_response, build_tcp_reset,
    build_udp_response,
};

fn tcp_packet<'a>(flags: TcpFlags, seq: u32, ack: u32, payload: &'a [u8]) -> TcpPacket<'a> {
    TcpPacket {
        src: IpAddress::v4(10, 0, 0, 2),
        dst: IpAddress::v4(203, 0, 113, 55),
        src_port: 4000,
        dst_port: 443,
        seq_number: seq,
        ack_number: ack,
        flags,
        payload,
    }
}

fn pseudo_v4(src: [u8; 4], dst: [u8; 4], protocol: u8, segment: &[u8]) -> Vec<u8> {
    let mut bytes = Vec::new();
    bytes.extend_from_slice(&src);
    bytes.extend_from_slice(&dst);
    bytes.push(0);
    bytes.push(protocol);
    bytes.extend_from_slice(&(segment.len() as u16).to_be_bytes());
    bytes.extend_from_slice(segment);
    bytes
}

fn pseudo_v6(src: u128, dst: u128, next: u8, segment: &[u8]) -> Vec<u8> {
    let mut bytes = Vec::new();
    bytes.extend_from_slice(&src.to_be_bytes());
    bytes.extend_from_slice(&dst.to_be_bytes());
    bytes.extend_from_slice(&(segment.len() as u32).to_be_bytes());
    bytes.extend_from_slice(&[0, 0, 0, next]);
    bytes.extend_from_slice(segment);
    bytes
}

#[test]
fn ones_complement_of_known_header() {
    // The classic example header, with its checksum field zeroed.
    let header = [
        0x45u8, 0x00, 0x00, 0x73, 0x00, 0x00, 0x40, 0x00, 0x40, 0x11, 0x00, 0x00, 0xc0, 0xa8, 0x00,
        0x01, 0xc0, 0xa8, 0x00, 0xc7,
    ];
    assert_eq!(ipv4_header(&header), 0xb861);
    assert_eq!(ones_complement(0, &header), 0xb861);
    assert_eq!(ones_complement(0, &[]), 0xFFFF);
    assert_eq!(ones_complement(0, &[0x12]), !0x1200u16);
    assert_eq!(ones_complement(0xFFFF_FFFF, &[0x00, 0x01]), 0xFFFF);
    assert_eq!(ones_complement(1, &[0xFF, 0xFF]), 0xFFFE);
}

#[test]
fn pseudo_header_checksums_match_plain_sums() {
    let segment = [1u8, 2, 3, 4, 5, 6, 7];
    let src = 0x0a000002u32;
    let dst = 0xcb007137u32;
    assert_eq!(
        tcp_ipv4(src, dst, &segment),
        ones_complement(0, &pseudo_v4([10, 0, 0, 2], [203, 0, 113, 55], 6, &segment))
    );
    assert_eq!(
        udp_ipv4(src, dst, &segment),
        ones_complement(0, &pseudo_v4([10, 0, 0, 2], [203, 0, 113, 55], 17, &segment))
    );
    let a = 0xfd00_0001_0000_0000_0000_0000_0000_0002u128;
    let b = 0x2001_0db8_0000_0000_0000_0000_0000_0001u128;
    assert_eq!(tcp_ipv6(a, b, &segment), ones_complement(0, &pseudo_v6(a, b, 6, &segment)));
    assert_eq!(udp_ipv6(a, b, &segment), ones_complement(0, &pseudo_v6(a, b, 17, &segment)));
    assert_eq!(icmpv6(a, b, &segment), ones_complement(0, &pseudo_v6(a, b, 58, &segment)));
}

#[test]
fn tcp_reset_round_trips_through_the_parser() {
    let flags = TcpFlags { syn: true, ack: false, fin: true, rst: false };
    let payload = [1u8, 2, 3];
    let packet = tcp_packet(flags, 1000, 77, &payload);
    let frame = build_tcp_reset(&packet).expect("frame");
    assert_eq!(frame.len(), 40);
    match parse_packet_validated(&frame) {
        Ok(ParsedPacket::Tcp(reset)) => {
            assert_eq!(reset.src, packet.dst);
            assert_eq!(reset.dst, packet.src);
            assert_eq!(reset.src_port, 443);
            assert_eq!(reset.dst_port, 4000);
            assert!(reset.flags.rst && reset.flags.ack && !reset.flags.syn && !reset.flags.fin);
            assert_eq!(reset.seq_number, 0);
            assert_eq!(reset.ack_number, 1000 + 3 + 1 + 1);
            assert!(reset.payload.is_empty());
        }
        other => panic!("expected tcp, got {:?}", other),
    }
    assert_eq!(ones_complement(0, &frame[..20]), 0);
    assert_eq!(
        ones_complement(0, &pseudo_v4([203, 0, 113, 55], [10, 0, 0, 2], 6, &frame[20..])),
        0
    );
}

#[test]
fn tcp_reset_takes_its_sequence_number_from_an_ack() {
    let flags = TcpFlags { syn: false, ack: true, fin: false, rst: false };
    let packet = tcp_packet(flags, u32::MAX, 0xdead_beef, &[9]);
    let frame = build_tcp_reset(&packet).expect("frame");
    match parse_packet_validated(&frame) {
        Ok(ParsedPacket::Tcp(reset)) => {
            assert_eq!(reset.seq_number, 0xdead_beef);
            assert_eq!(reset.ack_number, 0);
        }
        other => panic!("expected tcp, got {:?}", other),
    }
}

#[test]
fn tcp_reset_over_ipv6_verifies() {
    let client = 0xfd00_0001_0000_0000_0000_0000_0000_0002u128;
    let server = 0x2001_0db8_0000_0000_0000_0000_0000_0001u128;
    let packet = TcpPacket {
        src: IpAddress::V6(client),
        dst: IpAddress::V6(server),
        src_port: 5000,
        dst_port: 443,
        seq_number: 5,
        ack_number: 0,
        flags: TcpFlags { syn: true, ack: false, fin: false, rst: false },
        payload: &[],
    };
    let frame = build_tcp_reset(&packet).expect("frame");
    assert_eq!(frame.len(), 60);
    assert_eq!(ones_complement(0, &pseudo_v6(server, client, 6, &frame[40..])), 0);
    match parse_packet_validated(&frame) {
        Ok(ParsedPacket::Tcp(reset)) => {
            assert_eq!(reset.src, IpAddress::V6(server));
            assert_eq!(reset.dst, IpAddress::V6(client));
            assert_eq!(reset.ack_number, 6);
        }
        other => panic!("expected tcp, got {:?}", other),
    }
}

#[test]
fn mixed_families_build_nothing() {
    let packet = TcpPacket {
        src: IpAddress::v4(10, 0, 0, 2),
        dst: IpAddress::V6(1),
        src_port: 1,
        dst_port: 2,
        seq_number: 0,
        ack_number: 0,
        flags: TcpFlags::default(),
        payload: &[],
    };
    assert!(build_tcp_reset(&packet).is_none());
    let udp = UdpPacket {
        src: IpAddress::V6(1),
        dst: IpAddress::v4(10, 0, 0, 2),
        src_port: 1,
        dst_port: 2,
        payload: &[],
    };
    assert!(build_icmp_block(&udp).is_none());
    assert!(build_udp_response(IpAddress::V6(1), 1, IpAddress::v4(1, 1, 1, 1), 2, &[1]).is_none());
}

#[test]
fn udp_response_has_the_flow_turned_around() {
    let frame = build_udp_response(
        IpAddress::v4(10, 0, 0, 2),
        5500,
        IpAddress::v4(198, 18, 0, 42),
        8080,
        &[9, 8, 7],
    )
    .expect("frame");
    match parse_packet_validated(&frame) {
        Ok(ParsedPacket::Udp(udp)) => {
            assert_eq!(udp.src, IpAddress::v4(198, 18, 0, 42));
            assert_eq!(udp.dst, IpAddress::v4(10, 0, 0, 2));
            assert_eq!(udp.src_port, 8080);
            assert_eq!(udp.dst_port, 5500);
            assert_eq!(udp.payload, &[9, 8, 7]);
        }
        other => panic!("expected udp, got {:?}", other),
    }
    assert_eq!(ones_complement(0, &frame[..20]), 0);
    assert_eq!(
        ones_complement(0, &pseudo_v4([198, 18, 0, 42], [10, 0, 0, 2], 17, &frame[20..])),
        0
    );
}

#[test]
fn udp_response_over_ipv6_verifies() {
    let client = 0xfd00_0001_0000_0000_0000_0000_0000_0002u128;
    let server = 0x2606_4700_4700_0000_0000_0000_0000_1111u128;
    let frame =
        build_udp_response(IpAddress::V6(client), 1000, IpAddress::V6(server), 53, &[1, 2, 3, 4, 5])
            .expect("frame");
    assert_eq!(frame.len(), 40 + 8 + 5);
    assert_eq!(ones_complement(0, &pseudo_v6(server, client, 17, &frame[40..])), 0);
}

#[test]
fn icmp_block_quotes_the_datagram() {
    let payload = [1u8, 2, 3, 4, 5, 6, 7, 8, 9, 10];
    let udp = UdpPacket {
        src: IpAddress::v4(10, 0, 0, 5),
        dst: IpAddress::v4(198, 51, 100, 77),
        src_port: 5353,
        dst_port: 9000,
        payload: &payload,
    };
    let frame = build_icmp_block(&udp).expect("frame");
    assert_eq!(frame.len(), 20 + 8 + 20 + 8 + 8);
    assert_eq!(frame[9], 1);
    assert_eq!(&frame[12..16], &[198, 51, 100, 77]);
    assert_eq!(&frame[16..20], &[10, 0, 0, 5]);
    assert_eq!(frame[20], 3);
    assert_eq!(frame[21], 13);
    assert_eq!(&frame[28 + 12..28 + 16], &[10, 0, 0, 5]);
    assert_eq!(&frame[48..50], &5353u16.to_be_bytes());
    assert_eq!(&frame[50..52], &9000u16.to_be_bytes());
    assert_eq!(&frame[56..64], &payload[..8]);
    assert_eq!(ones_complement(0, &frame[..20]), 0);
    assert_eq!(ones_complement(0, &frame[20..]), 0);
    assert_eq!(ones_complement(0, &frame[28..48]), 0);
}

#[test]
fn icmpv6_block_verifies_over_the_pseudo_header() {
    let client = 0xfd00_0001_0000_0000_0000_0000_0000_0002u128;
    let server = 0x2001_0db8_0000_0000_0000_0000_0000_0001u128;
    let udp = UdpPacket {
        src: IpAddress::V6(client),
        dst: IpAddress::V6(server),
        src_port: 1,
        dst_port: 2,
        payload: &[7, 7, 7],
    };
    let frame = build_icmp_block(&udp).expect("frame");
    assert_eq!(frame.len(), 40 + 8 + 40 + 8 + 3);
    assert_eq!(frame[6], 58);
    assert_eq!(frame[40], 1);
    assert_eq!(frame[41], 1);
    assert_eq!(ones_complement(0, &pseudo_v6(server, client, 58, &frame[40..])), 0);
}

#[test]
fn addresses_have_text_forms() {
    assert_eq!(ip_string(IpAddress::v4(203, 0, 113, 5)), "203.0.113.5");
    assert_eq!(
        ip_string(IpAddress::V6(0x2001_4860_4860_0000_0000_0000_0000_8888)),
        "2001:4860:4860::8888"
    );
    assert_eq!(parse_ip("10.0.0.2"), Some(IpAddress::v4(10, 0, 0, 2)));
    assert_eq!(
        parse_ip("2606:4700:4700::1111"),
        Some(IpAddress::V6(0x2606_4700_4700_0000_0000_0000_0000_1111))
    );
    assert_eq!(parse_ip("example.com"), None);
    assert_eq!(parse_ip(""), None);
    assert_eq!(IpAddress::v4(1, 2, 3, 4).to_octets(), vec![1, 2, 3, 4]);
    assert_eq!(IpAddress::V6(1).to_octets().len(), 16);
    assert_eq!(IpAddress::V6(0x0102 << 112).to_octets()[..2], [1, 2]);
    assert!(IpAddress::v4(1, 2, 3, 4).is_v4());
    assert_eq!(IpAddress::read_v4(&[9, 1, 2, 3, 4], 1), IpAddress::v4(1, 2, 3, 4));
    let mut sixteen = [0u8; 16];
    sixteen[15] = 5;
    sixteen[0] = 0x20;
    assert_eq!(IpAddress::read_v6(&sixteen, 0), IpAddress::V6((0x20u128 << 120) | 5));
}

#[test]
fn the_builders_of_each_family_fill_in_checksums_that_hold() {
    let flags = TcpFlags { syn: true, ack: false, fin: false, rst: false };
    let packet = tcp_packet(flags, 100, 0, &[]);
    let client = 0x0a00_0002u32;
    let server = 0xcb00_7137u32;
    let reset = build_ipv4_tcp_reset(client, server, &packet);
    assert_eq!(reset.len(), 40);
    assert_eq!(u16::from_be_bytes([reset[2], reset[3]]), 40);
    assert_eq!(ones_complement(0, &reset[..20]), 0);
    assert_eq!(tcp_ipv4(server, client, &reset[20..]), 0);
    let reset6 = build_ipv6_tcp_reset(1, 2, &packet);
    assert_eq!(reset6.len(), 60);
    assert_eq!(tcp_ipv6(2, 1, &reset6[40..]), 0);
    let datagram = build_ipv4_udp_response(server, client, 53, 4000, &[1, 2, 3]);
    assert_eq!(ones_complement(0, &datagram[..20]), 0);
    assert_eq!(udp_ipv4(server, client, &datagram[20..]), 0);
    let datagram6 = build_ipv6_udp_response(2, 1, 53, 4000, &[1, 2, 3]);
    assert_eq!(udp_ipv6(2, 1, &datagram6[40..]), 0);
    let blocked = UdpPacket {
        src: IpAddress::V4(client),
        dst: IpAddress::V4(server),
        src_port: 4000,
        dst_port: 53,
        payload: &[7; 12],
    };
    let block = build_ipv4_icmp_block(client, server, &blocked);
    assert_eq!(ones_complement(0, &block[..20]), 0);
    assert_eq!(ones_complement(0, &block[20..]), 0);
    let block6 = build_ipv6_icmp_block(1, 2, &blocked);
    assert_eq!(block6[6], 58);
    assert_eq!(block6[40], 1);
    assert_eq!(block6[41], 1);
    assert_eq!(u16::from_be_bytes([block6[4], block6[5]]) as usize, block6.len() - 40);
    assert_eq!(block6.len() - 40, 56 + 8);
    assert_eq!(icmpv6(2, 1, &block6[40..]), 0);
}

#[test]
fn built_datagrams_parse_back() {
    let payload = [9u8, 8, 7, 6];
    let frame = build_ipv4_udp_response(0xc612_002a, 0x0a00_0008, 8080, 5500, &payload);
    match parse_packet_validated(&frame) {
        Ok(ParsedPacket::Udp(udp)) => {
            assert_eq!(udp.src, IpAddress::V4(0xc612_002a));
            assert_eq!(udp.dst, IpAddress::V4(0x0a00_0008));
            assert_eq!(udp.src_port, 8080);
            assert_eq!(udp.dst_port, 5500);
            assert_eq!(udp.payload, &payload);
        }
        other => panic!("expected udp, got {:?}", other),
    }
    let frame6 = build_ipv6_udp_response(7, 9, 53, 4000, &[]);
    match parse_packet_validated(&frame6) {
        Ok(ParsedPacket::Udp(udp)) => {
            assert_eq!(udp.src, IpAddress::V6(7));
            assert_eq!(udp.dst, IpAddress::V6(9));
            assert_eq!(udp.src_port, 53);
            assert_eq!(udp.dst_port, 4000);
            assert!(udp.payload.is_empty());
        }
        other => panic!("expected udp, got {:?}", other),
    }
}
