use engine_bridge::device::ring::{strip_syn_ack_ecn, TunDevice};
use engine_bridge::device::{
    parse_packet, parse_packet_validated, validate_packet, ParseError, ParsedPacket, DEFAULT_MTU,
    MAX_EMIT_BATCH,
};
use engine_bridge::addr::IpAddress;
use engine_bridge::flow_manager::checksum::{ones_complement, tcp_ipv4};

const TEST_RING_CAPACITY: usize = 256;

fn make_device() -> TunDevice {
    TunDevice::new(DEFAULT_MTU, TEST_RING_CAPACITY)
}

/// Creates a valid IPv4 packet with the given payload size
fn make_valid_ipv4_packet(payload_size: usize) -> Vec<u8> {
    let total_len = 20 + payload_size;
    let mut packet = vec![0u8; total_len];
    packet[0] = 0x45;
    packet[1] = 0x00;
    packet[2] = (total_len >> 8) as u8;
    packet[3] = (total_len & 0xFF) as u8;
    packet[4] = 0x00;
    packet[5] = 0x01;
    packet[6] = 0x00;
    packet[7] = 0x00;
    packet[8] = 64;
    packet[9] = 6;
    packet[10] = 0x00;
    packet[11] = 0x00;
    packet[12] = 10;
    packet[13] = 0;
    packet[14] = 0;
    packet[15] = 1;
    packet[16] = 10;
    packet[17] = 0;
    packet[18] = 0;
    packet[19] = 2;
    for byte in packet.iter_mut().take(total_len).skip(20) {
        *byte = 0x45;
    }
    packet
}

/// Creates a valid IPv4 packet with a custom tag in the payload (for eviction test)
fn make_valid_ipv4_with_tag(tag: u32) -> Vec<u8> {
    let mut packet = make_valid_ipv4_packet(8);
    let tag_bytes = tag.to_be_bytes();
    packet[20] = tag_bytes[0];
    packet[21] = tag_bytes[1];
    packet[22] = tag_bytes[2];
    packet[23] = tag_bytes[3];
    packet
}

fn tcp_frame(flags: u8, data_offset_words: u8, payload: &[u8]) -> Vec<u8> {
    let total_len = 20 + 20 + payload.len();
    let mut packet = vec![0u8; total_len];
    packet[0] = 0x45;
    packet[2] = (total_len >> 8) as u8;
    packet[3] = (total_len & 0xFF) as u8;
    packet[8] = 64;
    packet[9] = 6;
    packet[12..16].copy_from_slice(&[10, 0, 0, 2]);
    packet[16..20].copy_from_slice(&[203, 0, 113, 9]);
    packet[20..22].copy_from_slice(&5000u16.to_be_bytes());
    packet[22..24].copy_from_slice(&443u16.to_be_bytes());
    packet[24..28].copy_from_slice(&0x01020304u32.to_be_bytes());
    packet[28..32].copy_from_slice(&0x0a0b0c0du32.to_be_bytes());
    packet[32] = data_offset_words << 4;
    packet[33] = flags;
    packet[40..].copy_from_slice(payload);
    packet
}

fn udp_frame_v4(payload: &[u8]) -> Vec<u8> {
    let total_len = 20 + 8 + payload.len();
    let mut packet = vec![0u8; total_len];
    packet[0] = 0x45;
    packet[2] = (total_len >> 8) as u8;
    packet[3] = (total_len & 0xFF) as u8;
    packet[8] = 64;
    packet[9] = 17;
    packet[12..16].copy_from_slice(&[10, 0, 0, 2]);
    packet[16..20].copy_from_slice(&[8, 8, 8, 8]);
    packet[20..22].copy_from_slice(&5353u16.to_be_bytes());
    packet[22..24].copy_from_slice(&53u16.to_be_bytes());
    packet[24..26].copy_from_slice(&((8 + payload.len()) as u16).to_be_bytes());
    packet[28..].copy_from_slice(payload);
    packet
}

#[test]
fn tests_push_inbound_truncates_to_mtu() {
    let mut device = make_device();
    let packet = make_valid_ipv4_packet(DEFAULT_MTU + 256 - 20);
    assert!(device.push_inbound(&packet));

    let rx = device.receive().expect("rx token missing");
    let mut captured = Vec::new();
    captured.extend_from_slice(&rx.consume());
    assert_eq!(captured.len(), DEFAULT_MTU);
}

#[test]
fn tests_outbound_drains_in_order() {
    let mut device = make_device();

    device.transmit(vec![0xAA; 16]);
    device.transmit(vec![0xBB; 24]);

    let frames = device.drain_outbound();
    assert_eq!(frames.len(), 2);
    assert_eq!(frames[0], vec![0xAA; 16]);
    assert_eq!(frames[1], vec![0xBB; 24]);
    assert!(device.drain_outbound().is_empty());
}

#[test]
fn tests_inbound_ring_evicts_oldest_when_full() {
    let mut device = make_device();
    for idx in 0..=TEST_RING_CAPACITY {
        let packet = make_valid_ipv4_with_tag(idx as u32);
        device.push_inbound(&packet);
    }

    for expected in 1..=TEST_RING_CAPACITY as u32 {
        let rx = device.receive().expect("rx token missing");
        let buffer = rx.consume();
        let mut value = [0u8; 4];
        value.copy_from_slice(&buffer[20..24]);
        assert_eq!(u32::from_be_bytes(value), expected);
    }
    assert!(device.receive().is_none());
}

#[test]
fn device_push_inbound_truncates_to_mtu() {
    let mut device = TunDevice::new(DEFAULT_MTU, 1024);
    let packet = make_valid_ipv4_packet(DEFAULT_MTU + 256 - 20);
    assert!(device.push_inbound(&packet));
    let rx = device.receive().expect("rx token missing");
    let captured = rx.consume();
    assert_eq!(captured.len(), DEFAULT_MTU);
    assert_eq!(captured[..], packet[..DEFAULT_MTU]);
}

#[test]
fn device_outbound_drains_in_order() {
    let mut device = TunDevice::new(DEFAULT_MTU, 1024);
    device.transmit(vec![0xAA; 16]);
    device.transmit(vec![0xBB; 24]);
    let frames = device.drain_outbound();
    assert_eq!(frames.len(), 2);
    assert_eq!(frames[0], vec![0xAA; 16]);
    assert_eq!(frames[1], vec![0xBB; 24]);
    assert!(device.drain_outbound().is_empty());
}

#[test]
fn device_inbound_ring_evicts_oldest_when_full() {
    let capacity = 1024usize;
    let mut device = TunDevice::new(DEFAULT_MTU, capacity);
    for idx in 0..=capacity {
        device.push_inbound(&make_valid_ipv4_with_tag(idx as u32));
    }
    for expected in 1..=capacity as u32 {
        let rx = device.receive().expect("rx token missing");
        let buffer = rx.consume();
        let mut value = [0u8; 4];
        value.copy_from_slice(&buffer[20..24]);
        assert_eq!(u32::from_be_bytes(value), expected);
    }
    assert!(device.receive().is_none());
}

#[test]
fn ring_eviction_counts_one_drop_per_push() {
    let n = 16usize;
    let mut device = TunDevice::new(DEFAULT_MTU, n);
    for id in 1..=(n as u32 + 1) {
        assert!(device.push_inbound(&make_valid_ipv4_with_tag(id)));
    }
    assert_eq!(device.inbound_queue_len(), n);
    assert_eq!(device.inbound_dropped(), 1);
    for expected in 2..=(n as u32 + 1) {
        let buffer = device.receive().expect("frame").consume();
        assert_eq!(u32::from_be_bytes([buffer[20], buffer[21], buffer[22], buffer[23]]), expected);
    }
    assert!(device.receive().is_none());
    assert!(device.push_inbound(&make_valid_ipv4_with_tag(99)));
    assert_eq!(device.inbound_dropped(), 1);
}

#[test]
fn ring_has_minimum_capacity_and_mtu() {
    let device = TunDevice::new(100, 2);
    assert_eq!(device.capacity(), 16);
    assert_eq!(device.mtu(), 576);
    assert_eq!(device.tx_frame_len(2000), 576);
    assert_eq!(device.tx_frame_len(40), 40);
}

#[test]
fn push_inbound_accepts_empty_and_refuses_invalid() {
    let mut device = make_device();
    assert!(device.push_inbound(&[]));
    assert_eq!(device.inbound_queue_len(), 0);
    assert!(!device.push_inbound(&[0x45, 0, 0, 20]));
    assert!(!device.push_inbound(&[0x25; 40]));
    assert_eq!(device.inbound_queue_len(), 0);
}

#[test]
fn drain_outbound_takes_at_most_a_batch() {
    let mut device = make_device();
    for i in 0..(MAX_EMIT_BATCH + 6) {
        device.transmit(vec![i as u8; 4]);
    }
    let first = device.drain_outbound();
    assert_eq!(first.len(), MAX_EMIT_BATCH);
    assert_eq!(first[0], vec![0u8; 4]);
    let second = device.drain_outbound();
    assert_eq!(second.len(), 6);
    assert_eq!(second[5], vec![(MAX_EMIT_BATCH + 5) as u8; 4]);
}

#[test]
fn outbound_ring_evicts_oldest_when_full() {
    let mut device = TunDevice::new(DEFAULT_MTU, 16);
    for i in 0..17u8 {
        device.transmit(vec![i; 3]);
    }
    assert_eq!(device.outbound_dropped(), 1);
    let frames = device.drain_outbound();
    assert_eq!(frames.len(), 16);
    assert_eq!(frames[0], vec![1u8; 3]);
    assert_eq!(frames[15], vec![16u8; 3]);
}

#[test]
fn parses_tcp_header_fields() {
    let frame = tcp_frame(0x12, 5, b"hello");
    match parse_packet_validated(&frame) {
        Ok(ParsedPacket::Tcp(tcp)) => {
            assert_eq!(tcp.src, IpAddress::v4(10, 0, 0, 2));
            assert_eq!(tcp.dst, IpAddress::v4(203, 0, 113, 9));
            assert_eq!(tcp.src_port, 5000);
            assert_eq!(tcp.dst_port, 443);
            assert_eq!(tcp.seq_number, 0x01020304);
            assert_eq!(tcp.ack_number, 0x0a0b0c0d);
            assert!(tcp.flags.syn && tcp.flags.ack && !tcp.flags.fin && !tcp.flags.rst);
            assert_eq!(tcp.payload, b"hello");
        }
        other => panic!("expected tcp, got {:?}", other),
    }
}

#[test]
fn parses_udp_header_fields() {
    let frame = udp_frame_v4(&[1, 2, 3]);
    match parse_packet_validated(&frame) {
        Ok(ParsedPacket::Udp(udp)) => {
            assert_eq!(udp.src, IpAddress::v4(10, 0, 0, 2));
            assert_eq!(udp.dst, IpAddress::v4(8, 8, 8, 8));
            assert_eq!(udp.src_port, 5353);
            assert_eq!(udp.dst_port, 53);
            assert_eq!(udp.payload, &[1, 2, 3]);
        }
        other => panic!("expected udp, got {:?}", other),
    }
}

#[test]
fn parses_ipv6_udp() {
    let payload = [9u8, 8, 7, 6];
    let mut frame = vec![0u8; 40 + 8 + payload.len()];
    frame[0] = 0x60;
    frame[4..6].copy_from_slice(&((8 + payload.len()) as u16).to_be_bytes());
    frame[6] = 17;
    frame[7] = 64;
    frame[8] = 0xfd;
    frame[23] = 2;
    frame[24] = 0x20;
    frame[25] = 0x01;
    frame[39] = 1;
    frame[40..42].copy_from_slice(&1234u16.to_be_bytes());
    frame[42..44].copy_from_slice(&4321u16.to_be_bytes());
    frame[44..46].copy_from_slice(&((8 + payload.len()) as u16).to_be_bytes());
    frame[48..].copy_from_slice(&payload);
    match parse_packet_validated(&frame) {
        Ok(ParsedPacket::Udp(udp)) => {
            assert_eq!(udp.src, IpAddress::V6(0xfd00_0000_0000_0000_0000_0000_0000_0002));
            assert_eq!(udp.dst, IpAddress::V6(0x2001_0000_0000_0000_0000_0000_0000_0001));
            assert_eq!(udp.src_port, 1234);
            assert_eq!(udp.dst_port, 4321);
            assert_eq!(udp.payload, &payload);
        }
        other => panic!("expected udp, got {:?}", other),
    }
}

#[test]
fn parse_errors_cover_every_variant() {
    assert_eq!(parse_packet_validated(&[]).unwrap_err(), ParseError::EmptyPacket);
    assert_eq!(
        parse_packet_validated(&[0x55; 40]).unwrap_err(),
        ParseError::UnsupportedIpVersion(5)
    );
    assert_eq!(parse_packet_validated(&[0x45; 10]).unwrap_err(), ParseError::MalformedIpv4Header);
    assert_eq!(parse_packet_validated(&[0x60; 20]).unwrap_err(), ParseError::MalformedIpv6Header);
    let short_tcp = make_valid_ipv4_packet(8);
    assert_eq!(parse_packet_validated(&short_tcp).unwrap_err(), ParseError::MalformedTcpSegment);
    let mut bad_udp = udp_frame_v4(&[1, 2, 3]);
    bad_udp[24..26].copy_from_slice(&200u16.to_be_bytes());
    assert_eq!(parse_packet_validated(&bad_udp).unwrap_err(), ParseError::MalformedUdpDatagram);
    assert!(parse_packet(&bad_udp).is_none());
    assert!(parse_packet(&udp_frame_v4(&[1])).is_some());
}

#[test]
fn declared_total_length_beyond_buffer_is_malformed_ipv4() {
    let mut frame = tcp_frame(0x02, 5, &[]);
    let declared = (frame.len() + 1) as u16;
    frame[2..4].copy_from_slice(&declared.to_be_bytes());
    assert_eq!(parse_packet_validated(&frame).unwrap_err(), ParseError::MalformedIpv4Header);
    assert!(!validate_packet(&frame));
}

#[test]
fn total_length_below_header_length_is_malformed_ipv4() {
    let mut frame = tcp_frame(0x02, 5, &[]);
    frame[2..4].copy_from_slice(&10u16.to_be_bytes());
    assert_eq!(parse_packet_validated(&frame).unwrap_err(), ParseError::MalformedIpv4Header);
}

#[test]
fn tcp_data_offset_below_five_is_malformed() {
    for words in 0..5u8 {
        let frame = tcp_frame(0x02, words, &[]);
        assert_eq!(parse_packet_validated(&frame).unwrap_err(), ParseError::MalformedTcpSegment);
    }
    let beyond = tcp_frame(0x02, 6, &[]);
    assert_eq!(parse_packet_validated(&beyond).unwrap_err(), ParseError::MalformedTcpSegment);
}

#[test]
fn other_protocols_parse_as_other() {
    let mut frame = make_valid_ipv4_packet(8);
    frame[9] = 1;
    assert!(matches!(parse_packet_validated(&frame), Ok(ParsedPacket::Other)));
}

#[test]
fn error_classes_and_descriptions() {
    assert!(ParseError::EmptyPacket.is_ip_error());
    assert!(ParseError::UnsupportedIpVersion(7).is_ip_error());
    assert!(ParseError::MalformedIpv4Header.is_ip_error());
    assert!(ParseError::MalformedIpv6Header.is_ip_error());
    assert!(!ParseError::MalformedTcpSegment.is_ip_error());
    assert!(ParseError::MalformedTcpSegment.is_tcp_error());
    assert!(!ParseError::MalformedUdpDatagram.is_tcp_error());
    assert!(ParseError::MalformedUdpDatagram.is_udp_error());
    assert_eq!(ParseError::EmptyPacket.description(), "empty packet");
    assert_eq!(ParseError::UnsupportedIpVersion(1).description(), "unsupported IP version");
    assert_eq!(ParseError::MalformedIpv4Header.description(), "malformed IPv4 header");
    assert_eq!(ParseError::MalformedIpv6Header.description(), "malformed IPv6 header");
    assert_eq!(ParseError::MalformedTcpSegment.description(), "malformed TCP segment");
    assert_eq!(ParseError::MalformedUdpDatagram.description(), "malformed UDP datagram");
}

#[test]
fn syn_ack_loses_ecn_flags_and_keeps_a_valid_checksum() {
    let mut frame = tcp_frame(0x12 | 0x40 | 0x80, 5, &[]);
    let sum = tcp_ipv4(0x0a000002, 0xcb007109, &frame[20..]);
    frame[36..38].copy_from_slice(&sum.to_be_bytes());
    let mut stripped = frame.clone();
    strip_syn_ack_ecn(&mut stripped);
    assert_eq!(stripped[33], 0x12);
    assert_eq!(stripped.len(), frame.len());
    let mut pseudo = Vec::new();
    pseudo.extend_from_slice(&[10, 0, 0, 2, 203, 0, 113, 9, 0, 6, 0, 20]);
    pseudo.extend_from_slice(&stripped[20..]);
    assert_eq!(ones_complement(0, &pseudo), 0);
    let mut untouched = tcp_frame(0x10 | 0x40, 5, &[]);
    let before = untouched.clone();
    strip_syn_ack_ecn(&mut untouched);
    assert_eq!(untouched, before);
}

#[test]
fn transmit_strips_ecn_from_syn_ack() {
    let mut device = make_device();
    device.transmit(tcp_frame(0xD2, 5, &[]));
    let frames = device.drain_outbound();
    assert_eq!(frames.len(), 1);
    assert_eq!(frames[0][33], 0x12);
}
