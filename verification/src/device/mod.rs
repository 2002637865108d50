//! The packet codec: validation and parsing of the IPv4 and IPv6 frames that
//! arrive from the TUN interface, down to their TCP and UDP headers.

pub mod ring;
use crate::addr::IpAddress;
use crate::bytes::{be_value, lemma_pow256_values, read_be16, read_be32};
use vstd::prelude::*;

verus! {

pub const DEFAULT_MTU: usize = 1280;

pub const MAX_EMIT_BATCH: usize = 64;

/// Detailed error information for packet parsing failures.
#[derive(Debug, Clone, Copy, PartialEq, Eq, Structural)]
pub enum ParseError {
    /// Packet is empty
    EmptyPacket,
    /// IP version is not 4 or 6
    UnsupportedIpVersion(u8),
    /// IPv4 header is malformed (too short, bad header length, etc.)
    MalformedIpv4Header,
    /// IPv6 header is malformed (too short, payload length mismatch, etc.)
    MalformedIpv6Header,
    /// TCP segment is malformed (too short, bad data offset, etc.)
    MalformedTcpSegment,
    /// UDP datagram is malformed (too short, length mismatch, etc.)
    MalformedUdpDatagram,
}

impl ParseError {
    /// The text that `description` returns.
    pub open spec fn description_text(self) -> Seq<char> {
        match self {
            ParseError::EmptyPacket => "empty packet"@,
            ParseError::UnsupportedIpVersion(_) => "unsupported IP version"@,
            ParseError::MalformedIpv4Header => "malformed IPv4 header"@,
            ParseError::MalformedIpv6Header => "malformed IPv6 header"@,
            ParseError::MalformedTcpSegment => "malformed TCP segment"@,
            ParseError::MalformedUdpDatagram => "malformed UDP datagram"@,
        }
    }

    /// Returns true if this is an IP-layer error (for counter classification).
    pub fn is_ip_error(&self) -> (r: bool)
        ensures
            r == (*self is EmptyPacket || *self is UnsupportedIpVersion || *self
                is MalformedIpv4Header || *self is MalformedIpv6Header),
    {
        match self {
            ParseError::EmptyPacket => true,
            ParseError::UnsupportedIpVersion(_) => true,
            ParseError::MalformedIpv4Header => true,
            ParseError::MalformedIpv6Header => true,
            _ => false,
        }
    }

    /// Returns true if this is a TCP error.
    pub fn is_tcp_error(&self) -> (r: bool)
        ensures
            r == (*self is MalformedTcpSegment),
    {
        match self {
            ParseError::MalformedTcpSegment => true,
            _ => false,
        }
    }

    /// Returns true if this is a UDP error.
    pub fn is_udp_error(&self) -> (r: bool)
        ensures
            r == (*self is MalformedUdpDatagram),
    {
        match self {
            ParseError::MalformedUdpDatagram => true,
            _ => false,
        }
    }

    /// Returns a brief description for logging.
    pub fn description(&self) -> (r: &'static str)
        ensures
            r@ == self.description_text(),
    {
        match self {
            ParseError::EmptyPacket => "empty packet",
            ParseError::UnsupportedIpVersion(_) => "unsupported IP version",
            ParseError::MalformedIpv4Header => "malformed IPv4 header",
            ParseError::MalformedIpv6Header => "malformed IPv6 header",
            ParseError::MalformedTcpSegment => "malformed TCP segment",
            ParseError::MalformedUdpDatagram => "malformed UDP datagram",
        }
    }
}

/// The TCP flags that the engine reads.
#[derive(Debug, Clone, Copy, Default, PartialEq, Eq, Structural)]
pub struct TcpFlags {
    pub syn: bool,
    pub ack: bool,
    pub fin: bool,
    pub rst: bool,
}

#[derive(Debug, Clone)]
pub struct TcpPacket<'a> {
    pub src: IpAddress,
    pub dst: IpAddress,
    pub src_port: u16,
    pub dst_port: u16,
    pub seq_number: u32,
    pub ack_number: u32,
    pub flags: TcpFlags,
    pub payload: &'a [u8],
}

#[derive(Debug, Clone)]
pub struct UdpPacket<'a> {
    pub src: IpAddress,
    pub dst: IpAddress,
    pub src_port: u16,
    pub dst_port: u16,
    pub payload: &'a [u8],
}

#[derive(Debug, Clone)]
pub enum ParsedPacket<'a> {
    Tcp(TcpPacket<'a>),
    Udp(UdpPacket<'a>),
    Other,
}

/// A TCP packet as a mathematical value.
pub ghost struct TcpPacketView {
    pub src: IpAddress,
    pub dst: IpAddress,
    pub src_port: u16,
    pub dst_port: u16,
    pub seq_number: u32,
    pub ack_number: u32,
    pub flags: TcpFlags,
    pub payload: Seq<u8>,
}

/// A UDP packet as a mathematical value.
pub ghost struct UdpPacketView {
    pub src: IpAddress,
    pub dst: IpAddress,
    pub src_port: u16,
    pub dst_port: u16,
    pub payload: Seq<u8>,
}

/// A parsed packet as a mathematical value.
pub ghost enum ParsedPacketView {
    Tcp(TcpPacketView),
    Udp(UdpPacketView),
    Other,
}

impl<'a> View for TcpPacket<'a> {
    type V = TcpPacketView;

    open spec fn view(&self) -> TcpPacketView {
        TcpPacketView {
            src: self.src,
            dst: self.dst,
            src_port: self.src_port,
            dst_port: self.dst_port,
            seq_number: self.seq_number,
            ack_number: self.ack_number,
            flags: self.flags,
            payload: self.payload@,
        }
    }
}

impl<'a> View for UdpPacket<'a> {
    type V = UdpPacketView;

    open spec fn view(&self) -> UdpPacketView {
        UdpPacketView {
            src: self.src,
            dst: self.dst,
            src_port: self.src_port,
            dst_port: self.dst_port,
            payload: self.payload@,
        }
    }
}

impl<'a> View for ParsedPacket<'a> {
    type V = ParsedPacketView;

    open spec fn view(&self) -> ParsedPacketView {
        match self {
            ParsedPacket::Tcp(tcp) => ParsedPacketView::Tcp(tcp@),
            ParsedPacket::Udp(udp) => ParsedPacketView::Udp(udp@),
            ParsedPacket::Other => ParsedPacketView::Other,
        }
    }
}

/// The big-endian 16-bit number at `off`.
pub open spec fn word_at(bytes: Seq<u8>, off: int) -> nat {
    bytes[off] as nat * 256 + bytes[off + 1] as nat
}

/// The TCP flags that the flag byte of a TCP header holds.
pub open spec fn tcp_flags_of(byte: u8) -> TcpFlags {
    TcpFlags {
        syn: (byte / 2) % 2 == 1,
        ack: (byte / 16) % 2 == 1,
        fin: byte % 2 == 1,
        rst: (byte / 4) % 2 == 1,
    }
}

/// What a TCP segment between `src` and `dst` parses to.
pub open spec fn parse_tcp_spec(src: IpAddress, dst: IpAddress, segment: Seq<u8>) -> Result<
    ParsedPacketView,
    ParseError,
> {
    if segment.len() < 20 {
        Err(ParseError::MalformedTcpSegment)
    } else {
        let data_offset = (segment[12] / 16) * 4;
        if data_offset < 20 || data_offset > segment.len() {
            Err(ParseError::MalformedTcpSegment)
        } else {
            Ok(
                ParsedPacketView::Tcp(
                    TcpPacketView {
                        src,
                        dst,
                        src_port: word_at(segment, 0) as u16,
                        dst_port: word_at(segment, 2) as u16,
                        seq_number: be_value(segment.subrange(4, 8)) as u32,
                        ack_number: be_value(segment.subrange(8, 12)) as u32,
                        flags: tcp_flags_of(segment[13]),
                        payload: segment.subrange(data_offset as int, segment.len() as int),
                    },
                ),
            )
        }
    }
}

/// What a UDP datagram between `src` and `dst` parses to.
pub open spec fn parse_udp_spec(src: IpAddress, dst: IpAddress, datagram: Seq<u8>) -> Result<
    ParsedPacketView,
    ParseError,
> {
    if datagram.len() < 8 {
        Err(ParseError::MalformedUdpDatagram)
    } else {
        let length = word_at(datagram, 4);
        if length < 8 || length > datagram.len() {
            Err(ParseError::MalformedUdpDatagram)
        } else {
            Ok(
                ParsedPacketView::Udp(
                    UdpPacketView {
                        src,
                        dst,
                        src_port: word_at(datagram, 0) as u16,
                        dst_port: word_at(datagram, 2) as u16,
                        payload: datagram.subrange(8, length as int),
                    },
                ),
            )
        }
    }
}

/// What the payload of an IP packet parses to, by its protocol number.
pub open spec fn parse_transport_spec(
    protocol: u8,
    src: IpAddress,
    dst: IpAddress,
    payload: Seq<u8>,
) -> Result<ParsedPacketView, ParseError> {
    if protocol == 6 {
        parse_tcp_spec(src, dst, payload)
    } else if protocol == 17 {
        parse_udp_spec(src, dst, payload)
    } else {
        Ok(ParsedPacketView::Other)
    }
}

/// The IPv4 address whose octets stand at `off`.
pub open spec fn v4_at(bytes: Seq<u8>, off: int) -> IpAddress {
    IpAddress::V4(be_value(bytes.subrange(off, off + 4)) as u32)
}

/// The IPv6 address whose octets stand at `off`.
pub open spec fn v6_at(bytes: Seq<u8>, off: int) -> IpAddress {
    IpAddress::V6(be_value(bytes.subrange(off, off + 16)) as u128)
}

/// Whether the header of an IPv4 packet is in order: twenty bytes at least, a
/// header length of five words at least that the buffer holds, and a total
/// length between the header length and the buffer's.
pub open spec fn ipv4_header_ok(packet: Seq<u8>) -> bool {
    &&& packet.len() >= 20
    &&& (packet[0] % 16) * 4 >= 20
    &&& (packet[0] % 16) * 4 <= packet.len()
    &&& word_at(packet, 2) <= packet.len()
    &&& word_at(packet, 2) >= (packet[0] % 16) * 4
}

/// Whether the header of an IPv6 packet is in order: forty bytes, and a
/// payload length that the buffer holds.
pub open spec fn ipv6_header_ok(packet: Seq<u8>) -> bool {
    &&& packet.len() >= 40
    &&& 40 + word_at(packet, 4) <= packet.len()
}

/// What an IPv4 packet parses to.
pub open spec fn parse_ipv4_spec(packet: Seq<u8>) -> Result<ParsedPacketView, ParseError> {
    if !ipv4_header_ok(packet) {
        Err(ParseError::MalformedIpv4Header)
    } else {
        parse_transport_spec(
            packet[9],
            v4_at(packet, 12),
            v4_at(packet, 16),
            packet.subrange(((packet[0] % 16) * 4) as int, word_at(packet, 2) as int),
        )
    }
}

/// What an IPv6 packet parses to.
pub open spec fn parse_ipv6_spec(packet: Seq<u8>) -> Result<ParsedPacketView, ParseError> {
    if !ipv6_header_ok(packet) {
        Err(ParseError::MalformedIpv6Header)
    } else {
        parse_transport_spec(
            packet[6],
            v6_at(packet, 8),
            v6_at(packet, 24),
            packet.subrange(40, 40 + word_at(packet, 4) as int),
        )
    }
}

/// What a frame from the TUN interface parses to: the parser's whole behaviour.
pub open spec fn parse_packet_spec(packet: Seq<u8>) -> Result<ParsedPacketView, ParseError> {
    if packet.len() == 0 {
        Err(ParseError::EmptyPacket)
    } else if packet[0] / 16 == 4 {
        parse_ipv4_spec(packet)
    } else if packet[0] / 16 == 6 {
        parse_ipv6_spec(packet)
    } else {
        Err(ParseError::UnsupportedIpVersion(packet[0] / 16))
    }
}

/// Whether a frame has the header of a well-formed IP packet.
pub open spec fn valid_ip_frame(packet: Seq<u8>) -> bool {
    packet.len() > 0 && if packet[0] / 16 == 4 {
        ipv4_header_ok(packet)
    } else if packet[0] / 16 == 6 {
        ipv6_header_ok(packet)
    } else {
        false
    }
}

/// Whether an exec parse result is the result that the specification gives.
pub open spec fn parse_result_matches<'a>(
    result: Result<ParsedPacket<'a>, ParseError>,
    expected: Result<ParsedPacketView, ParseError>,
) -> bool {
    match result {
        Ok(packet) => expected == Ok::<ParsedPacketView, ParseError>(packet@),
        Err(error) => expected == Err::<ParsedPacketView, ParseError>(error),
    }
}

fn parse_tcp_validated<'a>(src: IpAddress, dst: IpAddress, payload: &'a [u8]) -> (r: Result<
    ParsedPacket<'a>,
    ParseError,
>)
    ensures
        parse_result_matches(r, parse_tcp_spec(src, dst, payload@)),
{
    if payload.len() < 20 {
        return Err(ParseError::MalformedTcpSegment);
    }
    let src_port = read_be16(payload, 0);
    let dst_port = read_be16(payload, 2);
    let seq_number = read_be32(payload, 4);
    let ack_number = read_be32(payload, 8);
    let data_offset: usize = ((payload[12] / 16) as usize) * 4;
    if data_offset < 20 || data_offset > payload.len() {
        return Err(ParseError::MalformedTcpSegment);
    }
    let flags_byte = payload[13];
    let flags = TcpFlags {
        syn: (flags_byte / 2) % 2 == 1,
        ack: (flags_byte / 16) % 2 == 1,
        fin: flags_byte % 2 == 1,
        rst: (flags_byte / 4) % 2 == 1,
    };
    let segment = &payload[data_offset..payload.len()];
    Ok(
        ParsedPacket::Tcp(
            TcpPacket {
                src,
                dst,
                src_port,
                dst_port,
                seq_number,
                ack_number,
                flags,
                payload: segment,
            },
        ),
    )
}

fn parse_udp_validated<'a>(src: IpAddress, dst: IpAddress, payload: &'a [u8]) -> (r: Result<
    ParsedPacket<'a>,
    ParseError,
>)
    ensures
        parse_result_matches(r, parse_udp_spec(src, dst, payload@)),
{
    if payload.len() < 8 {
        return Err(ParseError::MalformedUdpDatagram);
    }
    let src_port = read_be16(payload, 0);
    let dst_port = read_be16(payload, 2);
    let length: usize = read_be16(payload, 4) as usize;
    if length < 8 || length > payload.len() {
        return Err(ParseError::MalformedUdpDatagram);
    }
    let datagram = &payload[8..length];
    Ok(ParsedPacket::Udp(UdpPacket { src, dst, src_port, dst_port, payload: datagram }))
}

fn parse_transport<'a>(protocol: u8, src: IpAddress, dst: IpAddress, payload: &'a [u8]) -> (r:
    Result<ParsedPacket<'a>, ParseError>)
    ensures
        parse_result_matches(r, parse_transport_spec(protocol, src, dst, payload@)),
{
    if protocol == 6 {
        parse_tcp_validated(src, dst, payload)
    } else if protocol == 17 {
        parse_udp_validated(src, dst, payload)
    } else {
        Ok(ParsedPacket::Other)
    }
}

/// Whether the IPv4 header at the start of `packet` is in order.
pub fn validate_ipv4(packet: &[u8]) -> (r: bool)
    ensures
        r == ipv4_header_ok(packet@),
{
    if packet.len() < 20 {
        return false;
    }
    let header_len: usize = ((packet[0] % 16) as usize) * 4;
    if header_len < 20 || header_len > packet.len() {
        return false;
    }
    let total_len: usize = read_be16(packet, 2) as usize;
    if total_len < header_len || total_len > packet.len() {
        return false;
    }
    true
}

/// Whether the IPv6 header at the start of `packet` is in order.
pub fn validate_ipv6(packet: &[u8]) -> (r: bool)
    ensures
        r == ipv6_header_ok(packet@),
{
    if packet.len() < 40 {
        return false;
    }
    let payload_len: usize = read_be16(packet, 4) as usize;
    if payload_len > packet.len() - 40 {
        return false;
    }
    true
}

/// Validates that a packet has a valid IP header structure.
pub fn validate_packet(packet: &[u8]) -> (r: bool)
    ensures
        r == valid_ip_frame(packet@),
{
    if packet.len() == 0 {
        return false;
    }
    let version = packet[0] / 16;
    if version == 4 {
        validate_ipv4(packet)
    } else if version == 6 {
        validate_ipv6(packet)
    } else {
        false
    }
}

fn parse_ipv4_validated<'a>(packet: &'a [u8]) -> (r: Result<ParsedPacket<'a>, ParseError>)
    ensures
        parse_result_matches(r, parse_ipv4_spec(packet@)),
{
    if !validate_ipv4(packet) {
        return Err(ParseError::MalformedIpv4Header);
    }
    let header_len: usize = ((packet[0] % 16) as usize) * 4;
    let total_len: usize = read_be16(packet, 2) as usize;
    let protocol = packet[9];
    let src = IpAddress::read_v4(packet, 12);
    let dst = IpAddress::read_v4(packet, 16);
    proof {
        lemma_address_at(packet@, 12, src);
        lemma_address_at(packet@, 16, dst);
    }
    let payload = &packet[header_len..total_len];
    parse_transport(protocol, src, dst, payload)
}

fn parse_ipv6_validated<'a>(packet: &'a [u8]) -> (r: Result<ParsedPacket<'a>, ParseError>)
    ensures
        parse_result_matches(r, parse_ipv6_spec(packet@)),
{
    if !validate_ipv6(packet) {
        return Err(ParseError::MalformedIpv6Header);
    }
    let next_header = packet[6];
    let payload_len: usize = read_be16(packet, 4) as usize;
    let src = IpAddress::read_v6(packet, 8);
    let dst = IpAddress::read_v6(packet, 24);
    proof {
        lemma_address_at(packet@, 8, src);
        lemma_address_at(packet@, 24, dst);
    }
    let payload = &packet[40..40 + payload_len];
    parse_transport(next_header, src, dst, payload)
}

/// An address read from the octets at `off` is the address that the specification names.
pub proof fn lemma_address_at(bytes: Seq<u8>, off: int, address: IpAddress)
    requires
        0 <= off,
        address is V4 ==> off + 4 <= bytes.len() && address.octets() == bytes.subrange(off, off + 4),
        address is V6 ==> off + 16 <= bytes.len() && address.octets() == bytes.subrange(
            off,
            off + 16,
        ),
    ensures
        address is V4 ==> address == v4_at(bytes, off),
        address is V6 ==> address == v6_at(bytes, off),
{
    lemma_pow256_values();
    match address {
        IpAddress::V4(bits) => {
            crate::bytes::lemma_be_value_of_bytes(bits as nat, 4);
        },
        IpAddress::V6(bits) => {
            crate::bytes::lemma_be_value_of_bytes(bits as nat, 16);
        },
    }
}

/// Parse a packet with detailed error reporting.
/// Returns Ok(ParsedPacket) on success, or Err(ParseError) with specific failure reason.
pub fn parse_packet_validated<'a>(packet: &'a [u8]) -> (r: Result<ParsedPacket<'a>, ParseError>)
    ensures
        parse_result_matches(r, parse_packet_spec(packet@)),
{
    if packet.len() == 0 {
        return Err(ParseError::EmptyPacket);
    }
    let version = packet[0] / 16;
    if version == 4 {
        parse_ipv4_validated(packet)
    } else if version == 6 {
        parse_ipv6_validated(packet)
    } else {
        Err(ParseError::UnsupportedIpVersion(version))
    }
}

/// Parses a packet, with `None` for every frame that `parse_packet_validated` refuses.
pub fn parse_packet<'a>(packet: &'a [u8]) -> (r: Option<ParsedPacket<'a>>)
    ensures
        match r {
            Some(parsed) => parse_packet_spec(packet@) == Ok::<ParsedPacketView, ParseError>(
                parsed@,
            ),
            None => parse_packet_spec(packet@) is Err,
        },
{
    match parse_packet_validated(packet) {
        Ok(parsed) => Some(parsed),
        Err(_) => None,
    }
}

/// A frame that is laid out as an IPv4 header of twenty bytes and a UDP
/// datagram behind it, with lengths that are those of the frame, parses to
/// that datagram.
pub proof fn lemma_ipv4_udp_parses(
    frame: Seq<u8>,
    src: u32,
    dst: u32,
    src_port: u16,
    dst_port: u16,
    payload: Seq<u8>,
)
    requires
        frame.len() == 28 + payload.len(),
        frame[0] == 0x45,
        frame[9] == 17,
        word_at(frame, 2) == frame.len(),
        be_value(frame.subrange(12, 16)) == src,
        be_value(frame.subrange(16, 20)) == dst,
        word_at(frame, 20) == src_port,
        word_at(frame, 22) == dst_port,
        word_at(frame, 24) == 8 + payload.len(),
        frame.subrange(28, frame.len() as int) == payload,
    ensures
        parse_packet_spec(frame) == Ok::<ParsedPacketView, ParseError>(
            ParsedPacketView::Udp(
                UdpPacketView {
                    src: IpAddress::V4(src),
                    dst: IpAddress::V4(dst),
                    src_port,
                    dst_port,
                    payload,
                },
            ),
        ),
{
    let datagram = frame.subrange(20, frame.len() as int);
    assert(frame.subrange(20, word_at(frame, 2) as int) == datagram);
    assert(word_at(datagram, 0) == word_at(frame, 20));
    assert(word_at(datagram, 2) == word_at(frame, 22));
    assert(word_at(datagram, 4) == word_at(frame, 24));
    assert(datagram.subrange(8, word_at(datagram, 4) as int) =~= payload);
}

/// A frame that is laid out as an IPv6 header and a UDP datagram behind it,
/// with lengths that are those of the frame, parses to that datagram.
pub proof fn lemma_ipv6_udp_parses(
    frame: Seq<u8>,
    src: u128,
    dst: u128,
    src_port: u16,
    dst_port: u16,
    payload: Seq<u8>,
)
    requires
        frame.len() == 48 + payload.len(),
        frame[0] == 0x60,
        frame[6] == 17,
        word_at(frame, 4) == 8 + payload.len(),
        be_value(frame.subrange(8, 24)) == src,
        be_value(frame.subrange(24, 40)) == dst,
        word_at(frame, 40) == src_port,
        word_at(frame, 42) == dst_port,
        word_at(frame, 44) == 8 + payload.len(),
        frame.subrange(48, frame.len() as int) == payload,
    ensures
        parse_packet_spec(frame) == Ok::<ParsedPacketView, ParseError>(
            ParsedPacketView::Udp(
                UdpPacketView {
                    src: IpAddress::V6(src),
                    dst: IpAddress::V6(dst),
                    src_port,
                    dst_port,
                    payload,
                },
            ),
        ),
{
    let datagram = frame.subrange(40, frame.len() as int);
    assert(frame.subrange(40, 40 + word_at(frame, 4) as int) == datagram);
    assert(word_at(datagram, 0) == word_at(frame, 40));
    assert(word_at(datagram, 2) == word_at(frame, 42));
    assert(word_at(datagram, 4) == word_at(frame, 44));
    assert(datagram.subrange(8, word_at(datagram, 4) as int) =~= payload);
}

/// A frame passes validation exactly when parsing it finds no fault in its IP header.
pub proof fn lemma_valid_frames_parse(packet: Seq<u8>)
    ensures
        valid_ip_frame(packet) <==> !(parse_packet_spec(packet) matches Err(e) && (e
            is EmptyPacket || e is UnsupportedIpVersion || e is MalformedIpv4Header || e
            is MalformedIpv6Header)),
{
}

/// A packet whose declared IPv4 total length exceeds the buffer is refused as a
/// malformed IPv4 header.
pub proof fn lemma_total_length_beyond_buffer(packet: Seq<u8>)
    requires
        packet.len() > 0,
        packet[0] / 16 == 4,
        packet.len() < 4 || word_at(packet, 2) > packet.len(),
    ensures
        parse_packet_spec(packet) == Err::<ParsedPacketView, ParseError>(
            ParseError::MalformedIpv4Header,
        ),
{
}

/// A TCP segment whose data offset is under five words is refused as a
/// malformed TCP segment.
pub proof fn lemma_short_data_offset(src: IpAddress, dst: IpAddress, segment: Seq<u8>)
    requires
        segment.len() >= 13 ==> segment[12] / 16 < 5,
    ensures
        parse_tcp_spec(src, dst, segment) == Err::<ParsedPacketView, ParseError>(
            ParseError::MalformedTcpSegment,
        ),
{
}

} // verus!
