//! QUIC inspection helpers that look for TLS ClientHello payloads inside UDP.

use crate::device::word_at;
use crate::text::utf8_string;
use vstd::prelude::*;
use vstd::utf8::{decode_utf8, valid_utf8};

verus! {

/// The host name in the server-name extension `data`, read from `cursor` on:
/// the first entry of type 0 decides, with its name if that is UTF-8; an
/// entry that runs over the end ends the search.
pub open spec fn sni_in_extension(data: Seq<u8>, cursor: int) -> Option<Seq<char>>
    decreases data.len() - cursor,
{
    if cursor < 2 || cursor + 3 > data.len() {
        None
    } else {
        let name_len = word_at(data, cursor + 1) as int;
        let start = cursor + 3;
        if start + name_len > data.len() {
            None
        } else if data[cursor] == 0 {
            let name = data.subrange(start, start + name_len);
            if valid_utf8(name) {
                Some(decode_utf8(name))
            } else {
                None
            }
        } else {
            sni_in_extension(data, start + name_len)
        }
    }
}

/// The host name that a server-name extension gives.
pub open spec fn sni_extension_spec(data: Seq<u8>) -> Option<Seq<char>> {
    if data.len() < 2 || word_at(data, 0) + 2 > data.len() {
        None
    } else {
        sni_in_extension(data, 2)
    }
}

/// The host name that the extensions of `packet` between `cursor` and `end`
/// give: that of the first server-name extension.
pub open spec fn sni_in_extensions(packet: Seq<u8>, cursor: int, end: int) -> Option<Seq<char>>
    decreases end - cursor,
{
    if cursor < 0 || cursor + 4 > end || end > packet.len() {
        None
    } else {
        let extension_len = word_at(packet, cursor + 2) as int;
        let start = cursor + 4;
        if start + extension_len > end {
            None
        } else if word_at(packet, cursor) == 0 {
            sni_extension_spec(packet.subrange(start, start + extension_len))
        } else {
            sni_in_extensions(packet, start + extension_len, end)
        }
    }
}

/// The offset of the extensions of the ClientHello that `packet` starts
/// with, and their end: `None` where `packet` is no handshake record with a
/// ClientHello, or is cut short before its extensions.
pub open spec fn client_hello_extensions(packet: Seq<u8>) -> Option<(int, int)> {
    if packet.len() < 9 || packet[0] != 0x16 || word_at(packet, 3) + 5 > packet.len() || packet[5]
        != 0x01 || 43 >= packet.len() {
        None
    } else {
        let ciphers = 44 + packet[43];
        if ciphers + 2 > packet.len() {
            None
        } else {
            let compression = ciphers + 2 + word_at(packet, ciphers);
            if compression + 1 > packet.len() {
                None
            } else {
                let extensions = compression + 1 + packet[compression];
                if extensions + 2 > packet.len() {
                    None
                } else {
                    let declared = word_at(packet, extensions) as int;
                    let start = extensions + 2;
                    let room = packet.len() - start;
                    Some(
                        (
                            start,
                            start + if declared <= room {
                                declared
                            } else {
                                room
                            },
                        ),
                    )
                }
            }
        }
    }
}

/// The server name that a TLS ClientHello at the start of `packet` asks for.
pub open spec fn sni_spec(packet: Seq<u8>) -> Option<Seq<char>> {
    match client_hello_extensions(packet) {
        Some((start, end)) => sni_in_extensions(packet, start, end),
        None => None,
    }
}

fn parse_sni_extension(data: &[u8]) -> (r: Option<String>)
    ensures
        match r {
            Some(name) => sni_extension_spec(data@) == Some(name@),
            None => sni_extension_spec(data@) is None,
        },
{
    let len: usize = data.len();
    if len < 2 {
        return None;
    }
    let list_len: usize = crate::bytes::read_be16(data, 0) as usize;
    if list_len > len - 2 {
        return None;
    }
    let mut cursor: usize = 2;
    while cursor <= len && len - cursor >= 3
        invariant
            2 <= cursor,
            len == data@.len(),
            sni_extension_spec(data@) == sni_in_extension(data@, 2),
            sni_in_extension(data@, 2) == sni_in_extension(data@, cursor as int),
        decreases len - cursor,
    {
        let name_type = data[cursor];
        let name_len: usize = crate::bytes::read_be16(data, cursor + 1) as usize;
        let start: usize = cursor + 3;
        if name_len > len - start {
            return None;
        }
        if name_type == 0 {
            return utf8_string(vstd::slice::slice_subrange(data, start, start + name_len));
        }
        cursor = start + name_len;
    }
    None
}

/// Looks for the server name in a TLS ClientHello at the start of `packet`.
pub fn extract_sni(packet: &[u8]) -> (r: Option<String>)
    ensures
        match r {
            Some(name) => sni_spec(packet@) == Some(name@),
            None => sni_spec(packet@) is None,
        },
{
    let len: usize = packet.len();
    if len < 9 {
        return None;
    }
    // TLS record type must be handshake (0x16).
    if packet[0] != 0x16 {
        return None;
    }
    let record_len: usize = crate::bytes::read_be16(packet, 3) as usize;
    if record_len > len - 5 {
        return None;
    }
    if packet[5] != 0x01 {
        return None;
    }
    // The handshake length, the client version and the random come before
    // the session id, whose length stands at offset 43.
    if 43 >= len {
        return None;
    }
    let ciphers: usize = 44 + (packet[43] as usize);
    if ciphers > len || 2 > len - ciphers {
        return None;
    }
    let compression: usize = ciphers + 2 + (crate::bytes::read_be16(packet, ciphers) as usize);
    if compression > len || 1 > len - compression {
        return None;
    }
    let extensions: usize = compression + 1 + (packet[compression] as usize);
    if extensions > len || 2 > len - extensions {
        return None;
    }
    let declared: usize = crate::bytes::read_be16(packet, extensions) as usize;
    let mut cursor: usize = extensions + 2;
    let room: usize = len - cursor;
    let extensions_end: usize = cursor + if declared <= room {
        declared
    } else {
        room
    };
    let ghost first = cursor as int;
    while extensions_end - cursor >= 4
        invariant
            cursor <= extensions_end <= len,
            len == packet@.len(),
            sni_spec(packet@) == sni_in_extensions(packet@, first, extensions_end as int),
            sni_in_extensions(packet@, first, extensions_end as int) == sni_in_extensions(
                packet@,
                cursor as int,
                extensions_end as int,
            ),
        decreases extensions_end - cursor,
    {
        let extension_type = crate::bytes::read_be16(packet, cursor);
        let extension_len: usize = crate::bytes::read_be16(packet, cursor + 2) as usize;
        let start: usize = cursor + 4;
        if extension_len > extensions_end - start {
            return None;
        }
        if extension_type == 0 {
            return parse_sni_extension(
                vstd::slice::slice_subrange(packet, start, start + extension_len),
            );
        }
        cursor = start + extension_len;
    }
    None
}

} // verus!
