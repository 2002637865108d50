//! The plain records that the engine shares with its host: configuration,
//! counters, statistics and the address form of telemetry.

use crate::addr::IpAddress;
use crate::bytes::be_bytes;
use vstd::prelude::*;

verus! {

/// The configuration of an engine; a zero field stands for the default.
#[derive(Debug, Copy, Clone, PartialEq, Eq, Structural)]
pub struct BridgeConfig {
    pub mtu: u32,
    pub packet_pool_bytes: u32,
    pub per_flow_bytes: u32,
    pub poll_min_interval_ms: u32,
    pub poll_max_interval_ms: u32,
    /// Memory budget for socket buffers in bytes.
    pub socket_memory_budget: u32,
    /// TCP receive buffer size per socket in bytes.
    pub tcp_rx_buffer_size: u32,
    /// TCP transmit buffer size per socket in bytes.
    pub tcp_tx_buffer_size: u32,
    /// UDP buffer size per socket in bytes.
    pub udp_buffer_size: u32,
    /// Ring buffer capacity for inbound/outbound packets.
    pub ring_capacity: u32,
}

impl Default for BridgeConfig {
    fn default() -> (r: BridgeConfig)
        ensures
            r == (BridgeConfig {
                mtu: 1280,
                packet_pool_bytes: 4_194_304,
                per_flow_bytes: 65_536,
                poll_min_interval_ms: 10,
                poll_max_interval_ms: 250,
                socket_memory_budget: 16_777_216,
                tcp_rx_buffer_size: 16_384,
                tcp_tx_buffer_size: 16_384,
                udp_buffer_size: 16_384,
                ring_capacity: 512,
            }),
    {
        BridgeConfig {
            mtu: 1280,
            packet_pool_bytes: 4 * 1_048_576,
            per_flow_bytes: 64 * 1_024,
            poll_min_interval_ms: 10,
            poll_max_interval_ms: 250,
            socket_memory_budget: 16 * 1_048_576,
            tcp_rx_buffer_size: 16 * 1024,
            tcp_tx_buffer_size: 16 * 1024,
            udp_buffer_size: 16 * 1024,
            ring_capacity: 512,
        }
    }
}

#[derive(Clone, Copy, Debug, PartialEq, Eq, Structural)]
pub struct FlowStats {
    pub poll_iterations: u64,
    pub frames_emitted: u64,
    pub bytes_emitted: u64,
    pub tcp_flush_events: u64,
    pub udp_flush_events: u64,
}

/// Statistics that all stand at zero.
pub open spec fn no_stats() -> FlowStats {
    FlowStats {
        poll_iterations: 0,
        frames_emitted: 0,
        bytes_emitted: 0,
        tcp_flush_events: 0,
        udp_flush_events: 0,
    }
}

impl Default for FlowStats {
    fn default() -> (r: FlowStats)
        ensures
            r == no_stats(),
    {
        FlowStats {
            poll_iterations: 0,
            frames_emitted: 0,
            bytes_emitted: 0,
            tcp_flush_events: 0,
            udp_flush_events: 0,
        }
    }
}

#[derive(Clone, Copy, Debug, PartialEq, Eq, Structural)]
pub struct FlowCounters {
    pub tcp_admission_fail: u64,
    pub udp_admission_fail: u64,
    pub tcp_backpressure_drops: u64,
    pub udp_backpressure_drops: u64,
    /// Count of invalid IP packets (malformed headers, bad version, etc.)
    pub invalid_ip_packets: u64,
    /// Count of invalid TCP packets (truncated, bad data offset, etc.)
    pub invalid_tcp_packets: u64,
    /// Count of invalid UDP packets (truncated, length mismatch, etc.)
    pub invalid_udp_packets: u64,
}

/// Counters that all stand at zero.
pub open spec fn no_counters() -> FlowCounters {
    FlowCounters {
        tcp_admission_fail: 0,
        udp_admission_fail: 0,
        tcp_backpressure_drops: 0,
        udp_backpressure_drops: 0,
        invalid_ip_packets: 0,
        invalid_tcp_packets: 0,
        invalid_udp_packets: 0,
    }
}

impl Default for FlowCounters {
    fn default() -> (r: FlowCounters)
        ensures
            r == no_counters(),
    {
        FlowCounters {
            tcp_admission_fail: 0,
            udp_admission_fail: 0,
            tcp_backpressure_drops: 0,
            udp_backpressure_drops: 0,
            invalid_ip_packets: 0,
            invalid_tcp_packets: 0,
            invalid_udp_packets: 0,
        }
    }
}

/// `count + 1`, stopping at `u64::MAX`.
pub open spec fn bumped(count: u64) -> u64 {
    if count == u64::MAX {
        count
    } else {
        (count + 1) as u64
    }
}

/// `count + by`, stopping at `u64::MAX`.
pub open spec fn raised(count: u64, by: nat) -> u64 {
    if count + by > u64::MAX {
        u64::MAX
    } else {
        (count + by) as u64
    }
}

/// `count` and one more, held at the largest value.
pub fn bump(count: u64) -> (r: u64)
    ensures
        r == bumped(count),
{
    if count == u64::MAX {
        count
    } else {
        count + 1
    }
}

/// `count` and `by` more, held at the largest value.
pub fn raise(count: u64, by: usize) -> (r: u64)
    ensures
        r == raised(count, by as nat),
{
    let by64: u64 = by as u64;
    if by64 > u64::MAX - count {
        u64::MAX
    } else {
        count + by64
    }
}

pub const BRIDGE_TELEMETRY_MAX_QNAME: usize = 128;

/// An address as telemetry carries it: the family, 4 or 6, and sixteen
/// bytes, of which an IPv4 address fills the first four.
#[derive(Clone, Debug)]
pub struct BridgeTelemetryIp {
    pub family: u8,
    pub bytes: Vec<u8>,
}

/// The bytes of the telemetry form of `addr`.
pub open spec fn telemetry_bytes(addr: IpAddress) -> Seq<u8> {
    match addr {
        IpAddress::V4(bits) => be_bytes(bits as nat, 4) + Seq::new(12, |i: int| 0u8),
        IpAddress::V6(bits) => be_bytes(bits as nat, 16),
    }
}

/// The telemetry form of an address.
pub fn encode_ip(addr: &IpAddress) -> (r: BridgeTelemetryIp)
    ensures
        r.family == (if *addr is V4 {
            4u8
        } else {
            6u8
        }),
        r.bytes@ == telemetry_bytes(*addr),
        r.bytes@.len() == 16,
{
    let mut bytes: Vec<u8> = Vec::new();
    addr.push_octets(&mut bytes);
    let family: u8 = match addr {
        IpAddress::V4(bits) => {
            proof {
                crate::bytes::lemma_be_bytes_len(*bits as nat, 4);
            }
            let mut i: usize = 0;
            while i < 12
                invariant
                    i <= 12,
                    bytes@ =~= be_bytes(*bits as nat, 4) + Seq::new(i as nat, |k: int| 0u8),
                decreases 12 - i,
            {
                bytes.push(0);
                i = i + 1;
            }
            4
        },
        IpAddress::V6(bits) => {
            proof {
                crate::bytes::lemma_be_bytes_len(*bits as nat, 16);
            }
            6
        },
    };
    BridgeTelemetryIp { family, bytes }
}

} // verus!
