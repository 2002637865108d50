//! The facade of the engine, as far as it decides anything: the settings
//! that a configuration comes to, the cadence of the poll loop, and the
//! ingress of packets from the producer into the poll loop, which goes
//! through a bounded channel that drops when it is full.

use crate::device::{parse_packet_spec, parse_packet_validated, ParseError};
use crate::ffi::BridgeConfig;
use crate::flow_manager::admission::{flows_kept, lemma_flows_kept_chain};
use crate::flow_manager::batch::{batch_extends, lemma_extends_chain, lemma_extends_self};
use crate::flow_manager::state::SocketBudget;
use crate::flow_manager::poll::packet_processed;
use crate::flow_manager::{FlowManager, Tick};
use crate::logger::ErrorCategory;
use crate::policy::PolicyManager;
use crate::telemetry::Telemetry;
use crossbeam_channel::{Receiver, Sender};
use vstd::prelude::*;

verus! {

/// Capacity of the packet ingress channel.
pub const PACKET_CHANNEL_CAPACITY: usize = 512;

pub const MIN_MTU: usize = 576;

pub const MAX_MTU: usize = 9000;

pub const DEFAULT_POLL_MIN_MS: u32 = 10;

pub const DEFAULT_POLL_MAX_MS: u32 = 250;

/// The ring capacity that a configuration without one gets.
pub const DEFAULT_RING_CAPACITY: usize = 256;

#[verifier::external_type_specification]
#[verifier::external_body]
#[verifier::reject_recursive_types(T)]
pub struct ExSender<T>(Sender<T>);

#[verifier::external_type_specification]
#[verifier::external_body]
#[verifier::reject_recursive_types(T)]
pub struct ExReceiver<T>(Receiver<T>);

/// What came of offering a packet to the ingress channel.
#[derive(Clone, Copy, Debug, PartialEq, Eq, Structural)]
pub enum IngressOutcome {
    Sent,
    Full,
    Disconnected,
}

/// crossbeam-channel's `Sender::try_send`, which does not block. Nothing is
/// stated of the outcome: it depends on what the channel holds, which other
/// threads change.
#[verifier::external_body]
fn try_send_packet(tx: &Sender<Vec<u8>>, packet: Vec<u8>) -> (r: IngressOutcome) {
    match tx.try_send(packet) {
        Ok(()) => IngressOutcome::Sent,
        Err(crossbeam_channel::TrySendError::Full(_)) => IngressOutcome::Full,
        Err(crossbeam_channel::TrySendError::Disconnected(_)) => IngressOutcome::Disconnected,
    }
}

/// crossbeam-channel's `Receiver::try_recv`, which does not block: `None`
/// where no packet waits or the channel is disconnected. Nothing is stated
/// of the packet: it is what a producer sent.
#[verifier::external_body]
fn try_recv_packet(rx: &Receiver<Vec<u8>>) -> (r: Option<Vec<u8>>) {
    match rx.try_recv() {
        Ok(packet) => Some(packet),
        Err(_) => None,
    }
}

/// The MTU that the engine works with: the configured one, held between 576 and 9000.
pub open spec fn normalized_mtu(value: u32) -> usize {
    if value < MIN_MTU {
        MIN_MTU
    } else if value > MAX_MTU {
        MAX_MTU
    } else {
        value as usize
    }
}

/// The MTU that the engine works with, for the configured `value`.
pub fn normalize_mtu(value: u32) -> (r: usize)
    ensures
        r == normalized_mtu(value),
{
    if (value as usize) < MIN_MTU {
        MIN_MTU
    } else if (value as usize) > MAX_MTU {
        MAX_MTU
    } else {
        value as usize
    }
}

/// What a configuration comes to.
#[derive(Clone, Copy, Debug, PartialEq, Eq, Structural)]
pub struct EngineSettings {
    pub mtu: usize,
    pub ring_capacity: usize,
    pub poll_min_ms: u32,
    pub poll_max_ms: u32,
    pub socket_budget: SocketBudget,
}

/// The settings for `config`: every zero field has its default, the MTU is
/// held in its range, and the longest poll interval is no shorter than the shortest.
pub open spec fn settings_of(config: BridgeConfig) -> EngineSettings {
    let poll_min = if config.poll_min_interval_ms == 0 {
        DEFAULT_POLL_MIN_MS
    } else {
        config.poll_min_interval_ms
    };
    let poll_max = if config.poll_max_interval_ms == 0 {
        DEFAULT_POLL_MAX_MS
    } else {
        config.poll_max_interval_ms
    };
    EngineSettings {
        mtu: normalized_mtu(config.mtu),
        ring_capacity: if config.ring_capacity == 0 {
            DEFAULT_RING_CAPACITY
        } else {
            config.ring_capacity as usize
        },
        poll_min_ms: poll_min,
        poll_max_ms: if poll_max < poll_min {
            poll_min
        } else {
            poll_max
        },
        socket_budget: SocketBudget {
            memory_budget: if config.socket_memory_budget == 0 {
                crate::flow_manager::state::DEFAULT_MEMORY_BUDGET
            } else {
                config.socket_memory_budget as usize
            },
            tcp_rx_buffer_size: if config.tcp_rx_buffer_size == 0 {
                crate::flow_manager::state::DEFAULT_TCP_RX_BUFFER
            } else {
                config.tcp_rx_buffer_size as usize
            },
            tcp_tx_buffer_size: if config.tcp_tx_buffer_size == 0 {
                crate::flow_manager::state::DEFAULT_TCP_TX_BUFFER
            } else {
                config.tcp_tx_buffer_size as usize
            },
            udp_buffer_size: if config.udp_buffer_size == 0 {
                crate::flow_manager::state::DEFAULT_UDP_BUFFER
            } else {
                config.udp_buffer_size as usize
            },
        },
    }
}

impl EngineSettings {
    pub fn from_config(config: &BridgeConfig) -> (r: EngineSettings)
        ensures
            r == settings_of(*config),
            r.poll_min_ms >= 1,
            r.poll_min_ms <= r.poll_max_ms,
            MIN_MTU <= r.mtu <= MAX_MTU,
    {
        let poll_min = if config.poll_min_interval_ms == 0 {
            DEFAULT_POLL_MIN_MS
        } else {
            config.poll_min_interval_ms
        };
        let poll_max = if config.poll_max_interval_ms == 0 {
            DEFAULT_POLL_MAX_MS
        } else {
            config.poll_max_interval_ms
        };
        EngineSettings {
            mtu: normalize_mtu(config.mtu),
            ring_capacity: if config.ring_capacity == 0 {
                DEFAULT_RING_CAPACITY
            } else {
                config.ring_capacity as usize
            },
            poll_min_ms: poll_min,
            poll_max_ms: if poll_max < poll_min {
                poll_min
            } else {
                poll_max
            },
            socket_budget: SocketBudget::from_config(
                config.socket_memory_budget,
                config.tcp_rx_buffer_size,
                config.tcp_tx_buffer_size,
                config.udp_buffer_size,
            ),
        }
    }
}

/// The wait before the next tick: the shortest interval after a tick that
/// did work or a wake-up, else twice the last wait, the longest interval at most.
pub open spec fn next_delay(delay_ms: u64, did_work: bool, woke: bool, min_ms: u64, max_ms: u64) -> u64 {
    if did_work || woke {
        min_ms
    } else if delay_ms * 2 > max_ms {
        max_ms
    } else {
        (delay_ms * 2) as u64
    }
}

/// The delay before the next tick: the shortest after work or a wake-up,
/// else twice the last one, up to the longest.
pub fn next_poll_delay(delay_ms: u64, did_work: bool, woke: bool, min_ms: u64, max_ms: u64) -> (r:
    u64)
    ensures
        r == next_delay(delay_ms, did_work, woke, min_ms, max_ms),
{
    if did_work || woke {
        min_ms
    } else if delay_ms > max_ms / 2 {
        max_ms
    } else {
        delay_ms * 2
    }
}

/// The category under which a refused packet is logged.
pub open spec fn category_of(error: ParseError) -> ErrorCategory {
    match error {
        ParseError::MalformedTcpSegment => ErrorCategory::PacketInvalidTcp,
        ParseError::MalformedUdpDatagram => ErrorCategory::PacketInvalidUdp,
        _ => ErrorCategory::PacketInvalidIp,
    }
}

/// The category under which a refused packet is logged.
pub fn packet_error_category(error: ParseError) -> (r: ErrorCategory)
    ensures
        r == category_of(error),
{
    match error {
        ParseError::MalformedTcpSegment => ErrorCategory::PacketInvalidTcp,
        ParseError::MalformedUdpDatagram => ErrorCategory::PacketInvalidUdp,
        _ => ErrorCategory::PacketInvalidIp,
    }
}

/// What the ingress says of a packet: whether it was taken, and for a
/// packet that does not parse the error to log.
#[derive(Clone, Copy, Debug, PartialEq, Eq, Structural)]
pub struct IngressVerdict {
    pub accepted: bool,
    pub error: Option<ParseError>,
}

/// The verdict on a packet, given what came of offering it to the channel:
/// a packet that parses is accepted exactly if the channel took it.
pub open spec fn ingress_verdict(packet: Seq<u8>, outcome: IngressOutcome) -> IngressVerdict {
    match parse_packet_spec(packet) {
        Ok(_) => IngressVerdict { accepted: outcome is Sent, error: None },
        Err(error) => IngressVerdict { accepted: false, error: Some(error) },
    }
}

/// The verdict on a packet that parses to `parsed`, once the channel has answered.
pub fn conclude_ingress(parsed: Option<ParseError>, outcome: IngressOutcome) -> (r: IngressVerdict)
    ensures
        r == match parsed {
            None => IngressVerdict { accepted: outcome is Sent, error: None },
            Some(error) => IngressVerdict { accepted: false, error: Some(error) },
        },
{
    match parsed {
        None => IngressVerdict {
            accepted: match outcome {
                IngressOutcome::Sent => true,
                _ => false,
            },
            error: None,
        },
        Some(error) => IngressVerdict { accepted: false, error: Some(error) },
    }
}

/// Takes a frame from the TUN interface: a frame that parses is offered to
/// the ingress channel, a frame that does not is refused with its error.
pub fn handle_packet(tx: &Sender<Vec<u8>>, packet: &[u8]) -> (r: IngressVerdict)
    ensures
        parse_packet_spec(packet@) matches Err(error) ==> r == (IngressVerdict {
            accepted: false,
            error: Some(error),
        }),
        parse_packet_spec(packet@) is Ok ==> r.error is None,
        exists|outcome: IngressOutcome| r == #[trigger] ingress_verdict(packet@, outcome),
{
    match parse_packet_validated(packet) {
        Ok(_) => {
            let outcome = try_send_packet(tx, vstd::slice::slice_to_vec(packet));
            let r = conclude_ingress(None, outcome);
            assert(r == ingress_verdict(packet@, outcome));
            r
        },
        Err(error) => {
            let r = conclude_ingress(Some(error), IngressOutcome::Full);
            assert(r == ingress_verdict(packet@, IngressOutcome::Full));
            r
        },
    }
}

/// What a packet from the ingress channel comes to: a packet that parses
/// is processed by the flow engine, any other packet changes nothing.
pub open spec fn ingest_step(
    before: FlowManager,
    after: FlowManager,
    policy_before: PolicyManager,
    policy_after: PolicyManager,
    ring_before: Telemetry,
    ring_after: Telemetry,
    bytes: Seq<u8>,
    tick: Tick,
) -> bool {
    match parse_packet_spec(bytes) {
        Ok(packet) => packet_processed(
            before,
            after,
            policy_before,
            policy_after,
            ring_before,
            ring_after,
            packet,
            tick,
        ),
        Err(_) => after == before && policy_after == policy_before && ring_after == ring_before,
    }
}

/// What `packets` from the ingress channel come to, one after the other.
pub open spec fn ingest_run(
    before: FlowManager,
    after: FlowManager,
    policy_before: PolicyManager,
    policy_after: PolicyManager,
    ring_before: Telemetry,
    ring_after: Telemetry,
    packets: Seq<Seq<u8>>,
    tick: Tick,
) -> bool
    decreases packets.len(),
{
    if packets.len() == 0 {
        after == before && policy_after == policy_before && ring_after == ring_before
    } else {
        exists|flows: FlowManager, policy: PolicyManager, ring: Telemetry|
            #![trigger ingest_step(
                flows,
                after,
                policy,
                policy_after,
                ring,
                ring_after,
                packets.last(),
                tick,
            )]
            ingest_run(
                before,
                flows,
                policy_before,
                policy,
                ring_before,
                ring,
                packets.drop_last(),
                tick,
            ) && ingest_step(
                flows,
                after,
                policy,
                policy_after,
                ring,
                ring_after,
                packets.last(),
                tick,
            )
    }
}

/// Whether one of `packets` parses.
pub open spec fn any_parses(packets: Seq<Seq<u8>>) -> bool {
    exists|i: int| 0 <= i < packets.len() && parse_packet_spec(#[trigger] packets[i]) is Ok
}

/// One more packet goes on from what the packets before it came to.
pub proof fn lemma_ingest_step(
    start: FlowManager,
    before: FlowManager,
    after: FlowManager,
    policy_start: PolicyManager,
    policy_before: PolicyManager,
    policy_after: PolicyManager,
    ring_start: Telemetry,
    ring_before: Telemetry,
    ring_after: Telemetry,
    packets: Seq<Seq<u8>>,
    bytes: Seq<u8>,
    tick: Tick,
)
    requires
        ingest_run(start, before, policy_start, policy_before, ring_start, ring_before, packets, tick),
        ingest_step(before, after, policy_before, policy_after, ring_before, ring_after, bytes, tick),
    ensures
        ingest_run(
            start,
            after,
            policy_start,
            policy_after,
            ring_start,
            ring_after,
            packets.push(bytes),
            tick,
        ),
        any_parses(packets.push(bytes)) == (any_parses(packets) || parse_packet_spec(bytes) is Ok),
{
    let longer = packets.push(bytes);
    assert(longer.drop_last() =~= packets);
    assert(longer.last() == bytes);
    assert(ingest_step(
        before,
        after,
        policy_before,
        policy_after,
        ring_before,
        ring_after,
        longer.last(),
        tick,
    ));
    if any_parses(packets) {
        let i = choose|i: int|
            0 <= i < packets.len() && parse_packet_spec(#[trigger] packets[i]) is Ok;
        assert(longer[i] == packets[i]);
    }
    if parse_packet_spec(bytes) is Ok {
        assert(longer[packets.len() as int] == bytes);
    }
    if any_parses(longer) {
        let i = choose|i: int|
            0 <= i < longer.len() && parse_packet_spec(#[trigger] longer[i]) is Ok;
        if i < packets.len() {
            assert(packets[i] == longer[i]);
        }
    }
}

/// Takes in a packet that came through the ingress channel: a packet that
/// parses is handed to the flow engine. Says whether it was handed on.
pub fn ingest_packet(
    packet: &[u8],
    flows: &mut FlowManager,
    policy: &mut PolicyManager,
    telemetry: &mut Telemetry,
    tick: Tick,
) -> (handed: bool)
    requires
        old(flows).wf(),
        old(policy).wf(),
        old(telemetry).wf(),
    ensures
        final(flows).wf(),
        final(policy).wf(),
        final(telemetry).wf(),
        handed == parse_packet_spec(packet@) is Ok,
        ingest_step(
            *old(flows),
            *final(flows),
            *old(policy),
            *final(policy),
            *old(telemetry),
            *final(telemetry),
            packet@,
            tick,
        ),
{
    match parse_packet_validated(packet) {
        Ok(parsed) => {
            flows.process_packet(&parsed, policy, telemetry, tick);
            true
        },
        Err(_) => false,
    }
}

/// Takes up to 512 packets from the ingress channel, in the order in which
/// the channel gives them, and takes each of them in; says whether one of
/// them was handed to the flow engine. Whatever the channel held, no flow
/// leaves the table and nothing that was collected for the host is taken
/// back; where no packet was handed on, nothing has changed.
pub fn drain_ingress(
    rx: &Receiver<Vec<u8>>,
    flows: &mut FlowManager,
    policy: &mut PolicyManager,
    telemetry: &mut Telemetry,
    tick: Tick,
) -> (did_work: bool)
    requires
        old(flows).wf(),
        old(policy).wf(),
        old(telemetry).wf(),
    ensures
        final(flows).wf(),
        final(policy).wf(),
        final(telemetry).wf(),
        final(flows).limits == old(flows).limits,
        final(flows).memory.budget == old(flows).memory.budget,
        final(flows).next_flow_id >= old(flows).next_flow_id,
        final(flows).callbacks_installed == old(flows).callbacks_installed,
        final(flows).stats == old(flows).stats,
        final(flows).jitter_state == old(flows).jitter_state,
        flows_kept(old(flows).flows@, final(flows).flows@),
        batch_extends(old(flows).outbox@, final(flows).outbox@),
        !did_work ==> {
            &&& final(flows)@ == old(flows)@
            &&& final(policy)@ == old(policy)@
            &&& final(telemetry)@ == old(telemetry)@
        },
        exists|packets: Seq<Seq<u8>>|
            #![trigger any_parses(packets)]
            {
                &&& packets.len() <= PACKET_CHANNEL_CAPACITY
                &&& did_work == any_parses(packets)
                &&& ingest_run(
                    *old(flows),
                    *final(flows),
                    *old(policy),
                    *final(policy),
                    *old(telemetry),
                    *final(telemetry),
                    packets,
                    tick,
                )
            },
{
    proof {
        lemma_extends_self(flows.outbox@);
    }
    let ghost packets: Seq<Seq<u8>> = Seq::empty();
    let mut did_work = false;
    let mut taken: usize = 0;
    let mut more = true;
    while more && taken < PACKET_CHANNEL_CAPACITY
        invariant
            flows.wf(),
            policy.wf(),
            telemetry.wf(),
            flows.limits == old(flows).limits,
            flows.memory.budget == old(flows).memory.budget,
            flows.next_flow_id >= old(flows).next_flow_id,
            flows.callbacks_installed == old(flows).callbacks_installed,
            flows.stats == old(flows).stats,
            flows.jitter_state == old(flows).jitter_state,
            flows_kept(old(flows).flows@, flows.flows@),
            batch_extends(old(flows).outbox@, flows.outbox@),
            !did_work ==> {
                &&& flows@ == old(flows)@
                &&& policy@ == old(policy)@
                &&& telemetry@ == old(telemetry)@
            },
            packets.len() == taken,
            taken <= PACKET_CHANNEL_CAPACITY,
            did_work == any_parses(packets),
            ingest_run(
                *old(flows),
                *flows,
                *old(policy),
                *policy,
                *old(telemetry),
                *telemetry,
                packets,
                tick,
            ),
        decreases
                (if more {
                    1int
                } else {
                    0int
                }),
                PACKET_CHANNEL_CAPACITY - taken,
    {
        match try_recv_packet(rx) {
            Some(packet) => {
                let ghost before = *flows;
                let ghost policy_before = *policy;
                let ghost ring_before = *telemetry;
                let handed = ingest_packet(packet.as_slice(), flows, policy, telemetry, tick);
                proof {
                    lemma_ingest_step(
                        *old(flows),
                        before,
                        *flows,
                        *old(policy),
                        policy_before,
                        *policy,
                        *old(telemetry),
                        ring_before,
                        *telemetry,
                        packets,
                        packet@,
                        tick,
                    );
                    lemma_flows_kept_chain(old(flows).flows@, before.flows@, flows.flows@);
                    lemma_extends_self(before.outbox@);
                    lemma_extends_chain(old(flows).outbox@, before.outbox@, flows.outbox@);
                    packets = packets.push(packet@);
                }
                if handed {
                    did_work = true;
                }
                taken = taken + 1;
            },
            None => {
                more = false;
            },
        }
    }
    did_work
}

} // verus!
