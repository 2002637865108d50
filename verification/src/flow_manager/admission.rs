//! Admission: what a packet from the client does to the table. A packet of
//! a known flow keeps the flow alive; a packet of an unknown flow meets the
//! policy and the memory budget, and opens a flow if both let it.

use crate::addr::{ip_string, IpAddress};
use crate::device::{TcpPacket, TcpPacketView, UdpPacket, UdpPacketView};
use crate::ffi::{bump, bumped, FlowCounters};
use crate::flow_manager::batch::{
    batch_extends, lemma_extends_self, lemma_prefix_of_concat, BatchView, DialRequestView,
};
use crate::flow_manager::packet_builder::{
    build_icmp_block, build_tcp_reset, prohibited_frame, tcp_reset_frame,
};
use crate::flow_manager::sockets::{
    add_tcp_socket, add_udp_socket, socket_kinds, state_after_listen, tcp_listen,
    tcp_state_answer, udp_bind, udp_bound, TcpState,
};
use crate::dns::dns_mappings;
use crate::flow_manager::dial::{
    dial_request_for, dial_requests, dialled_where_due, dials_dispatched,
};
use crate::flow_manager::state::{
    dial_due, touched, FlowEntry, FlowKey, FlowKind, FlowLimits, FlowView, ShaperView,
    TCP_BACKPRESSURE_RETRY_MS,
};
use crate::flow_manager::stream::buffered_delivery;
use crate::flow_manager::transport::{flow_replaced, observe_all, with_dns_records};
use crate::flow_manager::{
    lemma_count_bound, lemma_count_push, lemma_update_keeps_table, no_stray_sockets, EngineView,
    FlowManager, Tick,
};
use smoltcp::iface::SocketHandle;
use crate::policy::{
    decided, decision_spec, match_host_spec, PolicyDecisionView, PolicyManager, PolicyView,
    RuleAction, ShapingConfig,
};
use crate::telemetry::{
    after_record, PacketDirection, TELEMETRY_FLAG_POLICY_BLOCK, TELEMETRY_FLAG_POLICY_SHAPE,
    Telemetry, TelemetryEvent, TelemetryEventView, TelemetryView,
};
use vstd::prelude::*;

verus! {

/// What the policy makes of a new flow.
#[derive(Clone, Copy, Debug, PartialEq, Eq, Structural)]
pub enum PolicyDisposition {
    Allow,
    Block,
    Shape(ShapingConfig),
}

/// The decision of the policy for a flow to `dst` at `now`: that for the
/// address, or, where there is none, that of a rule that matches the
/// address as text.
pub open spec fn policy_verdict(policy: PolicyView, dst: IpAddress, now: u64) -> Option<
    PolicyDecisionView,
> {
    match decision_spec(policy, dst, now) {
        Some(decision) => Some(decision),
        None => match match_host_spec(policy.rules, dst.text()) {
            Some(action) => Some(PolicyDecisionView { host: dst.text(), action }),
            None => None,
        },
    }
}

/// What a verdict means for the flow.
pub open spec fn disposition_of(verdict: Option<PolicyDecisionView>) -> PolicyDisposition {
    match verdict {
        Some(decision) => match decision.action {
            RuleAction::Block => PolicyDisposition::Block,
            RuleAction::Shape(config) => PolicyDisposition::Shape(config),
        },
        None => PolicyDisposition::Allow,
    }
}

/// The telemetry event for a rule that hit a new flow.
pub open spec fn policy_hit_event(
    key: FlowKey,
    kind: FlowKind,
    decision: PolicyDecisionView,
    unix_ms: u64,
) -> TelemetryEventView {
    TelemetryEventView {
        timestamp_ms: unix_ms,
        protocol: if kind is Tcp {
            6
        } else {
            17
        },
        direction: PacketDirection::ClientToNetwork,
        payload_len: 0,
        src: key.src_ip,
        dst: key.dst_ip,
        dns_qname: Some(decision.host),
        dns_response: false,
        flags: if decision.action is Block {
            TELEMETRY_FLAG_POLICY_BLOCK
        } else {
            TELEMETRY_FLAG_POLICY_SHAPE
        },
    }
}

/// The telemetry ring after the policy was applied to a new flow.
pub open spec fn ring_after_verdict(
    ring: TelemetryView,
    key: FlowKey,
    kind: FlowKind,
    verdict: Option<PolicyDecisionView>,
    unix_ms: u64,
) -> TelemetryView {
    match verdict {
        Some(decision) => after_record(ring, policy_hit_event(key, kind, decision, unix_ms)),
        None => ring,
    }
}

/// The shaping that a disposition gives a flow.
pub open spec fn shaping_of(disposition: PolicyDisposition) -> Option<ShapingConfig> {
    match disposition {
        PolicyDisposition::Shape(config) => Some(config),
        _ => None,
    }
}

/// A flow as it is opened at `now`.
pub open spec fn opened_flow(
    key: FlowKey,
    handle: u64,
    socket: smoltcp::iface::SocketHandle,
    now: u64,
    shaping: Option<ShapingConfig>,
    client_closed: bool,
) -> FlowView {
    FlowView {
        key,
        socket,
        kind: key.kind,
        handle,
        ready: false,
        pending_dial: false,
        dial_attempts: 0,
        next_redial_at: Some(now),
        last_activity: now,
        buffered: Seq::empty(),
        client_closed,
        server_closed: false,
        shaping: match shaping {
            Some(config) => Some(ShaperView { config, queue: Seq::empty() }),
            None => None,
        },
        backpressure_retry_at: None,
        backpressure_cooldown_ms: TCP_BACKPRESSURE_RETRY_MS,
        dial_started_at: None,
        created_at: now,
        delivered: Seq::empty(),
        pushed: Seq::empty(),
        lossless: true,
        dials_requested: 0,
    }
}

/// Whether the table holds a flow with `key`.
pub open spec fn known(flows: Seq<FlowEntry>, key: FlowKey) -> bool {
    exists|k: int| 0 <= k < flows.len() && (#[trigger] flows[k]).key == key
}

/// The batch with `frame` as one more frame to emit, if the host has
/// installed its callbacks and there is a frame.
pub open spec fn with_frame(batch: BatchView, callbacks: bool, frame: Option<Seq<u8>>) -> BatchView {
    if callbacks && frame is Some {
        BatchView { frames: batch.frames.push(frame->0), ..batch }
    } else {
        batch
    }
}

/// The counters after a flow of `kind` was refused for want of memory.
pub open spec fn refused_counters(counters: FlowCounters, kind: FlowKind) -> FlowCounters {
    if kind is Tcp {
        FlowCounters { tcp_admission_fail: bumped(counters.tcp_admission_fail), ..counters }
    } else {
        FlowCounters { udp_admission_fail: bumped(counters.udp_admission_fail), ..counters }
    }
}

/// A new flow as it stands in the table before its first dial: opened at
/// `now`, with the payload of the packet that opened it in its buffer, if
/// the packet had one and the buffer takes it.
pub open spec fn first_view(
    key: FlowKey,
    handle: u64,
    socket: smoltcp::iface::SocketHandle,
    shaping: Option<ShapingConfig>,
    client_closed: bool,
    payload: Seq<u8>,
    limits: FlowLimits,
    now: u64,
) -> FlowView {
    let opened = opened_flow(key, handle, socket, now, shaping, client_closed);
    if payload.len() > 0 {
        buffered_delivery(
            opened,
            payload,
            limits.max_buffered_payloads as nat,
            limits.max_buffered_bytes as nat,
            now,
        )
    } else {
        opened
    }
}

/// Whether `new` is `old` with one more flow, opened with the next handle,
/// and with the dials requested that are due at `now`, that of the new flow
/// among them, if the host has installed its callbacks.
pub open spec fn opened_and_dialled(
    old: EngineView,
    new: EngineView,
    key: FlowKey,
    handle: u64,
    shaping: Option<ShapingConfig>,
    client_closed: bool,
    payload: Seq<u8>,
    limits: FlowLimits,
    now: u64,
) -> bool {
    exists|created: FlowEntry|
        {
            &&& #[trigger] created.wf()
            &&& created@ == first_view(
                key,
                handle,
                created.socket,
                shaping,
                client_closed,
                payload,
                limits,
                now,
            )
            &&& new.flows.len() == old.flows.len() + 1
            &&& if old.callbacks_installed {
                &&& forall|i: int|
                    0 <= i < new.flows.len() ==> dialled_where_due(
                        old.flows.push(created)[i],
                        #[trigger] new.flows[i],
                        now,
                    )
                &&& new.outbox == (BatchView {
                    dials: old.outbox.dials + dial_requests(old.flows.push(created), now),
                    ..old.outbox
                })
            } else {
                &&& new.flows == old.flows.push(created)
                &&& new.outbox == old.outbox
            }
        }
}

/// What a packet of the client does to the sockets: nothing, unless it
/// opens a flow; the socket of a new flow is one more socket of the set,
/// of the kind of the flow, and it listens on the port of the server, or
/// is bound to it, unless that port is zero.
pub open spec fn opened_socket(before: FlowManager, after: FlowManager, key: FlowKey) -> bool {
    if after.flows@.len() == before.flows@.len() {
        after.sockets == before.sockets
    } else {
        let socket = after.flows@[before.flows@.len() as int].socket;
        &&& !socket_kinds(before.sockets).dom().contains(socket)
        &&& socket_kinds(after.sockets) == socket_kinds(before.sockets).insert(
            socket,
            key.kind is Tcp,
        )
        &&& if key.kind is Tcp {
            tcp_state_answer(after.sockets, socket) == state_after_listen(
                TcpState::Closed,
                key.dst_port,
            )
        } else {
            udp_bound(after.sockets, socket) == (key.dst_port != 0)
        }
    }
}

/// What a packet of the client with `key` comes to. For a known flow the
/// packet is noted. For an unknown flow the policy is applied and its
/// verdict recorded: a blocked flow is answered with `block_frame`; any
/// other flow is opened, shaped as the verdict says, and its dial
/// requested; where no flow can be opened the refusal is counted and
/// answered with `block_frame`.
pub open spec fn packet_outcome(
    old: EngineView,
    new: EngineView,
    old_policy: PolicyView,
    new_policy: PolicyView,
    old_ring: TelemetryView,
    new_ring: TelemetryView,
    key: FlowKey,
    closing: bool,
    payload: Seq<u8>,
    block_frame: Option<Seq<u8>>,
    tick: Tick,
    can_open: bool,
    handle: u64,
    limits: FlowLimits,
) -> bool {
    &&& new.stats == old.stats
    &&& new.jitter_state == old.jitter_state
    &&& new.callbacks_installed == old.callbacks_installed
    &&& if known(old.flows, key) {
        &&& exists|k: int|
            0 <= k < old.flows.len() && (#[trigger] old.flows[k]).key == key && flow_replaced(
                old.flows,
                new.flows,
                k,
                touched(old.flows[k]@, tick.now_ms, closing),
            )
        &&& new.outbox == old.outbox
        &&& new.counters == old.counters
        &&& new_policy == old_policy
        &&& new_ring == old_ring
    } else {
        let verdict = policy_verdict(old_policy, key.dst_ip, tick.now_ms);
        let disposition = disposition_of(verdict);
        &&& new_policy == decided(old_policy, key.dst_ip, tick.now_ms)
        &&& new_ring == ring_after_verdict(old_ring, key, key.kind, verdict, tick.unix_ms)
        &&& if disposition is Block {
            &&& new.flows == old.flows
            &&& new.counters == old.counters
            &&& new.outbox == with_frame(old.outbox, old.callbacks_installed, block_frame)
        } else if !can_open {
            &&& new.flows == old.flows
            &&& new.counters == refused_counters(old.counters, key.kind)
            &&& new.outbox == with_frame(old.outbox, old.callbacks_installed, block_frame)
        } else {
            &&& new.counters == old.counters
            &&& opened_and_dialled(
                old,
                new,
                key,
                handle,
                shaping_of(disposition),
                closing,
                payload,
                limits,
                tick.now_ms,
            )
        }
    }
}

/// A packet of the client for a flow that the table does not know, that no
/// rule speaks of and that can be opened, opens the flow and has the host
/// asked at once to dial, where the host has installed its callbacks: the
/// flow is the last of the table, under the next handle, not ready, with
/// its first dial out, and the request for this dial is the newest of the
/// dial requests.
pub proof fn lemma_new_flow_dials(
    old: EngineView,
    new: EngineView,
    old_policy: PolicyView,
    new_policy: PolicyView,
    old_ring: TelemetryView,
    new_ring: TelemetryView,
    key: FlowKey,
    closing: bool,
    payload: Seq<u8>,
    block_frame: Option<Seq<u8>>,
    tick: Tick,
    handle: u64,
    limits: FlowLimits,
)
    requires
        packet_outcome(
            old,
            new,
            old_policy,
            new_policy,
            old_ring,
            new_ring,
            key,
            closing,
            payload,
            block_frame,
            tick,
            true,
            handle,
            limits,
        ),
        !known(old.flows, key),
        old.callbacks_installed,
        policy_verdict(old_policy, key.dst_ip, tick.now_ms) is None,
    ensures
        new.flows.len() == old.flows.len() + 1,
        new.flows.last()@.key == key,
        new.flows.last()@.kind == key.kind,
        new.flows.last()@.handle == handle,
        !new.flows.last()@.ready,
        new.flows.last()@.pending_dial,
        new.flows.last()@.dial_attempts == 1,
        new.flows.last()@.dials_requested == 1,
        new.outbox.dials.len() > old.outbox.dials.len(),
        new.outbox.dials.last() == (DialRequestView {
            handle,
            host: key.dst_ip.text(),
            port: key.dst_port,
            kind: key.kind,
        }),
        new.outbox.frames == old.outbox.frames,
        new.outbox.closes == old.outbox.closes,
        new_ring == old_ring,
        new.counters == old.counters,
{
    let now = tick.now_ms;
    let created = choose|created: FlowEntry|
        {
            &&& #[trigger] created.wf()
            &&& created@ == first_view(key, handle, created.socket, None, closing, payload, limits, now)
            &&& new.flows.len() == old.flows.len() + 1
            &&& forall|i: int|
                0 <= i < new.flows.len() ==> dialled_where_due(
                    old.flows.push(created)[i],
                    #[trigger] new.flows[i],
                    now,
                )
            &&& new.outbox == (BatchView {
                dials: old.outbox.dials + dial_requests(old.flows.push(created), now),
                ..old.outbox
            })
        };
    let table = old.flows.push(created);
    let last = old.flows.len() as int;
    assert(table[last] == created);
    assert(table.last() == created);
    assert(table.drop_last() =~= old.flows);
    assert(dial_due(created@, now));
    assert(dialled_where_due(table[last], new.flows[last], now));
    let requests = dial_requests(table, now);
    assert(requests == dial_requests(old.flows, now).push(dial_request_for(created@)));
    assert(new.outbox.dials.last() == requests.last());
}

/// Whether every flow of `old` is still in the table, in its place and
/// under its handle and key.
pub open spec fn flows_kept(old: Seq<FlowEntry>, new: Seq<FlowEntry>) -> bool {
    &&& old.len() <= new.len()
    &&& forall|i: int|
        0 <= i < old.len() ==> (#[trigger] new[i])@.handle == old[i]@.handle && new[i]@.key
            == old[i]@.key
}

/// Flows that were kept twice were kept.
pub proof fn lemma_flows_kept_chain(a: Seq<FlowEntry>, b: Seq<FlowEntry>, c: Seq<FlowEntry>)
    requires
        flows_kept(a, b),
        flows_kept(b, c),
    ensures
        flows_kept(a, c),
{
    assert forall|i: int| 0 <= i < a.len() implies (#[trigger] c[i])@.handle == a[i]@.handle
        && c[i]@.key == a[i]@.key by {
        assert(b[i]@.handle == a[i]@.handle);
    }
}

/// A packet of the client takes no flow from the table and nothing from
/// what was collected for the host.
pub proof fn lemma_packet_keeps(
    old: EngineView,
    new: EngineView,
    old_policy: PolicyView,
    new_policy: PolicyView,
    old_ring: TelemetryView,
    new_ring: TelemetryView,
    key: FlowKey,
    closing: bool,
    payload: Seq<u8>,
    block_frame: Option<Seq<u8>>,
    tick: Tick,
    can_open: bool,
    handle: u64,
    limits: FlowLimits,
)
    requires
        packet_outcome(
            old,
            new,
            old_policy,
            new_policy,
            old_ring,
            new_ring,
            key,
            closing,
            payload,
            block_frame,
            tick,
            can_open,
            handle,
            limits,
        ),
    ensures
        flows_kept(old.flows, new.flows),
        batch_extends(old.outbox, new.outbox),
        new.stats == old.stats,
        new.jitter_state == old.jitter_state,
{
    lemma_extends_self(old.outbox);
    if known(old.flows, key) {
        let k = choose|k: int|
            0 <= k < old.flows.len() && (#[trigger] old.flows[k]).key == key && flow_replaced(
                old.flows,
                new.flows,
                k,
                touched(old.flows[k]@, tick.now_ms, closing),
            );
        assert forall|i: int| 0 <= i < old.flows.len() implies (#[trigger] new.flows[i])@.handle
            == old.flows[i]@.handle && new.flows[i]@.key == old.flows[i]@.key by {
            if i != k {
                assert(new.flows[i] == old.flows[i]);
            }
        }
    } else {
        let verdict = policy_verdict(old_policy, key.dst_ip, tick.now_ms);
        let disposition = disposition_of(verdict);
        if disposition is Block || !can_open {
            if old.callbacks_installed && block_frame is Some {
                lemma_prefix_of_concat(old.outbox.frames, Seq::empty());
            }
        } else {
            let created = choose|created: FlowEntry|
                {
                    &&& #[trigger] created.wf()
                    &&& created@ == first_view(
                        key,
                        handle,
                        created.socket,
                        shaping_of(disposition),
                        closing,
                        payload,
                        limits,
                        tick.now_ms,
                    )
                    &&& new.flows.len() == old.flows.len() + 1
                    &&& if old.callbacks_installed {
                        &&& forall|i: int|
                            0 <= i < new.flows.len() ==> dialled_where_due(
                                old.flows.push(created)[i],
                                #[trigger] new.flows[i],
                                tick.now_ms,
                            )
                        &&& new.outbox == (BatchView {
                            dials: old.outbox.dials + dial_requests(
                                old.flows.push(created),
                                tick.now_ms,
                            ),
                            ..old.outbox
                        })
                    } else {
                        &&& new.flows == old.flows.push(created)
                        &&& new.outbox == old.outbox
                    }
                };
            if old.callbacks_installed {
                lemma_prefix_of_concat(
                    old.outbox.dials,
                    dial_requests(old.flows.push(created), tick.now_ms),
                );
                assert forall|i: int| 0 <= i < old.flows.len() implies (
                #[trigger] new.flows[i])@.handle == old.flows[i]@.handle && new.flows[i]@.key
                    == old.flows[i]@.key by {
                    assert(dialled_where_due(
                        old.flows.push(created)[i],
                        new.flows[i],
                        tick.now_ms,
                    ));
                    assert(old.flows.push(created)[i] == old.flows[i]);
                }
            }
        }
    }
}

/// The key of the flow of a TCP packet.
pub open spec fn tcp_key(packet: TcpPacketView) -> FlowKey {
    FlowKey {
        src_ip: packet.src,
        src_port: packet.src_port,
        dst_ip: packet.dst,
        dst_port: packet.dst_port,
        kind: FlowKind::Tcp,
    }
}

/// The key of the flow of a UDP packet.
pub open spec fn udp_key(packet: UdpPacketView) -> FlowKey {
    FlowKey {
        src_ip: packet.src,
        src_port: packet.src_port,
        dst_ip: packet.dst,
        dst_port: packet.dst_port,
        kind: FlowKind::Udp,
    }
}

/// Whether a UDP packet is looked at for DNS mappings: one from or to port
/// 53, once the host has installed its callbacks.
pub open spec fn snooped(packet: UdpPacketView, callbacks: bool) -> bool {
    callbacks && (packet.src_port == 53 || packet.dst_port == 53)
}

impl FlowManager {
    /// Whether a flow of `kind` can be opened: the memory budget has room
    /// for its socket, and a handle and a place in the table are left.
    pub open spec fn can_open(&self, kind: FlowKind) -> bool {
        &&& if kind is Tcp {
            self.memory.spec_can_allocate_tcp()
        } else {
            self.memory.spec_can_allocate_udp()
        }
        &&& self.next_flow_id < u64::MAX
        &&& self.flows@.len() < usize::MAX
    }

    /// Applies the policy to a new flow with `key`: the decision is recorded in telemetry.
    pub fn apply_policy_to_flow(
        &self,
        key: &FlowKey,
        kind: FlowKind,
        policy: &mut PolicyManager,
        telemetry: &mut Telemetry,
        tick: Tick,
    ) -> (disposition: PolicyDisposition)
        requires
            old(policy).wf(),
            old(telemetry).wf(),
        ensures
            final(policy).wf(),
            final(telemetry).wf(),
            final(policy)@ == decided(old(policy)@, key.dst_ip, tick.now_ms),
            disposition == disposition_of(policy_verdict(old(policy)@, key.dst_ip, tick.now_ms)),
            final(telemetry)@ == ring_after_verdict(
                old(telemetry)@,
                *key,
                kind,
                policy_verdict(old(policy)@, key.dst_ip, tick.now_ms),
                tick.unix_ms,
            ),
    {
        match policy.decision_for_ip(&key.dst_ip, tick.now_ms) {
            Some(decision) => {
                return self.handle_policy_decision(
                    key,
                    kind,
                    decision.host,
                    decision.action,
                    telemetry,
                    tick,
                );
            },
            None => {},
        }
        let literal = ip_string(key.dst_ip);
        match policy.match_host(literal.as_str()) {
            Some(action) => self.handle_policy_decision(key, kind, literal, action, telemetry, tick),
            None => PolicyDisposition::Allow,
        }
    }

    fn handle_policy_decision(
        &self,
        key: &FlowKey,
        kind: FlowKind,
        host: String,
        action: RuleAction,
        telemetry: &mut Telemetry,
        tick: Tick,
    ) -> (disposition: PolicyDisposition)
        requires
            old(telemetry).wf(),
        ensures
            final(telemetry).wf(),
            disposition == disposition_of(Some(PolicyDecisionView { host: host@, action })),
            final(telemetry)@ == after_record(
                old(telemetry)@,
                policy_hit_event(*key, kind, PolicyDecisionView { host: host@, action }, tick.unix_ms),
            ),
    {
        self.record_policy_hit(key, kind, host, &action, telemetry, tick);
        match action {
            RuleAction::Block => PolicyDisposition::Block,
            RuleAction::Shape(config) => PolicyDisposition::Shape(config),
        }
    }

    fn record_policy_hit(
        &self,
        key: &FlowKey,
        kind: FlowKind,
        host: String,
        action: &RuleAction,
        telemetry: &mut Telemetry,
        tick: Tick,
    )
        requires
            old(telemetry).wf(),
        ensures
            final(telemetry).wf(),
            final(telemetry)@ == after_record(
                old(telemetry)@,
                policy_hit_event(
                    *key,
                    kind,
                    PolicyDecisionView { host: host@, action: *action },
                    tick.unix_ms,
                ),
            ),
    {
        let mut event = TelemetryEvent::new(
            kind.protocol(),
            PacketDirection::ClientToNetwork,
            0,
            key.src_ip,
            key.dst_ip,
            tick.unix_ms,
        );
        event.dns_qname = Some(host);
        event.flags = match action {
            RuleAction::Block => TELEMETRY_FLAG_POLICY_BLOCK,
            RuleAction::Shape(_) => TELEMETRY_FLAG_POLICY_SHAPE,
        };
        telemetry.record(event);
    }

    /// Collects the reset that answers a TCP packet, if the host can emit it.
    pub fn emit_tcp_block_response(&mut self, packet: &TcpPacket<'_>)
        ensures
            final(self).outbox@ == if old(self).callbacks_installed && tcp_reset_frame(packet@)
                is Some {
                BatchView {
                    frames: old(self).outbox@.frames.push(tcp_reset_frame(packet@)->0),
                    ..old(self).outbox@
                }
            } else {
                old(self).outbox@
            },
            final(self).callbacks_installed == old(self).callbacks_installed,
            final(self).sockets == old(self).sockets,
            final(self).memory == old(self).memory,
            final(self).flows == old(self).flows,
            final(self).next_flow_id == old(self).next_flow_id,
            final(self).counters == old(self).counters,
            final(self).stats == old(self).stats,
            final(self).limits == old(self).limits,
            final(self).jitter_state == old(self).jitter_state,
    {
        if !self.callbacks_installed {
            return ;
        }
        match build_tcp_reset(packet) {
            Some(frame) => {
                self.outbox.add_frame(frame);
            },
            None => {},
        }
    }

    /// Collects the unreachable message that answers a UDP packet, if the host can emit it.
    pub fn emit_udp_block_response(&mut self, packet: &UdpPacket<'_>)
        ensures
            final(self).outbox@ == if old(self).callbacks_installed && prohibited_frame(packet@)
                is Some {
                BatchView {
                    frames: old(self).outbox@.frames.push(prohibited_frame(packet@)->0),
                    ..old(self).outbox@
                }
            } else {
                old(self).outbox@
            },
            final(self).callbacks_installed == old(self).callbacks_installed,
            final(self).sockets == old(self).sockets,
            final(self).memory == old(self).memory,
            final(self).flows == old(self).flows,
            final(self).next_flow_id == old(self).next_flow_id,
            final(self).counters == old(self).counters,
            final(self).stats == old(self).stats,
            final(self).limits == old(self).limits,
            final(self).jitter_state == old(self).jitter_state,
    {
        if !self.callbacks_installed {
            return ;
        }
        match build_icmp_block(packet) {
            Some(frame) => {
                self.outbox.add_frame(frame);
            },
            None => {},
        }
    }

    /// Opens a flow with `key` at `now`, if one can be opened: a socket of
    /// its kind listens (TCP) or is bound (UDP) on the destination of the
    /// flow, its cost is taken from the budget, and the flow gets the next
    /// handle and the last place in the table. Gives the place.
    pub(crate) fn open_flow(
        &mut self,
        key: FlowKey,
        shaping: Option<ShapingConfig>,
        client_closed: bool,
        now: u64,
    ) -> (place: Option<usize>)
        requires
            old(self).wf(),
            forall|k: int| 0 <= k < old(self).flows@.len() ==> (#[trigger] old(self).flows@[k]).key != key,
        ensures
            final(self).wf(),
            place is Some == old(self).can_open(key.kind),
            final(self).callbacks_installed == old(self).callbacks_installed,
            final(self).counters == old(self).counters,
            final(self).stats == old(self).stats,
            final(self).limits == old(self).limits,
            final(self).jitter_state == old(self).jitter_state,
            final(self).outbox == old(self).outbox,
            final(self).memory.budget == old(self).memory.budget,
            opened_socket(*old(self), *final(self), key),
            match place {
                Some(index) => {
                    &&& index == old(self).flows@.len()
                    &&& final(self).flows@.len() == index + 1
                    &&& final(self).flows@ == old(self).flows@.push(final(self).flows@[index as int])
                    &&& final(self).flows@[index as int]@ == opened_flow(
                        key,
                        old(self).next_flow_id,
                        final(self).flows@[index as int].socket,
                        now,
                        shaping,
                        client_closed,
                    )
                    &&& final(self).next_flow_id == old(self).next_flow_id + 1
                    &&& final(self).memory.current_usage == old(self).memory.current_usage + (if key.kind
                        is Tcp {
                        old(self).memory.budget.spec_tcp_socket_cost()
                    } else {
                        old(self).memory.budget.spec_udp_socket_cost()
                    })
                },
                None => {
                    &&& final(self).flows@ == old(self).flows@
                    &&& final(self).next_flow_id == old(self).next_flow_id
                    &&& final(self).memory == old(self).memory
                },
            },
    {
        let can_allocate = match key.kind {
            FlowKind::Tcp => self.memory.can_allocate_tcp(),
            FlowKind::Udp => self.memory.can_allocate_udp(),
        };
        if !can_allocate || self.next_flow_id == u64::MAX || self.flows.len() == usize::MAX {
            return None;
        }
        let ghost before = self.flows@;
        let ghost kinds = socket_kinds(self.sockets);
        proof {
            lemma_count_bound(before, FlowKind::Tcp);
            lemma_count_bound(before, FlowKind::Udp);
        }
        let socket = match key.kind {
            FlowKind::Tcp => {
                let socket = add_tcp_socket(
                    &mut self.sockets,
                    self.memory.budget.tcp_rx_buffer_size,
                    self.memory.budget.tcp_tx_buffer_size,
                );
                self.memory.allocate_tcp();
                tcp_listen(&mut self.sockets, socket, key.dst_ip, key.dst_port);
                socket
            },
            FlowKind::Udp => {
                let socket = add_udp_socket(&mut self.sockets, self.memory.budget.udp_buffer_size);
                self.memory.allocate_udp();
                udp_bind(&mut self.sockets, socket, key.dst_ip, key.dst_port);
                socket
            },
        };
        let handle = self.next_flow_id;
        self.next_flow_id = self.next_flow_id + 1;
        let entry = FlowEntry::create(key, handle, socket, now, shaping, client_closed, self.limits);
        let index = self.flows.len();
        self.flows.push(entry);
        proof {
            let after = self.flows@;
            assert(after =~= before.push(after[index as int]));
            lemma_count_push(before, after[index as int], FlowKind::Tcp);
            lemma_count_push(before, after[index as int], FlowKind::Udp);
            assert forall|k: int| 0 <= k < after.len() implies {
                &&& (#[trigger] after[k]).wf()
                &&& after[k].handle < self.next_flow_id
                &&& after[k].buffered.spec_max_payloads() == self.limits.max_buffered_payloads
                &&& after[k].buffered.spec_max_bytes() == self.limits.max_buffered_bytes
                &&& after[k].shaping matches Some(shaper) ==> shaper.spec_max_payloads()
                    == self.limits.max_shaped_payloads && shaper.spec_max_bytes()
                    == self.limits.max_shaped_bytes
                &&& socket_kinds(self.sockets).dom().contains(after[k].socket)
                &&& socket_kinds(self.sockets)[after[k].socket] == (after[k].kind is Tcp)
            } by {
                if k < index {
                    assert(after[k] == before[k]);
                    assert(before[k].wf());
                    assert(kinds.dom().contains(before[k].socket));
                }
            }
            assert forall|a: int, b: int| 0 <= a < b < after.len() implies {
                &&& (#[trigger] after[a]).handle != (#[trigger] after[b]).handle
                &&& after[a].key != after[b].key
                &&& after[a].socket != after[b].socket
            } by {
                assert(after[a] == before[a]);
                assert(before[a].wf());
                assert(kinds.dom().contains(before[a].socket));
                if b < index {
                    assert(after[b] == before[b]);
                    assert(before[a].handle != before[b].handle);
                }
            }
            assert(no_stray_sockets(after, socket_kinds(self.sockets))) by {
                reveal(no_stray_sockets);
                assert forall|h: SocketHandle| #[trigger]
                    socket_kinds(self.sockets).dom().contains(h) implies exists|i: int|
                    0 <= i < after.len() && (#[trigger] after[i]).socket == h by {
                    if h == socket {
                        assert(after[index as int].socket == h);
                    } else {
                        assert(kinds.dom().contains(h));
                        let i = choose|i: int|
                            0 <= i < before.len() && (#[trigger] before[i]).socket == h;
                        assert(after[i] == before[i]);
                    }
                }
            }
        }
        Some(index)
    }
    /// Takes a packet of the client for which the table holds no flow, or
    /// notes it for the flow that the table holds.
    #[verifier::rlimit(30)]
    fn take_packet(
        &mut self,
        key: FlowKey,
        closing: bool,
        payload: &[u8],
        tcp: Option<&TcpPacket<'_>>,
        udp: Option<&UdpPacket<'_>>,
        policy: &mut PolicyManager,
        telemetry: &mut Telemetry,
        tick: Tick,
    )
        requires
            old(self).wf(),
            old(policy).wf(),
            old(telemetry).wf(),
            key.kind is Tcp ==> tcp is Some && udp is None && payload@.len() == 0,
            key.kind is Udp ==> udp is Some && tcp is None,
        ensures
            final(self).wf(),
            final(policy).wf(),
            final(telemetry).wf(),
            final(self).limits == old(self).limits,
            final(self).memory.budget == old(self).memory.budget,
            final(self).next_flow_id >= old(self).next_flow_id,
            opened_socket(*old(self), *final(self), key),
            packet_outcome(
                old(self)@,
                final(self)@,
                old(policy)@,
                final(policy)@,
                old(telemetry)@,
                final(telemetry)@,
                key,
                closing,
                payload@,
                match tcp {
                    Some(packet) => tcp_reset_frame(packet@),
                    None => match udp {
                        Some(packet) => prohibited_frame(packet@),
                        None => None,
                    },
                },
                tick,
                old(self).can_open(key.kind),
                old(self).next_flow_id,
                old(self).limits,
            ),
    {
        proof {
            reveal(dials_dispatched);
        }
        let ghost before = self.flows@;
        match self.find_key(&key) {
            Some(index) => {
                proof {
                    assert(before[index as int].wf());
                }
                self.flows[index].touch(tick.now_ms, closing);
                proof {
                    lemma_update_keeps_table(
                        before,
                        self.flows@,
                        index as int,
                        self.limits,
                        self.next_flow_id,
                        socket_kinds(self.sockets),
                    );
                    assert(before[index as int].key == key);
                }
                return ;
            },
            None => {},
        }
        assert(!known(before, key));
        let disposition = self.apply_policy_to_flow(&key, key.kind, policy, telemetry, tick);
        let shaping = match disposition {
            PolicyDisposition::Allow => None,
            PolicyDisposition::Block => {
                self.emit_block_response(tcp, udp);
                return ;
            },
            PolicyDisposition::Shape(config) => Some(config),
        };
        match self.open_flow(key, shaping, closing, tick.now_ms) {
            Some(index) => {
                let ghost opened = self.flows@;
                if payload.len() > 0 {
                    proof {
                        assert(opened[index as int].wf());
                    }
                    let _ = self.flows[index].buffer_delivery(payload, tick.now_ms);
                    proof {
                        lemma_update_keeps_table(
                            opened,
                            self.flows@,
                            index as int,
                            self.limits,
                            self.next_flow_id,
                            socket_kinds(self.sockets),
                        );
                    }
                }
                let ghost table = self.flows@;
                let ghost created = table[index as int];
                proof {
                    assert(table =~= before.push(created));
                    assert(created.wf());
                }
                let _ = self.dispatch_pending_dials(tick.now_ms);
                proof {
                    if !self.callbacks_installed {
                        assert(self.flows@ =~= before.push(created));
                    }
                }
            },
            None => {
                match key.kind {
                    FlowKind::Tcp => {
                        self.counters.tcp_admission_fail = bump(self.counters.tcp_admission_fail);
                    },
                    FlowKind::Udp => {
                        self.counters.udp_admission_fail = bump(self.counters.udp_admission_fail);
                    },
                }
                self.emit_block_response(tcp, udp);
            },
        }
    }

    fn emit_block_response(&mut self, tcp: Option<&TcpPacket<'_>>, udp: Option<&UdpPacket<'_>>)
        ensures
            final(self).outbox@ == with_frame(
                old(self).outbox@,
                old(self).callbacks_installed,
                match tcp {
                    Some(packet) => tcp_reset_frame(packet@),
                    None => match udp {
                        Some(packet) => prohibited_frame(packet@),
                        None => None,
                    },
                },
            ),
            final(self).callbacks_installed == old(self).callbacks_installed,
            final(self).sockets == old(self).sockets,
            final(self).memory == old(self).memory,
            final(self).flows == old(self).flows,
            final(self).next_flow_id == old(self).next_flow_id,
            final(self).counters == old(self).counters,
            final(self).stats == old(self).stats,
            final(self).limits == old(self).limits,
            final(self).jitter_state == old(self).jitter_state,
    {
        match tcp {
            Some(packet) => self.emit_tcp_block_response(packet),
            None => match udp {
                Some(packet) => self.emit_udp_block_response(packet),
                None => {},
            },
        }
    }

    /// Takes a TCP packet of the client.
    pub fn handle_tcp_packet(
        &mut self,
        packet: &TcpPacket<'_>,
        policy: &mut PolicyManager,
        telemetry: &mut Telemetry,
        tick: Tick,
    )
        requires
            old(self).wf(),
            old(policy).wf(),
            old(telemetry).wf(),
        ensures
            final(self).wf(),
            final(policy).wf(),
            final(telemetry).wf(),
            final(self).limits == old(self).limits,
            final(self).memory.budget == old(self).memory.budget,
            final(self).next_flow_id >= old(self).next_flow_id,
            opened_socket(*old(self), *final(self), tcp_key(packet@)),
            packet_outcome(
                old(self)@,
                final(self)@,
                old(policy)@,
                final(policy)@,
                old(telemetry)@,
                final(telemetry)@,
                tcp_key(packet@),
                packet.flags.fin || packet.flags.rst,
                Seq::empty(),
                tcp_reset_frame(packet@),
                tick,
                old(self).can_open(FlowKind::Tcp),
                old(self).next_flow_id,
                old(self).limits,
            ),
    {
        let key = FlowKey::from_tcp(packet);
        let empty: Vec<u8> = Vec::new();
        self.take_packet(
            key,
            packet.flags.fin || packet.flags.rst,
            empty.as_slice(),
            Some(packet),
            None,
            policy,
            telemetry,
            tick,
        );
        assert(empty@ =~= Seq::<u8>::empty());
    }

    /// Looks at a UDP packet from or to port 53 for DNS mappings, once the
    /// host has installed its callbacks.
    pub fn observe_dns(&mut self, packet: &UdpPacket<'_>, policy: &mut PolicyManager, now: u64)
        requires
            old(policy).wf(),
        ensures
            final(policy).wf(),
            final(policy)@ == if snooped(packet@, old(self).callbacks_installed) {
                observe_all(old(policy)@, dns_mappings(packet@.payload), now)
            } else {
                old(policy)@
            },
            final(self)@ == with_dns_records(
                old(self)@,
                snooped(packet@, old(self).callbacks_installed),
                packet@.payload,
            ),
            final(self).sockets == old(self).sockets,
            final(self).memory == old(self).memory,
            final(self).flows == old(self).flows,
            final(self).next_flow_id == old(self).next_flow_id,
            final(self).limits == old(self).limits,
    {
        if packet.src_port != 53 && packet.dst_port != 53 {
            return ;
        }
        if !self.callbacks_installed {
            return ;
        }
        let _ = self.record_dns_response(packet.payload, policy, now);
    }

    /// Takes a UDP packet of the client: DNS is snooped first.
    pub fn handle_udp_packet(
        &mut self,
        packet: &UdpPacket<'_>,
        policy: &mut PolicyManager,
        telemetry: &mut Telemetry,
        tick: Tick,
    )
        requires
            old(self).wf(),
            old(policy).wf(),
            old(telemetry).wf(),
        ensures
            final(self).wf(),
            final(policy).wf(),
            final(telemetry).wf(),
            final(self).limits == old(self).limits,
            final(self).memory.budget == old(self).memory.budget,
            final(self).next_flow_id >= old(self).next_flow_id,
            opened_socket(*old(self), *final(self), udp_key(packet@)),
            packet_outcome(
                with_dns_records(
                    old(self)@,
                    snooped(packet@, old(self).callbacks_installed),
                    packet@.payload,
                ),
                final(self)@,
                if snooped(packet@, old(self).callbacks_installed) {
                    observe_all(old(policy)@, dns_mappings(packet@.payload), tick.now_ms)
                } else {
                    old(policy)@
                },
                final(policy)@,
                old(telemetry)@,
                final(telemetry)@,
                udp_key(packet@),
                false,
                packet@.payload,
                prohibited_frame(packet@),
                tick,
                old(self).can_open(FlowKind::Udp),
                old(self).next_flow_id,
                old(self).limits,
            ),
    {
        self.observe_dns(packet, policy, tick.now_ms);
        let key = FlowKey::from_udp(packet);
        self.take_packet(key, false, packet.payload, None, Some(packet), policy, telemetry, tick);
    }
}

} // verus!
