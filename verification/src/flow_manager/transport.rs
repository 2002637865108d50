//! The data path between the host and the embedded stack.

use crate::dns::{dns_mappings, mappings_view, parse_response, DnsMapping, DnsMappingView};
use crate::ffi::{bump, bumped, FlowCounters};
use crate::flow_manager::batch::{
    address_texts, batch_extends, lemma_extends_chain, lemma_extends_self, lemma_prefix_of_concat,
    BatchView, CloseRequestView, DnsRecordView, SendRequestView,
};
use crate::flow_manager::packet_builder::{build_udp_response, udp_response_frame};
use crate::flow_manager::queue::{queue_accepts, timed_view, TimedPayload, TimedPayloadView};
use crate::flow_manager::sockets::{
    set_grows, socket_kinds, tcp_can_send, tcp_queued, tcp_send_answer, tcp_send_slice,
    tcp_state_answer, tcp_writable, TcpSendOutcome,
};
use crate::flow_manager::state::{add_time, time_after, FlowEntry, FlowKind, FlowView};
use crate::flow_manager::stream::{
    buffered_delivery, entering, flush_conserved, flush_step, lemma_flush_step_conserves, relieved,
    sent_directly, shaped_delivery, tcp_sent,
};
use crate::flow_manager::{
    closes_final, descends, handle_index, lemma_close_with_removal, lemma_descends_chain,
    lemma_descends_self, lemma_replaced_descends, lemma_update_keeps_table, EngineView, FlowManager,
    Tick,
};
use crate::policy::{observed_mapping, PolicyManager, PolicyView, ShapingConfig};
use crate::telemetry::{
    after_record, PacketDirection, TELEMETRY_FLAG_DNS, TELEMETRY_FLAG_DNS_RESPONSE,
    TELEMETRY_FLAG_POLICY_SHAPE, Telemetry, TelemetryEvent, TelemetryEventView, TelemetryView,
};
use smoltcp::iface::{SocketHandle, SocketSet};
use vstd::prelude::*;

verus! {

/// What came of offering a payload to the embedded socket of a TCP flow:
/// the socket cannot be written to, it took so many bytes, or it is in no
/// state to send.
#[derive(Clone, Copy, Debug, PartialEq, Eq, Structural)]
pub enum TcpAttempt {
    NotWritable,
    Sent(usize),
    InvalidState,
}

/// What comes of offering `data` to the TCP socket at `socket`, as the set
/// stands: a socket that cannot be written to is not offered the data;
/// otherwise the answer of the socket is taken over.
pub open spec fn tcp_attempt(set: SocketSet<'static>, socket: SocketHandle, data: Seq<u8>) -> TcpAttempt {
    if !tcp_writable(set, socket) {
        TcpAttempt::NotWritable
    } else {
        match tcp_send_answer(set, socket, data) {
            TcpSendOutcome::Sent(taken) => TcpAttempt::Sent(taken),
            TcpSendOutcome::InvalidState => TcpAttempt::InvalidState,
        }
    }
}

/// The bytes that the socket took at an attempt.
pub open spec fn taken_at(attempt: TcpAttempt) -> nat {
    match attempt {
        TcpAttempt::Sent(taken) => taken as nat,
        _ => 0,
    }
}

/// The next state of the xorshift32 generator.
pub open spec fn xorshift32(state: u32) -> u32 {
    let a = state ^ (state << 13);
    let b = a ^ (a >> 17);
    b ^ (b << 5)
}

/// The delay of a shaped payload in milliseconds: the latency, and with
/// jitter a share of the jitter that the generator state `next` picks.
pub open spec fn shaping_delay(config: ShapingConfig, next: u32) -> u64 {
    if config.jitter_ms > 0 {
        (config.latency_ms + next as nat % (config.jitter_ms as nat + 1)) as u64
    } else {
        config.latency_ms as u64
    }
}

/// The policy store after each of `mappings` was observed at `now`, in their order.
pub open spec fn observe_all(view: PolicyView, mappings: Seq<DnsMappingView>, now: u64) -> PolicyView
    decreases mappings.len(),
{
    if mappings.len() == 0 {
        view
    } else {
        observe_all(
            observed_mapping(
                view,
                mappings[0].host,
                mappings[0].addresses,
                mappings[0].ttl,
                now,
            ),
            mappings.drop_first(),
            now,
        )
    }
}

/// The lifetime in seconds that goes to the host with a mapping: 60 where none is given.
pub open spec fn record_ttl(ttl: Option<u32>) -> u32 {
    match ttl {
        Some(seconds) => seconds,
        None => 60,
    }
}

/// The DNS records for the host that `mappings` give: one for each mapping with an address.
pub open spec fn dns_records_for(mappings: Seq<DnsMappingView>) -> Seq<DnsRecordView>
    decreases mappings.len(),
{
    if mappings.len() == 0 {
        Seq::empty()
    } else {
        let rest = dns_records_for(mappings.drop_last());
        let last = mappings.last();
        if last.addresses.len() == 0 {
            rest
        } else {
            rest.push(
                DnsRecordView {
                    host: last.host,
                    addresses: address_texts(last.addresses),
                    ttl_seconds: record_ttl(last.ttl),
                },
            )
        }
    }
}

/// Observes every mapping in the policy store.
pub fn observe_mappings(policy: &mut PolicyManager, mappings: &Vec<DnsMapping>, now: u64)
    requires
        old(policy).wf(),
    ensures
        final(policy).wf(),
        final(policy)@ == observe_all(old(policy)@, mappings_view(mappings@), now),
{
    let ghost all = mappings_view(mappings@);
    let mut i: usize = 0;
    assert(all.skip(0) =~= all);
    while i < mappings.len()
        invariant
            i <= mappings@.len(),
            policy.wf(),
            all == mappings_view(mappings@),
            observe_all(policy@, all.skip(i as int), now) == observe_all(old(policy)@, all, now),
        decreases mappings@.len() - i,
    {
        proof {
            assert(all.skip(i as int)[0] == mappings@[i as int]@);
            assert(all.skip(i as int).drop_first() =~= all.skip(i + 1));
        }
        policy.observe_dns_mapping(
            mappings[i].host.as_str(),
            mappings[i].addresses.as_slice(),
            mappings[i].ttl,
            now,
        );
        i = i + 1;
    }
}

impl FlowManager {
    /// Steps the jitter generator and gives the delay for a shaped payload.
    pub fn compute_shaping_delay(&mut self, config: &ShapingConfig) -> (delay: u64)
        ensures
            delay == shaping_delay(*config, xorshift32(old(self).jitter_state)),
            config.latency_ms <= delay <= config.latency_ms + config.jitter_ms,
            final(self).jitter_state == if config.jitter_ms > 0 {
                xorshift32(old(self).jitter_state)
            } else {
                old(self).jitter_state
            },
            final(self).callbacks_installed == old(self).callbacks_installed,
            final(self).sockets == old(self).sockets,
            final(self).memory == old(self).memory,
            final(self).flows == old(self).flows,
            final(self).next_flow_id == old(self).next_flow_id,
            final(self).counters == old(self).counters,
            final(self).stats == old(self).stats,
            final(self).limits == old(self).limits,
            final(self).outbox == old(self).outbox,
    {
        let mut delay: u64 = config.latency_ms as u64;
        if config.jitter_ms > 0 {
            let jitter = self.fast_jitter(config.jitter_ms);
            delay = delay + (jitter as u64);
        }
        delay
    }

    /// Fast xorshift32 PRNG for jitter calculation: a number up to `max`.
    fn fast_jitter(&mut self, max: u32) -> (jitter: u32)
        ensures
            jitter as nat == xorshift32(old(self).jitter_state) as nat % (max as nat + 1),
            jitter <= max,
            final(self).jitter_state == xorshift32(old(self).jitter_state),
            final(self).callbacks_installed == old(self).callbacks_installed,
            final(self).sockets == old(self).sockets,
            final(self).memory == old(self).memory,
            final(self).flows == old(self).flows,
            final(self).next_flow_id == old(self).next_flow_id,
            final(self).counters == old(self).counters,
            final(self).stats == old(self).stats,
            final(self).limits == old(self).limits,
            final(self).outbox == old(self).outbox,
    {
        let mut x: u32 = self.jitter_state;
        x = x ^ (x << 13);
        x = x ^ (x >> 17);
        x = x ^ (x << 5);
        self.jitter_state = x;
        ((x as u64) % ((max as u64) + 1)) as u32
    }

    /// Offers `data` to the socket of a TCP flow.
    pub(crate) fn attempt_tcp_send(&mut self, socket: SocketHandle, data: &[u8]) -> (attempt: TcpAttempt)
        requires
            socket_kinds(old(self).sockets).dom().contains(socket),
            socket_kinds(old(self).sockets)[socket],
        ensures
            socket_kinds(final(self).sockets) == socket_kinds(old(self).sockets),
            set_grows(final(self).sockets) == set_grows(old(self).sockets),
            attempt == tcp_attempt(old(self).sockets, socket, data@),
            attempt matches TcpAttempt::Sent(taken) ==> taken <= data@.len(),
            socket_after_attempt(old(self).sockets, final(self).sockets, socket, data@, attempt),
            final(self).callbacks_installed == old(self).callbacks_installed,
            final(self).memory == old(self).memory,
            final(self).flows == old(self).flows,
            final(self).next_flow_id == old(self).next_flow_id,
            final(self).counters == old(self).counters,
            final(self).stats == old(self).stats,
            final(self).limits == old(self).limits,
            final(self).jitter_state == old(self).jitter_state,
            final(self).outbox == old(self).outbox,
    {
        proof {
            let waiting = tcp_queued(self.sockets, socket);
            assert(waiting + data@.take(0) =~= waiting);
            assert(waiting + Seq::<u8>::empty() =~= waiting);
        }
        if !tcp_can_send(&self.sockets, socket) {
            return TcpAttempt::NotWritable;
        }
        match tcp_send_slice(&mut self.sockets, socket, data) {
            TcpSendOutcome::Sent(taken) => TcpAttempt::Sent(taken),
            TcpSendOutcome::InvalidState => TcpAttempt::InvalidState,
        }
    }

    /// Record DNS response data flowing from the network so host-based policy and telemetry
    /// can see mappings even when queries traverse the tunnel: every mapping
    /// is observed in the policy store and, with callbacks, collected for
    /// the host. Gives the host of the first mapping.
    pub fn record_dns_response(&mut self, payload: &[u8], policy: &mut PolicyManager, now: u64) -> (first:
        Option<String>)
        requires
            old(policy).wf(),
        ensures
            final(policy).wf(),
            final(policy)@ == observe_all(old(policy)@, dns_mappings(payload@), now),
            match first {
                Some(host) => dns_mappings(payload@).len() > 0 && host@ == dns_mappings(
                    payload@,
                )[0].host,
                None => dns_mappings(payload@).len() == 0,
            },
            final(self).outbox@ == if old(self).callbacks_installed {
                BatchView {
                    dns_records: old(self).outbox@.dns_records + dns_records_for(
                        dns_mappings(payload@),
                    ),
                    ..old(self).outbox@
                }
            } else {
                old(self).outbox@
            },
            final(self).callbacks_installed == old(self).callbacks_installed,
            final(self).sockets == old(self).sockets,
            final(self).memory == old(self).memory,
            final(self).flows == old(self).flows,
            final(self).next_flow_id == old(self).next_flow_id,
            final(self).counters == old(self).counters,
            final(self).stats == old(self).stats,
            final(self).limits == old(self).limits,
            final(self).jitter_state == old(self).jitter_state,
    {
        let mappings = parse_response(payload);
        if mappings.len() == 0 {
            proof {
                assert(dns_records_for(dns_mappings(payload@)) =~= Seq::<DnsRecordView>::empty());
                assert(self.outbox@.dns_records + Seq::<DnsRecordView>::empty()
                    =~= self.outbox@.dns_records);
            }
            return None;
        }
        observe_mappings(policy, &mappings, now);
        if self.callbacks_installed {
            self.collect_dns_records(&mappings);
        }
        assert(mappings_view(mappings@)[0] == mappings@[0]@);
        Some(mappings[0].host.clone())
    }

    /// Collects a DNS record for the host for each mapping with an address.
    fn collect_dns_records(&mut self, mappings: &Vec<DnsMapping>)
        ensures
            final(self).outbox@ == (BatchView {
                dns_records: old(self).outbox@.dns_records + dns_records_for(
                    mappings_view(mappings@),
                ),
                ..old(self).outbox@
            }),
            final(self).callbacks_installed == old(self).callbacks_installed,
            final(self).sockets == old(self).sockets,
            final(self).memory == old(self).memory,
            final(self).flows == old(self).flows,
            final(self).next_flow_id == old(self).next_flow_id,
            final(self).counters == old(self).counters,
            final(self).stats == old(self).stats,
            final(self).limits == old(self).limits,
            final(self).jitter_state == old(self).jitter_state,
    {
        let ghost all = mappings_view(mappings@);
        let ghost records = self.outbox@.dns_records;
        let mut i: usize = 0;
        proof {
            assert(all.take(0) =~= Seq::<DnsMappingView>::empty());
            assert(records + dns_records_for(all.take(0)) =~= records);
        }
        while i < mappings.len()
            invariant
                i <= mappings@.len(),
                all == mappings_view(mappings@),
                self.outbox@ == (BatchView {
                    dns_records: records + dns_records_for(all.take(i as int)),
                    ..old(self).outbox@
                }),
                self.callbacks_installed == old(self).callbacks_installed,
                self.sockets == old(self).sockets,
                self.memory == old(self).memory,
                self.flows == old(self).flows,
                self.next_flow_id == old(self).next_flow_id,
                self.counters == old(self).counters,
                self.stats == old(self).stats,
                self.limits == old(self).limits,
                self.jitter_state == old(self).jitter_state,
            decreases mappings@.len() - i,
        {
            proof {
                assert(all.take(i + 1).drop_last() =~= all.take(i as int));
                assert(all.take(i + 1).last() == mappings@[i as int]@);
            }
            let ttl: u32 = match mappings[i].ttl {
                Some(seconds) => seconds,
                None => 60,
            };
            self.outbox.add_dns_record(
                mappings[i].host.as_str(),
                mappings[i].addresses.as_slice(),
                ttl,
            );
            proof {
                assert(self.outbox@.dns_records =~= records + dns_records_for(all.take(i + 1)));
            }
            i = i + 1;
        }
        proof {
            assert(all.take(i as int) =~= all);
        }
    }
}

/// The telemetry event for a payload of `len` bytes that the host delivered
/// for `flow` at wall-clock time `unix_ms`; `dns_host` is the host of the
/// first mapping where the payload is a DNS response.
pub open spec fn delivery_event(
    flow: FlowView,
    kind: FlowKind,
    len: nat,
    dns_host: Option<Seq<char>>,
    unix_ms: u64,
) -> TelemetryEventView {
    TelemetryEventView {
        timestamp_ms: unix_ms,
        protocol: if kind is Tcp {
            6
        } else {
            17
        },
        direction: PacketDirection::NetworkToClient,
        payload_len: (len % 0x1_0000_0000) as u32,
        src: flow.key.dst_ip,
        dst: flow.key.src_ip,
        dns_qname: dns_host,
        dns_response: dns_host is Some,
        flags: ((if dns_host is Some {
            TELEMETRY_FLAG_DNS + TELEMETRY_FLAG_DNS_RESPONSE
        } else {
            0
        }) + (if flow.shaping is Some {
            TELEMETRY_FLAG_POLICY_SHAPE as int
        } else {
            0
        })) as u8,
    }
}

/// Whether `flow` carries DNS: a UDP flow from or to port 53.
pub open spec fn carries_dns(flow: FlowView, kind: FlowKind) -> bool {
    kind is Udp && (flow.key.src_port == 53 || flow.key.dst_port == 53)
}

/// Whether `after` is `before` with the flow at `index` replaced by one
/// with the view `flow`, the identity and the limits of the flow kept.
pub open spec fn flow_replaced(
    before: Seq<FlowEntry>,
    after: Seq<FlowEntry>,
    index: int,
    flow: FlowView,
) -> bool {
    &&& after.len() == before.len()
    &&& forall|k: int| 0 <= k < before.len() && k != index ==> #[trigger] after[k] == before[k]
    &&& after[index]@ == flow
    &&& after[index].same_limits(&before[index])
}

/// The close request for `flow` with `reason`.
pub open spec fn close_request(flow: FlowView, kind: FlowKind, reason: Seq<char>) -> CloseRequestView {
    CloseRequestView { handle: flow.handle, reason, kind }
}

/// What the direct path of a TCP flow comes to for `payload`, given what
/// came of offering it to the socket. The socket is not offered a payload
/// while older payloads wait in the buffer. Where the socket is in no state
/// to send, the flow is closed with `tcp_invalid_state`, if the host can be
/// told; otherwise the socket's share is noted and the rest waits in the
/// buffer under backpressure, which is counted.
pub open spec fn direct_tcp_outcome(
    old: EngineView,
    new: EngineView,
    index: int,
    payload: Seq<u8>,
    from_shaper: bool,
    now: u64,
    accepted: bool,
    attempt: TcpAttempt,
) -> bool {
    let before = old.flows[index];
    let entered = entering(before@, payload, from_shaper);
    let max_payloads = before.buffered.spec_max_payloads();
    let max_bytes = before.buffered.spec_max_bytes();
    let taken = taken_at(attempt);
    &&& taken <= payload.len()
    &&& before@.buffered.len() > 0 ==> attempt is NotWritable
    &&& new.stats == old.stats
    &&& new.jitter_state == old.jitter_state
    &&& if attempt is InvalidState {
        &&& !accepted
        &&& new.counters == old.counters
        &&& if old.callbacks_installed {
            &&& new.flows == old.flows.remove(index)
            &&& new.outbox == (BatchView {
                closes: old.outbox.closes.push(
                    close_request(before@, FlowKind::Tcp, "tcp_invalid_state"@),
                ),
                ..old.outbox
            })
        } else {
            &&& flow_replaced(old.flows, new.flows, index, FlowView { lossless: false, ..entered })
            &&& new.outbox == old.outbox
        }
    } else {
        &&& accepted == (taken == payload.len() || queue_accepts(max_bytes, payload.skip(taken as int)))
        &&& flow_replaced(
            old.flows,
            new.flows,
            index,
            tcp_sent(entered, payload, taken, max_payloads, max_bytes, now),
        )
        &&& new.outbox == old.outbox
        &&& new.counters == if taken == payload.len() {
            old.counters
        } else {
            FlowCounters {
                tcp_backpressure_drops: bumped(old.counters.tcp_backpressure_drops),
                ..old.counters
            }
        }
    }
}

/// What the direct path of a UDP flow comes to for `payload`: with
/// callbacks and addresses of one family the datagram for the client is
/// collected as a frame; otherwise the flow is closed, if the host can be told.
pub open spec fn direct_udp_outcome(
    old: EngineView,
    new: EngineView,
    index: int,
    payload: Seq<u8>,
    from_shaper: bool,
    now: u64,
    accepted: bool,
) -> bool {
    let before = old.flows[index];
    let entered = entering(before@, payload, from_shaper);
    let frame = udp_response_frame(
        before.key.src_ip,
        before.key.src_port,
        before.key.dst_ip,
        before.key.dst_port,
        payload,
    );
    &&& new.stats == old.stats
    &&& new.jitter_state == old.jitter_state
    &&& new.counters == old.counters
    &&& accepted == (frame is Some && payload.len() + 28 <= usize::MAX && old.callbacks_installed)
    &&& if accepted {
        &&& flow_replaced(old.flows, new.flows, index, sent_directly(entered, now))
        &&& new.outbox == (BatchView {
            frames: old.outbox.frames.push(frame->0),
            ..old.outbox
        })
    } else if old.callbacks_installed {
        &&& new.flows == old.flows.remove(index)
        &&& new.outbox == (BatchView {
            closes: old.outbox.closes.push(
                close_request(before@, FlowKind::Udp, "udp_build_failed"@),
            ),
            ..old.outbox
        })
    } else {
        &&& flow_replaced(old.flows, new.flows, index, FlowView { lossless: false, ..entered })
        &&& new.outbox == old.outbox
    }
}

/// What comes of a payload for a flow whose dial is out: it waits in the
/// buffer, if the buffer takes it.
pub open spec fn pending_outcome(
    old: EngineView,
    new: EngineView,
    index: int,
    payload: Seq<u8>,
    now: u64,
    accepted: bool,
) -> bool {
    let before = old.flows[index];
    &&& accepted == queue_accepts(before.buffered.spec_max_bytes(), payload)
    &&& flow_replaced(
        old.flows,
        new.flows,
        index,
        buffered_delivery(
            before@,
            payload,
            before.buffered.spec_max_payloads(),
            before.buffered.spec_max_bytes(),
            now,
        ),
    )
    &&& new.outbox == old.outbox
    &&& new.counters == old.counters
    &&& new.stats == old.stats
    &&& new.jitter_state == old.jitter_state
}

/// What comes of a payload from the host for a ready shaped flow: it waits
/// in the delay line, if the line takes it, for the latency of the flow
/// and a share of its jitter, for which the generator is stepped.
pub open spec fn shaped_outcome(
    old: EngineView,
    new: EngineView,
    index: int,
    payload: Seq<u8>,
    now: u64,
    accepted: bool,
) -> bool {
    let before = old.flows[index];
    let shaper = before.shaping->0;
    let config = before@.shaping->0.config;
    &&& accepted == queue_accepts(shaper.spec_max_bytes(), payload)
    &&& flow_replaced(
        old.flows,
        new.flows,
        index,
        shaped_delivery(
            before@,
            payload,
            time_after(now, shaping_delay(config, xorshift32(old.jitter_state))),
            shaper.spec_max_payloads(),
            shaper.spec_max_bytes(),
            now,
        ),
    )
    &&& new.outbox == old.outbox
    &&& new.counters == old.counters
    &&& new.stats == old.stats
    &&& new.jitter_state == if config.jitter_ms > 0 {
        xorshift32(old.jitter_state)
    } else {
        old.jitter_state
    }
}

/// The attempt that the direct path makes for the TCP flow at `index`, as
/// the engine stands: while older payloads wait in the buffer the socket is
/// not offered `payload`; otherwise it is what the socket answers.
pub open spec fn direct_attempt(engine: FlowManager, index: int, payload: Seq<u8>) -> TcpAttempt {
    if engine.flows@[index]@.buffered.len() > 0 {
        TcpAttempt::NotWritable
    } else {
        tcp_attempt(engine.sockets, engine.flows@[index].socket, payload)
    }
}

/// What offering `data` to the TCP socket at `socket` leaves of the set:
/// the sockets it held, each in its state; behind what waited to be sent,
/// the bytes that the socket took; and without an offer, the set as it was.
pub open spec fn socket_after_attempt(
    before: SocketSet<'static>,
    after: SocketSet<'static>,
    socket: SocketHandle,
    data: Seq<u8>,
    attempt: TcpAttempt,
) -> bool {
    &&& socket_kinds(after) == socket_kinds(before)
    &&& tcp_queued(after, socket) == tcp_queued(before, socket) + data.take(
        taken_at(attempt) as int,
    )
    &&& tcp_state_answer(after, socket) == tcp_state_answer(before, socket)
    &&& attempt is NotWritable ==> after == before
}

/// What a payload on its way does to the sockets. Only the direct path of
/// a TCP flow offers anything to a socket; every other path leaves the set
/// as it was, but that a flow that is closed on the way gives up its socket.
pub open spec fn route_sockets(
    before: FlowManager,
    after: FlowManager,
    index: int,
    payload: Seq<u8>,
    bypass_shaping: bool,
    accepted: bool,
) -> bool {
    let flow = before.flows@[index];
    let gone = socket_kinds(before.sockets).remove(flow.socket);
    if !goes_direct(flow, bypass_shaping) {
        after.sockets == before.sockets
    } else if flow.kind is Udp {
        if accepted || !before.callbacks_installed {
            after.sockets == before.sockets
        } else {
            socket_kinds(after.sockets) == gone
        }
    } else {
        let attempt = direct_attempt(before, index, payload);
        if attempt is InvalidState && before.callbacks_installed {
            socket_kinds(after.sockets) == gone
        } else {
            socket_after_attempt(before.sockets, after.sockets, flow.socket, payload, attempt)
        }
    }
}

/// What a payload from the host does to the sockets: nothing, where it is
/// empty or meant for no flow of its kind, and else what its way does.
pub open spec fn forward_sockets(
    before: FlowManager,
    after: FlowManager,
    handle: u64,
    payload: Seq<u8>,
    kind: FlowKind,
    bypass_shaping: bool,
    accepted: bool,
) -> bool {
    let index = handle_index(before.flows@, handle, 0);
    if payload.len() == 0 || index < 0 || before.flows@[index].kind != kind {
        after.sockets == before.sockets
    } else {
        route_sockets(before, after, index, payload, bypass_shaping, accepted)
    }
}

/// Whether a flow takes the direct path for a payload: it is ready, and it
/// is not shaped or the payload comes from its delay line.
pub open spec fn goes_direct(flow: FlowEntry, bypass_shaping: bool) -> bool {
    flow.ready && (flow@.shaping is None || bypass_shaping)
}

/// Whether a payload that the host delivered for the TCP flow with `handle`
/// came, on the direct path, to what the socket of the flow answered.
pub open spec fn direct_path_taken(
    before: FlowManager,
    after: FlowManager,
    handle: u64,
    payload: Seq<u8>,
    bypass_shaping: bool,
    now: u64,
    accepted: bool,
) -> bool {
    let index = handle_index(before.flows@, handle, 0);
    (payload.len() > 0 && index >= 0 && before.flows@[index].kind is Tcp && goes_direct(
        before.flows@[index],
        bypass_shaping,
    )) ==> direct_tcp_outcome(
        before@,
        after@,
        index,
        payload,
        bypass_shaping,
        now,
        accepted,
        direct_attempt(before, index, payload),
    )
}

/// Where a payload for the flow at `index` goes: into the buffer while the
/// dial is out, into the delay line of a shaped flow unless it comes from
/// there, and else towards the client.
pub open spec fn routed(
    old: EngineView,
    new: EngineView,
    index: int,
    payload: Seq<u8>,
    bypass_shaping: bool,
    now: u64,
    accepted: bool,
) -> bool {
    let before = old.flows[index];
    if !before.ready {
        pending_outcome(old, new, index, payload, now, accepted)
    } else if before.shaping is Some && !bypass_shaping {
        shaped_outcome(old, new, index, payload, now, accepted)
    } else if before.kind is Tcp {
        exists|attempt: TcpAttempt| #[trigger]
            direct_tcp_outcome(old, new, index, payload, bypass_shaping, now, accepted, attempt)
    } else {
        direct_udp_outcome(old, new, index, payload, bypass_shaping, now, accepted)
    }
}

/// The engine with the DNS records collected that `payload` gives, where
/// the flow carries DNS and the host has installed its callbacks.
pub open spec fn with_dns_records(old: EngineView, dns: bool, payload: Seq<u8>) -> EngineView {
    EngineView {
        outbox: if dns && old.callbacks_installed {
            BatchView {
                dns_records: old.outbox.dns_records + dns_records_for(dns_mappings(payload)),
                ..old.outbox
            }
        } else {
            old.outbox
        },
        ..old
    }
}

/// What comes of a payload that the host delivers for the flow with
/// `handle`. An empty payload is accepted and changes nothing; a payload
/// for no flow, or for a flow of the other kind, is refused and changes
/// nothing. For any other payload a DNS response is recorded, a telemetry
/// event is recorded, and the payload is routed.
pub open spec fn forward_outcome(
    old: EngineView,
    new: EngineView,
    old_policy: PolicyView,
    new_policy: PolicyView,
    old_ring: TelemetryView,
    new_ring: TelemetryView,
    handle: u64,
    payload: Seq<u8>,
    kind: FlowKind,
    bypass_shaping: bool,
    tick: Tick,
    accepted: bool,
) -> bool {
    let index = handle_index(old.flows, handle, 0);
    if payload.len() == 0 {
        accepted && new == old && new_policy == old_policy && new_ring == old_ring
    } else if index < 0 || old.flows[index].kind != kind {
        !accepted && new == old && new_policy == old_policy && new_ring == old_ring
    } else {
        let flow = old.flows[index]@;
        let dns = carries_dns(flow, kind);
        let mappings = dns_mappings(payload);
        let dns_host = if dns && mappings.len() > 0 {
            Some(mappings[0].host)
        } else {
            None
        };
        &&& new_policy == if dns {
            observe_all(old_policy, mappings, tick.now_ms)
        } else {
            old_policy
        }
        &&& new_ring == after_record(
            old_ring,
            delivery_event(flow, kind, payload.len(), dns_host, tick.unix_ms),
        )
        &&& routed(
            with_dns_records(old, dns, payload),
            new,
            index,
            payload,
            bypass_shaping,
            tick.now_ms,
            accepted,
        )
    }
}

/// The send requests that hand the payloads of `queue` to the host for a UDP flow.
pub open spec fn udp_sends_for(handle: u64, queue: Seq<TimedPayloadView>) -> Seq<SendRequestView> {
    Seq::new(
        queue.len(),
        |k: int| SendRequestView { handle, payload: queue[k].payload, kind: FlowKind::Udp },
    )
}

/// What flushing the buffer of the flow at `index` comes to. The payloads
/// of a UDP flow all go to the host as send requests, if it has installed
/// its callbacks, and are dropped if not. Those of a TCP flow go to its
/// socket, oldest first, as far as the socket takes them: no byte is lost,
/// and what is left waits for the next try; a socket in no state to send
/// closes the flow with `tcp_invalid_state`, if the host can be told.
pub open spec fn flush_outcome(old: EngineView, new: EngineView, index: int) -> bool {
    let before = old.flows[index];
    &&& new.counters == old.counters
    &&& new.stats == old.stats
    &&& new.jitter_state == old.jitter_state
    &&& new.callbacks_installed == old.callbacks_installed
    &&& if before.kind is Udp {
        &&& flow_replaced(
            old.flows,
            new.flows,
            index,
            FlowView { buffered: Seq::empty(), ..before@ },
        )
        &&& new.outbox == if old.callbacks_installed {
            BatchView {
                udp_sends: old.outbox.udp_sends + udp_sends_for(before.handle, before@.buffered),
                ..old.outbox
            }
        } else {
            old.outbox
        }
    } else {
        ||| {
            &&& new.flows.len() == old.flows.len()
            &&& flush_conserved(before@, new.flows[index]@)
            &&& flow_replaced(old.flows, new.flows, index, new.flows[index]@)
            &&& new.outbox == old.outbox
        }
        ||| {
            &&& old.callbacks_installed
            &&& new.flows == old.flows.remove(index)
            &&& new.outbox == (BatchView {
                closes: old.outbox.closes.push(
                    close_request(before@, FlowKind::Tcp, "tcp_invalid_state"@),
                ),
                ..old.outbox
            })
        }
    }
}

/// How flushing the buffer of the TCP flow at `index` begins. With an
/// empty buffer the backpressure of the flow is over. Otherwise the oldest
/// payload is offered to the socket: a socket in no state to send ends the
/// flow, if the host can be told, and else leaves everything as it is; a
/// socket that takes less than the payload ends the flush with that step;
/// a socket that takes all of it lets the flush go on from there. What the
/// socket takes waits in its transmit buffer behind what waited there.
pub open spec fn tcp_flush_begun(before: FlowManager, after: FlowManager, index: int, now: u64) -> bool {
    let flow = before.flows@[index]@;
    let socket = before.flows@[index].socket;
    let gone = socket_kinds(before.sockets).remove(socket);
    if flow.buffered.len() == 0 {
        &&& after.flows@.len() == before.flows@.len()
        &&& after.flows@[index]@ == relieved(flow)
        &&& after.sockets == before.sockets
    } else {
        let head = flow.buffered[0].payload;
        let attempt = tcp_attempt(before.sockets, socket, head);
        let stepped = flush_step(flow, taken_at(attempt), now);
        if attempt is InvalidState {
            if before.callbacks_installed {
                after.flows@ == before.flows@.remove(index) && socket_kinds(after.sockets) == gone
            } else {
                after@ == before@ && socket_after_attempt(
                    before.sockets,
                    after.sockets,
                    socket,
                    head,
                    attempt,
                )
            }
        } else if taken_at(attempt) < head.len() {
            &&& after.flows@.len() == before.flows@.len()
            &&& after.flows@[index]@ == stepped
            &&& socket_after_attempt(before.sockets, after.sockets, socket, head, attempt)
        } else {
            ||| {
                &&& before.callbacks_installed
                &&& after.flows@ == before.flows@.remove(index)
                &&& socket_kinds(after.sockets) == gone
            }
            ||| {
                &&& after.flows@.len() == before.flows@.len()
                &&& flush_conserved(stepped, after.flows@[index]@)
                &&& socket_kinds(after.sockets) == socket_kinds(before.sockets)
                &&& (tcp_queued(before.sockets, socket) + head).is_prefix_of(
                    tcp_queued(after.sockets, socket),
                )
            }
        }
    }
}

/// Flushing a buffer closes no flow that stays in the table.
pub proof fn lemma_flush_closes(old: EngineView, new: EngineView, index: int)
    requires
        0 <= index < old.flows.len(),
        crate::flow_manager::entries_distinct(old.flows),
        flush_outcome(old, new, index),
    ensures
        closes_final(old.outbox.closes, new.outbox.closes, new.flows),
{
    lemma_close_with_removal(old.flows, new.flows, old.outbox.closes, new.outbox.closes, index);
}

/// A payload on its way closes no flow that stays in the table.
pub proof fn lemma_routed_closes(
    old: EngineView,
    new: EngineView,
    index: int,
    payload: Seq<u8>,
    bypass_shaping: bool,
    now: u64,
    accepted: bool,
)
    requires
        0 <= index < old.flows.len(),
        crate::flow_manager::entries_distinct(old.flows),
        routed(old, new, index, payload, bypass_shaping, now, accepted),
    ensures
        closes_final(old.outbox.closes, new.outbox.closes, new.flows),
{
    lemma_close_with_removal(old.flows, new.flows, old.outbox.closes, new.outbox.closes, index);
}

/// Flushing a buffer takes nothing back that was collected for the host.
pub proof fn lemma_flush_extends(old: EngineView, new: EngineView, index: int)
    requires
        0 <= index < old.flows.len(),
        flush_outcome(old, new, index),
    ensures
        batch_extends(old.outbox, new.outbox),
{
    lemma_extends_self(old.outbox);
    lemma_prefix_of_concat(
        old.outbox.udp_sends,
        udp_sends_for(old.flows[index].handle, old.flows[index]@.buffered),
    );
    lemma_prefix_of_concat(old.outbox.closes, Seq::empty());
}

/// Routing a payload takes nothing back that was collected for the host.
pub proof fn lemma_routed_extends(
    old: EngineView,
    new: EngineView,
    index: int,
    payload: Seq<u8>,
    bypass_shaping: bool,
    now: u64,
    accepted: bool,
)
    requires
        0 <= index < old.flows.len(),
        routed(old, new, index, payload, bypass_shaping, now, accepted),
    ensures
        batch_extends(old.outbox, new.outbox),
{
    lemma_extends_self(old.outbox);
    lemma_prefix_of_concat(old.outbox.closes, Seq::empty());
    lemma_prefix_of_concat(old.outbox.frames, Seq::empty());
}

/// Taking a payload on takes nothing back that was collected for the host.
pub proof fn lemma_forward_extends(
    old: EngineView,
    new: EngineView,
    old_policy: PolicyView,
    new_policy: PolicyView,
    old_ring: TelemetryView,
    new_ring: TelemetryView,
    handle: u64,
    payload: Seq<u8>,
    kind: FlowKind,
    bypass_shaping: bool,
    tick: Tick,
    accepted: bool,
)
    requires
        forward_outcome(
            old,
            new,
            old_policy,
            new_policy,
            old_ring,
            new_ring,
            handle,
            payload,
            kind,
            bypass_shaping,
            tick,
            accepted,
        ),
    ensures
        batch_extends(old.outbox, new.outbox),
{
    lemma_extends_self(old.outbox);
    let index = handle_index(old.flows, handle, 0);
    if payload.len() > 0 && index >= 0 && old.flows[index].kind == kind {
        lemma_handle_index_bound(old.flows, handle, 0);
        let dns = carries_dns(old.flows[index]@, kind);
        let mid = with_dns_records(old, dns, payload);
        lemma_prefix_of_concat(old.outbox.dns_records, dns_records_for(dns_mappings(payload)));
        assert(batch_extends(old.outbox, mid.outbox));
        lemma_routed_extends(mid, new, index, payload, bypass_shaping, tick.now_ms, accepted);
        lemma_extends_chain(old.outbox, mid.outbox, new.outbox);
    }
}

/// The search for a handle ends within the table.
pub proof fn lemma_handle_index_bound(flows: Seq<FlowEntry>, handle: u64, from: int)
    requires
        0 <= from,
    ensures
        handle_index(flows, handle, from) < flows.len(),
        handle_index(flows, handle, from) >= 0 ==> handle_index(flows, handle, from) >= from
            && flows[handle_index(flows, handle, from)].handle == handle,
    decreases flows.len() - from,
{
    if from < flows.len() && flows[from].handle != handle {
        lemma_handle_index_bound(flows, handle, from + 1);
    }
}

impl FlowManager {
    /// What is kept by every step of the data path: the settings of the engine.
    pub open spec fn same_settings(&self, other: &FlowManager) -> bool {
        &&& self.callbacks_installed == other.callbacks_installed
        &&& self.next_flow_id == other.next_flow_id
        &&& self.limits == other.limits
        &&& self.memory.budget == other.memory.budget
    }

    /// The direct path of a ready TCP flow.
    pub(crate) fn deliver_direct_tcp(&mut self, index: usize, payload: &[u8], from_shaper: bool, now: u64) -> (r:
        (bool, TcpAttempt))
        requires
            old(self).wf(),
            index < old(self).flows@.len(),
            old(self).flows@[index as int].ready,
            old(self).flows@[index as int].kind is Tcp,
            payload@.len() > 0,
            from_shaper ==> (old(self).flows@[index as int]@.shaping is Some && old(
                self,
            ).flows@[index as int]@.shaping->0.queue.len() > 0 && old(
                self,
            ).flows@[index as int]@.shaping->0.queue[0].payload == payload@),
            !from_shaper ==> old(self).flows@[index as int]@.shaping is None,
        ensures
            final(self).wf(),
            final(self).same_settings(old(self)),
            descends(old(self).flows@, final(self).flows@),
            direct_tcp_outcome(old(self)@, final(self)@, index as int, payload@, from_shaper, now, r.0, r.1),
            r.1 == if old(self).flows@[index as int]@.buffered.len() > 0 {
                TcpAttempt::NotWritable
            } else {
                tcp_attempt(old(self).sockets, old(self).flows@[index as int].socket, payload@)
            },
            route_sockets(*old(self), *final(self), index as int, payload@, from_shaper, r.0),
    {
        let ghost before = self.flows@;
        let ghost kinds = socket_kinds(self.sockets);
        proof {
            assert(before[index as int].wf());
        }
        let socket = self.flows[index].socket;
        let handle = self.flows[index].handle;
        let attempt = if self.flows[index].buffered.len() > 0 {
            TcpAttempt::NotWritable
        } else {
            self.attempt_tcp_send(socket, payload)
        };
        match attempt {
            TcpAttempt::InvalidState => {
                self.give_up_payload(index, payload, from_shaper, "tcp_invalid_state");
                (false, attempt)
            },
            _ => {
                let taken: usize = match attempt {
                    TcpAttempt::Sent(n) => n,
                    _ => 0,
                };
                let accepted = self.flows[index].settle_tcp(payload, taken, from_shaper, now);
                proof {
                    lemma_update_keeps_table(
                        before,
                        self.flows@,
                        index as int,
                        self.limits,
                        self.next_flow_id,
                        socket_kinds(self.sockets),
                    );
                    lemma_replaced_descends(before, self.flows@, index as int);
                }
                if taken < payload.len() {
                    self.counters.tcp_backpressure_drops = bump(self.counters.tcp_backpressure_drops);
                }
                (accepted, attempt)
            },
        }
    }

    /// The direct path of a ready UDP flow: the datagram is built with the
    /// five-tuple of the flow turned around and collected as a frame.
    pub(crate) fn deliver_direct_udp(&mut self, index: usize, payload: &[u8], from_shaper: bool, now: u64) -> (accepted:
        bool)
        requires
            old(self).wf(),
            index < old(self).flows@.len(),
            old(self).flows@[index as int].ready,
            old(self).flows@[index as int].kind is Udp,
            from_shaper ==> (old(self).flows@[index as int]@.shaping is Some && old(
                self,
            ).flows@[index as int]@.shaping->0.queue.len() > 0),
        ensures
            final(self).wf(),
            final(self).same_settings(old(self)),
            descends(old(self).flows@, final(self).flows@),
            direct_udp_outcome(old(self)@, final(self)@, index as int, payload@, from_shaper, now, accepted),
            if accepted || !old(self).callbacks_installed {
                final(self).sockets == old(self).sockets
            } else {
                socket_kinds(final(self).sockets) == socket_kinds(old(self).sockets).remove(
                    old(self).flows@[index as int].socket,
                )
            },
    {
        let ghost before = self.flows@;
        proof {
            assert(before[index as int].wf());
        }
        let key = self.flows[index].key;
        let handle = self.flows[index].handle;
        let frame = if payload.len() <= usize::MAX - 28 {
            build_udp_response(key.src_ip, key.src_port, key.dst_ip, key.dst_port, payload)
        } else {
            None
        };
        match frame {
            Some(bytes) => {
                if self.callbacks_installed {
                    self.outbox.add_frame(bytes);
                    self.flows[index].settle_udp(payload, from_shaper, now);
                    proof {
                        lemma_update_keeps_table(
                            before,
                            self.flows@,
                            index as int,
                            self.limits,
                            self.next_flow_id,
                            socket_kinds(self.sockets),
                        );
                        lemma_replaced_descends(before, self.flows@, index as int);
                    }
                    return true;
                }
            },
            None => {},
        }
        self.give_up_payload(index, payload, from_shaper, "udp_build_failed");
        false
    }
    /// The path of a payload for a flow whose dial is out.
    pub(crate) fn deliver_pending(&mut self, index: usize, payload: &[u8], now: u64) -> (accepted: bool)
        requires
            old(self).wf(),
            index < old(self).flows@.len(),
            !old(self).flows@[index as int].ready,
            payload@.len() > 0,
        ensures
            final(self).wf(),
            final(self).same_settings(old(self)),
            descends(old(self).flows@, final(self).flows@),
            pending_outcome(old(self)@, final(self)@, index as int, payload@, now, accepted),
            final(self).sockets == old(self).sockets,
    {
        let ghost before = self.flows@;
        proof {
            assert(before[index as int].wf());
        }
        let accepted = self.flows[index].buffer_delivery(payload, now);
        proof {
            lemma_update_keeps_table(
                before,
                self.flows@,
                index as int,
                self.limits,
                self.next_flow_id,
                socket_kinds(self.sockets),
            );
            lemma_replaced_descends(before, self.flows@, index as int);
        }
        accepted
    }

    /// The path of a payload from the host for a ready shaped flow.
    pub(crate) fn deliver_shaped(&mut self, index: usize, payload: &[u8], now: u64) -> (accepted: bool)
        requires
            old(self).wf(),
            index < old(self).flows@.len(),
            old(self).flows@[index as int].ready,
            old(self).flows@[index as int].shaping is Some,
            payload@.len() > 0,
        ensures
            final(self).wf(),
            final(self).same_settings(old(self)),
            descends(old(self).flows@, final(self).flows@),
            shaped_outcome(old(self)@, final(self)@, index as int, payload@, now, accepted),
            final(self).sockets == old(self).sockets,
    {
        let ghost before = self.flows@;
        proof {
            assert(before[index as int].wf());
        }
        let config = match &self.flows[index].shaping {
            Some(shaper) => shaper.config(),
            None => ShapingConfig { latency_ms: 0, jitter_ms: 0 },
        };
        let delay = self.compute_shaping_delay(&config);
        let ready_at = add_time(now, delay);
        let accepted = self.flows[index].shape_delivery(payload, ready_at, now);
        proof {
            lemma_update_keeps_table(
                before,
                self.flows@,
                index as int,
                self.limits,
                self.next_flow_id,
                socket_kinds(self.sockets),
            );
            lemma_replaced_descends(before, self.flows@, index as int);
        }
        accepted
    }

    /// Routes a payload for the flow at `index`.
    pub(crate) fn route_payload(&mut self, index: usize, payload: &[u8], bypass_shaping: bool, now: u64) -> (accepted:
        bool)
        requires
            old(self).wf(),
            index < old(self).flows@.len(),
            payload@.len() > 0,
            bypass_shaping ==> (old(self).flows@[index as int].ready && old(
                self,
            ).flows@[index as int]@.shaping is Some && old(
                self,
            ).flows@[index as int]@.shaping->0.queue.len() > 0 && old(
                self,
            ).flows@[index as int]@.shaping->0.queue[0].payload == payload@),
        ensures
            final(self).wf(),
            final(self).same_settings(old(self)),
            descends(old(self).flows@, final(self).flows@),
            routed(old(self)@, final(self)@, index as int, payload@, bypass_shaping, now, accepted),
            (old(self).flows@[index as int].kind is Tcp && goes_direct(
                old(self).flows@[index as int],
                bypass_shaping,
            )) ==> direct_tcp_outcome(
                old(self)@,
                final(self)@,
                index as int,
                payload@,
                bypass_shaping,
                now,
                accepted,
                direct_attempt(*old(self), index as int, payload@),
            ),
            route_sockets(*old(self), *final(self), index as int, payload@, bypass_shaping, accepted),
    {
        proof {
            assert(self.flows@[index as int].wf());
        }
        if !self.flows[index].ready {
            return self.deliver_pending(index, payload, now);
        }
        if self.flows[index].shaping.is_some() && !bypass_shaping {
            return self.deliver_shaped(index, payload, now);
        }
        match self.flows[index].kind {
            FlowKind::Tcp => {
                let (accepted, attempt) = self.deliver_direct_tcp(index, payload, bypass_shaping, now);
                accepted
            },
            FlowKind::Udp => self.deliver_direct_udp(index, payload, bypass_shaping, now),
        }
    }

    /// Takes a payload that the host delivers for the flow with `handle`.
    pub fn forward_remote_payload(
        &mut self,
        handle: u64,
        payload: &[u8],
        kind: FlowKind,
        policy: &mut PolicyManager,
        telemetry: &mut Telemetry,
        tick: Tick,
    ) -> (accepted: bool)
        requires
            old(self).wf(),
            old(policy).wf(),
            old(telemetry).wf(),
        ensures
            final(self).wf(),
            final(policy).wf(),
            final(telemetry).wf(),
            final(self).same_settings(old(self)),
            descends(old(self).flows@, final(self).flows@),
            forward_outcome(
                old(self)@,
                final(self)@,
                old(policy)@,
                final(policy)@,
                old(telemetry)@,
                final(telemetry)@,
                handle,
                payload@,
                kind,
                false,
                tick,
                accepted,
            ),
            kind is Tcp ==> direct_path_taken(
                *old(self),
                *final(self),
                handle,
                payload@,
                false,
                tick.now_ms,
                accepted,
            ),
            forward_sockets(*old(self), *final(self), handle, payload@, kind, false, accepted),
    {
        self.forward_remote_payload_inner(handle, payload, kind, false, policy, telemetry, tick)
    }

    /// Takes a payload for the flow with `handle`: from the host, or, with
    /// `bypass_shaping`, the oldest payload of the delay line of the flow,
    /// which leaves the line for the client.
    pub(crate) fn forward_remote_payload_inner(
        &mut self,
        handle: u64,
        payload: &[u8],
        kind: FlowKind,
        bypass_shaping: bool,
        policy: &mut PolicyManager,
        telemetry: &mut Telemetry,
        tick: Tick,
    ) -> (accepted: bool)
        requires
            old(self).wf(),
            old(policy).wf(),
            old(telemetry).wf(),
            bypass_shaping ==> ({
                let index = handle_index(old(self).flows@, handle, 0);
                &&& 0 <= index < old(self).flows@.len()
                &&& old(self).flows@[index].kind == kind
                &&& old(self).flows@[index].ready
                &&& old(self).flows@[index]@.shaping is Some
                &&& old(self).flows@[index]@.shaping->0.queue.len() > 0
                &&& old(self).flows@[index]@.shaping->0.queue[0].payload == payload@
            }),
        ensures
            final(self).wf(),
            final(policy).wf(),
            final(telemetry).wf(),
            final(self).same_settings(old(self)),
            descends(old(self).flows@, final(self).flows@),
            forward_outcome(
                old(self)@,
                final(self)@,
                old(policy)@,
                final(policy)@,
                old(telemetry)@,
                final(telemetry)@,
                handle,
                payload@,
                kind,
                bypass_shaping,
                tick,
                accepted,
            ),
            kind is Tcp ==> direct_path_taken(
                *old(self),
                *final(self),
                handle,
                payload@,
                bypass_shaping,
                tick.now_ms,
                accepted,
            ),
            forward_sockets(
                *old(self),
                *final(self),
                handle,
                payload@,
                kind,
                bypass_shaping,
                accepted,
            ),
    {
        proof {
            lemma_descends_self(self.flows@);
        }
        if payload.len() == 0 {
            return true;
        }
        let index = match self.find_handle(handle) {
            Some(i) => i,
            None => {
                return false;
            },
        };
        if self.flows[index].kind != kind {
            return false;
        }
        let ghost flow = self.flows@[index as int]@;
        let key = self.flows[index].key;
        let dns_qname: Option<String> = if kind == FlowKind::Udp && (key.src_port == 53 || key.dst_port
            == 53) {
            self.record_dns_response(payload, policy, tick.now_ms)
        } else {
            None
        };
        let shaped = self.flows[index].shaping.is_some();
        let mut event = TelemetryEvent::new(
            kind.protocol(),
            PacketDirection::NetworkToClient,
            ((payload.len() as u64) % 0x1_0000_0000) as u32,
            key.dst_ip,
            key.src_ip,
            tick.unix_ms,
        );
        let mut flags: u8 = 0;
        match dns_qname {
            Some(host) => {
                event.dns_qname = Some(host);
                event.dns_response = true;
                flags = TELEMETRY_FLAG_DNS + TELEMETRY_FLAG_DNS_RESPONSE;
            },
            None => {},
        }
        if shaped {
            flags = flags + TELEMETRY_FLAG_POLICY_SHAPE;
        }
        event.flags = flags;
        telemetry.record(event);
        proof {
            assert(self@ == with_dns_records(old(self)@, carries_dns(flow, kind), payload@));
        }
        self.route_payload(index, payload, bypass_shaping, tick.now_ms)
    }
    /// Gives up a payload on the direct path of the flow at `index`, and
    /// closes the flow with `reason`, if the host can be told.
    fn give_up_payload(&mut self, index: usize, payload: &[u8], from_shaper: bool, reason: &str)
        requires
            old(self).wf(),
            index < old(self).flows@.len(),
            old(self).flows@[index as int].ready,
            from_shaper ==> (old(self).flows@[index as int]@.shaping is Some && old(
                self,
            ).flows@[index as int]@.shaping->0.queue.len() > 0),
        ensures
            final(self).wf(),
            final(self).same_settings(old(self)),
            descends(old(self).flows@, final(self).flows@),
            final(self).counters == old(self).counters,
            final(self).stats == old(self).stats,
            final(self).jitter_state == old(self).jitter_state,
            if old(self).callbacks_installed {
                &&& final(self).flows@ == old(self).flows@.remove(index as int)
                &&& final(self).outbox@ == (BatchView {
                    closes: old(self).outbox@.closes.push(
                        close_request(
                            old(self).flows@[index as int]@,
                            old(self).flows@[index as int].kind,
                            reason@,
                        ),
                    ),
                    ..old(self).outbox@
                })
            } else {
                &&& flow_replaced(
                    old(self).flows@,
                    final(self).flows@,
                    index as int,
                    FlowView {
                        lossless: false,
                        ..entering(old(self).flows@[index as int]@, payload@, from_shaper)
                    },
                )
                &&& final(self).outbox@ == old(self).outbox@
            },
            if old(self).callbacks_installed {
                socket_kinds(final(self).sockets) == socket_kinds(old(self).sockets).remove(
                    old(self).flows@[index as int].socket,
                )
            } else {
                final(self).sockets == old(self).sockets
            },
    {
        let ghost before = self.flows@;
        proof {
            assert(before[index as int].wf());
        }
        let handle = self.flows[index].handle;
        let kind = self.flows[index].kind;
        self.flows[index].forfeit(payload, from_shaper);
        proof {
            lemma_update_keeps_table(
                before,
                self.flows@,
                index as int,
                self.limits,
                self.next_flow_id,
                socket_kinds(self.sockets),
            );
            lemma_replaced_descends(before, self.flows@, index as int);
        }
        if self.callbacks_installed {
            let ghost updated = self.flows@;
            proof {
                lemma_handle_index_at(updated, index as int);
            }
            self.notify_close(handle, kind, reason);
            proof {
                assert(updated.remove(index as int) =~= before.remove(index as int));
                lemma_descends_chain(before, updated, self.flows@);
            }
        }
    }

    /// Flushes the buffer of the flow at `index`: of a UDP flow towards the
    /// host, of a TCP flow towards its socket. Says whether the flow is
    /// still in the table.
    pub(crate) fn flush_buffered_payloads(&mut self, index: usize, now: u64) -> (present: bool)
        requires
            old(self).wf(),
            index < old(self).flows@.len(),
        ensures
            final(self).wf(),
            final(self).same_settings(old(self)),
            descends(old(self).flows@, final(self).flows@),
            flush_outcome(old(self)@, final(self)@, index as int),
            present == (final(self).flows@.len() == old(self).flows@.len()),
            old(self).flows@[index as int].kind is Tcp ==> tcp_flush_begun(
                *old(self),
                *final(self),
                index as int,
                now,
            ),
            old(self).flows@[index as int].kind is Udp ==> final(self).sockets == old(self).sockets,
    {
        proof {
            assert(self.flows@[index as int].wf());
        }
        match self.flows[index].kind {
            FlowKind::Udp => {
                self.flush_udp_buffer(index);
                true
            },
            FlowKind::Tcp => self.flush_tcp_buffer(index, now),
        }
    }

    fn flush_udp_buffer(&mut self, index: usize)
        requires
            old(self).wf(),
            index < old(self).flows@.len(),
            old(self).flows@[index as int].kind is Udp,
        ensures
            final(self).wf(),
            final(self).same_settings(old(self)),
            descends(old(self).flows@, final(self).flows@),
            flush_outcome(old(self)@, final(self)@, index as int),
            final(self).flows@.len() == old(self).flows@.len(),
            final(self).sockets == old(self).sockets,
    {
        let ghost before = self.flows@;
        proof {
            assert(before[index as int].wf());
        }
        let handle = self.flows[index].handle;
        let mut payloads = self.flows[index].take_buffered();
        proof {
            lemma_update_keeps_table(
                before,
                self.flows@,
                index as int,
                self.limits,
                self.next_flow_id,
                socket_kinds(self.sockets),
            );
            lemma_replaced_descends(before, self.flows@, index as int);
        }
        if !self.callbacks_installed {
            return ;
        }
        let ghost queue = before[index as int]@.buffered;
        let ghost sends = self.outbox@.udp_sends;
        let ghost all = payloads@;
        let mut taken: Vec<TimedPayload> = Vec::new();
        // The payloads leave `payloads` from the back; `taken` holds them in reverse.
        while payloads.len() > 0
            invariant
                payloads@.len() + taken@.len() == all.len(),
                payloads@ =~= all.take(payloads@.len() as int),
                forall|k: int| 0 <= k < taken@.len() ==> #[trigger] taken@[k] == all[all.len() - 1 - k],
            decreases payloads@.len(),
        {
            let item = payloads.pop().unwrap();
            taken.push(item);
        }
        let ghost flows_now = self.flows@;
        while taken.len() > 0
            invariant
                taken@.len() <= all.len(),
                timed_view(all) == queue,
                forall|k: int| 0 <= k < taken@.len() ==> #[trigger] taken@[k] == all[all.len() - 1 - k],
                self.flows@ == flows_now,
                self.sockets == old(self).sockets,
                self.memory == old(self).memory,
                self.callbacks_installed == old(self).callbacks_installed,
                self.next_flow_id == old(self).next_flow_id,
                self.counters == old(self).counters,
                self.stats == old(self).stats,
                self.limits == old(self).limits,
                self.jitter_state == old(self).jitter_state,
                self.outbox@ == (BatchView {
                    udp_sends: sends + udp_sends_for(handle, queue.take(all.len() - taken@.len())),
                    ..old(self).outbox@
                }),
            decreases taken@.len(),
        {
            let ghost done = all.len() - taken@.len();
            let item = taken.pop().unwrap();
            proof {
                assert(item == all[done]);
                assert(queue[done] == item@);
            }
            self.outbox.add_udp_send(handle, item.payload);
            proof {
                assert(self.outbox@.udp_sends =~= sends + udp_sends_for(handle, queue.take(done + 1)));
            }
        }
        proof {
            assert(queue.take(all.len() as int) =~= queue);
            assert(sends + udp_sends_for(handle, queue.take(0)) =~= sends);
        }
    }

    fn flush_tcp_buffer(&mut self, index: usize, now: u64) -> (present: bool)
        requires
            old(self).wf(),
            index < old(self).flows@.len(),
            old(self).flows@[index as int].kind is Tcp,
        ensures
            final(self).wf(),
            final(self).same_settings(old(self)),
            descends(old(self).flows@, final(self).flows@),
            flush_outcome(old(self)@, final(self)@, index as int),
            present == (final(self).flows@.len() == old(self).flows@.len()),
            tcp_flush_begun(*old(self), *final(self), index as int, now),
    {
        let ghost start = self.flows@;
        let ghost first = start[index as int]@;
        let socket = self.flows[index].socket;
        let handle = self.flows[index].handle;
        let ghost attempt0 = tcp_attempt(self.sockets, socket, first.buffered[0].payload);
        let ghost stepped = flush_step(first, taken_at(attempt0), now);
        let ghost begun = false;
        let mut more = true;
        proof {
            assert(start[index as int].wf());
            lemma_descends_self(start);
        }
        while more && self.flows[index].buffered.len() > 0
            invariant
                self.wf(),
                descends(start, self.flows@),
                self.same_settings(old(self)),
                start == old(self).flows@,
                first == start[index as int]@,
                index < self.flows@.len(),
                self.flows@.len() == start.len(),
                forall|k: int| 0 <= k < start.len() && k != index ==> #[trigger] self.flows@[k] == start[k],
                self.flows@[index as int].same_limits(&start[index as int]),
                self.flows@[index as int].socket == socket,
                self.flows@[index as int].handle == handle,
                self.flows@[index as int].kind is Tcp,
                flush_conserved(first, self.flows@[index as int]@),
                self.outbox == old(self).outbox,
                self.counters == old(self).counters,
                self.stats == old(self).stats,
                self.jitter_state == old(self).jitter_state,
                socket == old(self).flows@[index as int].socket,
                attempt0 == tcp_attempt(old(self).sockets, socket, first.buffered[0].payload),
                stepped == flush_step(first, taken_at(attempt0), now),
                !begun ==> more && self.flows@ == start && self.sockets == old(self).sockets,
                socket_kinds(self.sockets) == socket_kinds(old(self).sockets),
                begun ==> {
                    &&& first.buffered.len() > 0
                    &&& !(attempt0 is InvalidState)
                    &&& taken_at(attempt0) <= first.buffered[0].payload.len()
                    &&& flush_conserved(stepped, self.flows@[index as int]@)
                    &&& taken_at(attempt0) < first.buffered[0].payload.len() ==> !more
                        && self.flows@[index as int]@ == stepped && socket_after_attempt(
                        old(self).sockets,
                        self.sockets,
                        socket,
                        first.buffered[0].payload,
                        attempt0,
                    )
                    &&& (tcp_queued(old(self).sockets, socket) + first.buffered[0].payload.take(
                        taken_at(attempt0) as int,
                    )).is_prefix_of(tcp_queued(self.sockets, socket))
                },
            decreases
                    (if more {
                        1int
                    } else {
                        0int
                    }),
                    self.flows@[index as int]@.buffered.len(),
        {
            let ghost before = self.flows@;
            proof {
                assert(before[index as int].wf());
            }
            let head = self.flows[index].buffered.peek_front().unwrap();
            let ghost turn_sockets = self.sockets;
            let attempt = self.attempt_tcp_send(socket, head.as_slice());
            let taken: usize = match attempt {
                TcpAttempt::InvalidState => {
                    if self.callbacks_installed {
                        proof {
                            lemma_handle_index_at(before, index as int);
                        }
                        self.notify_close(handle, FlowKind::Tcp, "tcp_invalid_state");
                        proof {
                            assert(before.remove(index as int) =~= start.remove(index as int));
                            lemma_descends_chain(start, before, self.flows@);
                        }
                        return false;
                    }
                    proof {
                        let waited = tcp_queued(old(self).sockets, socket);
                        let earlier = tcp_queued(turn_sockets, socket);
                        let head0 = first.buffered[0].payload;
                        assert(earlier + head@.take(0) =~= earlier);
                        if begun && taken_at(attempt0) == head0.len() {
                            assert(head0.take(head0.len() as int) =~= head0);
                        }
                    }
                    return true;
                },
                TcpAttempt::NotWritable => 0,
                TcpAttempt::Sent(n) => n,
            };
            proof {
                lemma_flush_step_conserves(before[index as int]@, taken as nat, now);
            }
            proof {
                let waited = tcp_queued(old(self).sockets, socket);
                let now_waits = tcp_queued(self.sockets, socket);
                let head0 = first.buffered[0].payload.take(taken_at(attempt0) as int);
                if begun {
                    let earlier = tcp_queued(turn_sockets, socket);
                    lemma_prefix_of_concat(earlier, head@.take(taken as int));
                    crate::flow_manager::batch::lemma_prefix_chain(waited + head0, earlier, now_waits);
                } else {
                    lemma_prefix_of_concat(waited + head0, Seq::empty());
                }
                if taken == first.buffered[0].payload.len() && !begun {
                    assert(head0 =~= first.buffered[0].payload);
                }
            }
            more = self.flows[index].settle_flush(taken, now);
            proof {
                lemma_update_keeps_table(
                    before,
                    self.flows@,
                    index as int,
                    self.limits,
                    self.next_flow_id,
                    socket_kinds(self.sockets),
                );
                lemma_replaced_descends(before, self.flows@, index as int);
                lemma_descends_chain(start, before, self.flows@);
                begun = true;
            }
        }
        if self.flows[index].buffered.len() == 0 {
            let ghost before = self.flows@;
            proof {
                assert(before[index as int].wf());
            }
            self.flows[index].relieve();
            proof {
                lemma_update_keeps_table(
                    before,
                    self.flows@,
                    index as int,
                    self.limits,
                    self.next_flow_id,
                    socket_kinds(self.sockets),
                );
                lemma_replaced_descends(before, self.flows@, index as int);
                lemma_descends_chain(start, before, self.flows@);
            }
        }
        proof {
            if begun {
                let head0 = first.buffered[0].payload;
                if taken_at(attempt0) == head0.len() {
                    assert(head0.take(head0.len() as int) =~= head0);
                }
            }
        }
        true
    }
}

/// In a table without two flows of one handle, the search for the handle of
/// the flow at `index` ends at `index`.
pub proof fn lemma_handle_index_at(flows: Seq<FlowEntry>, index: int)
    requires
        0 <= index < flows.len(),
        crate::flow_manager::entries_distinct(flows),
    ensures
        handle_index(flows, flows[index].handle, 0) == index,
{
    lemma_handle_index_from(flows, index, 0);
}

proof fn lemma_handle_index_from(flows: Seq<FlowEntry>, index: int, from: int)
    requires
        0 <= from <= index < flows.len(),
        crate::flow_manager::entries_distinct(flows),
    ensures
        handle_index(flows, flows[index].handle, from) == index,
    decreases index - from,
{
    if from < index {
        assert(flows[from].handle != flows[index].handle);
        lemma_handle_index_from(flows, index, from + 1);
    }
}

} // verus!
