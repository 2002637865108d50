//! The tick of the engine and its entry points for the host: what the
//! client sent is collected, finished flows are closed, dials are
//! requested, buffers and delay lines are emptied as far as they go, and
//! flows that ran out of time are reaped.

use crate::device::{ParsedPacket, ParsedPacketView};
use crate::dns::{dns_mappings, dns_question, parse_dns_qname};
use crate::ffi::{bump, bumped, raise, raised, FlowStats};
use crate::flow_manager::admission::{
    flows_kept, lemma_packet_keeps, opened_socket, packet_outcome, snooped, tcp_key, udp_key,
};
use crate::flow_manager::batch::{
    batch_extends, empty_batch, lemma_extends_by, lemma_extends_chain, lemma_extends_self,
    lemma_prefix_of_concat, BatchView, CallbackBatch, SendRequestView,
};
use crate::flow_manager::dial::{dial_requests, dials_dispatched};
use crate::flow_manager::maintenance::{
    closed_flows_finalized, flows_pruned, lemma_taken_from_keeps, none_expired, taken_from,
    MAX_TCP_CHUNKS, PruneRule,
};
use crate::flow_manager::packet_builder::{prohibited_frame, tcp_reset_frame, udp_response_frame};
use crate::flow_manager::queue::TimedPayloadView;
use crate::flow_manager::ready_list::{list_at, list_len, list_push, listed, new_list};
use crate::flow_manager::sockets::{
    chunk_view, socket_kinds, state_after_close, tcp_can_recv, tcp_close, tcp_readable, tcp_recv,
    tcp_recv_answer, tcp_state_answer, udp_recv, udp_recv_answer, UDP_PACKET_METADATA,
};
use crate::flow_manager::state::{ready_count, FlowEntry, FlowKey, FlowKind, FlowView};
use crate::flow_manager::transport::{
    direct_path_taken, flow_replaced, flush_outcome, forward_outcome, forward_sockets,
    lemma_flush_closes,
    lemma_flush_extends, lemma_forward_extends, lemma_routed_closes, observe_all, routed,
    tcp_flush_begun, with_dns_records,
};
use crate::flow_manager::{
    closes_final, descends, handle_index, lemma_closes_final_chain, lemma_descends_chain,
    lemma_descends_self, lemma_replaced_descends, lemma_update_keeps_table, live_handles,
    sockets_without, EngineView, FlowManager, Tick,
};
use crate::policy::PolicyManager;
use smoltcp::iface::{SocketHandle, SocketSet};
use crate::telemetry::{
    after_record, PacketDirection, TELEMETRY_FLAG_DNS, TELEMETRY_FLAG_DNS_RESPONSE, Telemetry,
    TelemetryEvent, TelemetryEventView,
};
use vstd::prelude::*;

verus! {

/// Every position of `list` is that of a ready flow of the table.
pub open spec fn all_ready(flows: Seq<FlowEntry>, list: Seq<usize>) -> bool {
    forall|k: int| 0 <= k < list.len() ==> (#[trigger] list[k]) < flows.len() && flows[list[k] as int].ready
}

/// Whether the table holds a ready flow of `kind` with `handle`.
pub open spec fn ready_flow_of(flows: Seq<FlowEntry>, kind: FlowKind, handle: u64) -> bool {
    exists|i: int|
        0 <= i < flows.len() && (#[trigger] flows[i]).handle == handle && flows[i].kind == kind
            && flows[i].ready
}

/// Whether each of `sends` hands on what the client sent on a ready flow of `kind`.
pub open spec fn sends_from(flows: Seq<FlowEntry>, kind: FlowKind, sends: Seq<SendRequestView>) -> bool {
    forall|k: int|
        0 <= k < sends.len() ==> (#[trigger] sends[k]).kind == kind && ready_flow_of(
            flows,
            kind,
            sends[k].handle,
        )
}

/// The bytes of the payloads of `sends` together.
pub open spec fn send_bytes(sends: Seq<SendRequestView>) -> nat
    decreases sends.len(),
{
    if sends.len() == 0 {
        0
    } else {
        send_bytes(sends.drop_last()) + sends.last().payload.len()
    }
}

/// What the socket of a flow gives next, as the set stands: for a TCP flow
/// the run of bytes that the socket offers, if it can be read; for a UDP
/// flow the datagram that waits.
pub open spec fn next_chunk(set: SocketSet<'static>, socket: SocketHandle, kind: FlowKind) -> Option<
    Seq<u8>,
> {
    match kind {
        FlowKind::Tcp => if tcp_readable(set, socket) {
            tcp_recv_answer(set, socket)
        } else {
            None
        },
        FlowKind::Udp => udp_recv_answer(set, socket),
    }
}

/// Whether what a socket gave is handed on to the host: every datagram, and
/// every run of bytes that is not empty.
pub open spec fn chunk_counts(kind: FlowKind, chunk: Option<Seq<u8>>) -> bool {
    chunk is Some && (kind is Udp || chunk->0.len() > 0)
}

/// The engine after `bytes` from the socket of the flow with `handle` were
/// handed on: they are the newest send request of their kind, and the
/// flush and its bytes are counted.
pub open spec fn with_chunk(old: EngineView, handle: u64, kind: FlowKind, bytes: Seq<u8>) -> EngineView {
    let send = SendRequestView { handle, payload: bytes, kind };
    EngineView {
        outbox: match kind {
            FlowKind::Tcp => BatchView { tcp_sends: old.outbox.tcp_sends.push(send), ..old.outbox },
            FlowKind::Udp => BatchView { udp_sends: old.outbox.udp_sends.push(send), ..old.outbox },
        },
        stats: match kind {
            FlowKind::Tcp => FlowStats {
                tcp_flush_events: bumped(old.stats.tcp_flush_events),
                bytes_emitted: raised(old.stats.bytes_emitted, bytes.len()),
                ..old.stats
            },
            FlowKind::Udp => FlowStats {
                udp_flush_events: bumped(old.stats.udp_flush_events),
                bytes_emitted: raised(old.stats.bytes_emitted, bytes.len()),
                ..old.stats
            },
        },
        ..old
    }
}

/// Handing a chunk on takes nothing back that was collected for the host.
pub proof fn lemma_chunk_extends(old: EngineView, handle: u64, kind: FlowKind, bytes: Seq<u8>)
    ensures
        batch_extends(old.outbox, with_chunk(old, handle, kind, bytes).outbox),
{
    lemma_extends_self(old.outbox);
    lemma_prefix_of_concat(old.outbox.tcp_sends, Seq::empty());
    lemma_prefix_of_concat(old.outbox.udp_sends, Seq::empty());
}

/// What collecting from the socket of the flow at `index` comes to: the
/// table stays; where the socket gives nothing to hand on, nothing changes;
/// otherwise what it gives first is handed on, and whatever it gives after
/// that only adds to the send requests of its kind, up to 64 runs of bytes
/// or 32 datagrams in all.
pub open spec fn flow_flushed(before: FlowManager, after: FlowManager, index: int) -> bool {
    let flow = before.flows@[index];
    let first = next_chunk(before.sockets, flow.socket, flow.kind);
    &&& after.flows@ == before.flows@
    &&& after.counters == before.counters
    &&& after.jitter_state == before.jitter_state
    &&& after.callbacks_installed == before.callbacks_installed
    &&& after.outbox@.frames == before.outbox@.frames
    &&& after.outbox@.closes == before.outbox@.closes
    &&& after.outbox@.dials == before.outbox@.dials
    &&& after.outbox@.dns_records == before.outbox@.dns_records
    &&& match flow.kind {
        FlowKind::Tcp => {
            &&& after.outbox@.udp_sends == before.outbox@.udp_sends
            &&& after.outbox@.tcp_sends.len() <= before.outbox@.tcp_sends.len() + MAX_TCP_CHUNKS
        },
        FlowKind::Udp => {
            &&& after.outbox@.tcp_sends == before.outbox@.tcp_sends
            &&& after.outbox@.udp_sends.len() <= before.outbox@.udp_sends.len()
                + UDP_PACKET_METADATA
        },
    }
    &&& if chunk_counts(flow.kind, first) {
        batch_extends(with_chunk(before@, flow.handle, flow.kind, first->0).outbox, after.outbox@)
    } else {
        after@ == before@
    }
}

/// The positions of the ready flows of `kind`, in the order of the table.
pub open spec fn ready_positions(flows: Seq<FlowEntry>, kind: FlowKind) -> Seq<usize>
    decreases flows.len(),
{
    if flows.len() == 0 {
        Seq::empty()
    } else {
        let before = ready_positions(flows.drop_last(), kind);
        if flows.last().ready && flows.last().kind == kind {
            before.push((flows.len() - 1) as usize)
        } else {
            before
        }
    }
}

/// Whether `end` is what `start` comes to when the sockets of the flows at
/// the positions of `list` are collected from, one flow after the other.
pub open spec fn flushed_through(start: FlowManager, end: FlowManager, list: Seq<usize>) -> bool
    decreases list.len(),
{
    if list.len() == 0 {
        end == start
    } else {
        exists|mid: FlowManager|
            #![trigger flow_flushed(mid, end, list.last() as int)]
            flushed_through(start, mid, list.drop_last()) && flow_flushed(
                mid,
                end,
                list.last() as int,
            )
    }
}

/// Collecting from one more flow goes on from what the flows before it gave.
pub proof fn lemma_flushed_step(
    start: FlowManager,
    before: FlowManager,
    after: FlowManager,
    list: Seq<usize>,
    at: usize,
)
    requires
        flushed_through(start, before, list),
        flow_flushed(before, after, at as int),
    ensures
        flushed_through(start, after, list.push(at)),
{
    let longer = list.push(at);
    assert(longer.len() > 0);
    assert(longer.drop_last() =~= list);
    assert(longer.last() == at);
    assert(flushed_through(start, before, longer.drop_last()));
    assert(flow_flushed(before, after, longer.last() as int));
}

/// What a packet of the client comes to: the policy decides on a new flow,
/// the verdict is recorded, and the flow is opened, answered with a block
/// frame or refused; a packet of a known flow is noted; a packet that is
/// neither TCP nor UDP changes nothing.
pub open spec fn packet_processed(
    before: FlowManager,
    after: FlowManager,
    policy_before: PolicyManager,
    policy_after: PolicyManager,
    ring_before: Telemetry,
    ring_after: Telemetry,
    packet: ParsedPacketView,
    tick: Tick,
) -> bool {
    &&& after.wf()
    &&& policy_after.wf()
    &&& ring_after.wf()
    &&& after.limits == before.limits
    &&& after.memory.budget == before.memory.budget
    &&& after.next_flow_id >= before.next_flow_id
    &&& flows_kept(before.flows@, after.flows@)
    &&& batch_extends(before.outbox@, after.outbox@)
    &&& after.stats == before.stats
    &&& after.jitter_state == before.jitter_state
    &&& after.callbacks_installed == before.callbacks_installed
    &&& match packet {
        ParsedPacketView::Tcp(tcp) => opened_socket(before, after, tcp_key(tcp)),
        ParsedPacketView::Udp(udp) => opened_socket(before, after, udp_key(udp)),
        ParsedPacketView::Other => after.sockets == before.sockets,
    }
    &&& match packet {
        ParsedPacketView::Tcp(tcp) => packet_outcome(
            before@,
            after@,
            policy_before@,
            policy_after@,
            after_record(ring_before@, packet_event(packet, tick.unix_ms)),
            ring_after@,
            tcp_key(tcp),
            tcp.flags.fin || tcp.flags.rst,
            Seq::empty(),
            tcp_reset_frame(tcp),
            tick,
            before.can_open(FlowKind::Tcp),
            before.next_flow_id,
            before.limits,
        ),
        ParsedPacketView::Udp(udp) => packet_outcome(
            with_dns_records(
                before@,
                snooped(udp, before.callbacks_installed),
                udp.payload,
            ),
            after@,
            if snooped(udp, before.callbacks_installed) {
                observe_all(policy_before@, dns_mappings(udp.payload), tick.now_ms)
            } else {
                policy_before@
            },
            policy_after@,
            after_record(ring_before@, packet_event(packet, tick.unix_ms)),
            ring_after@,
            udp_key(udp),
            false,
            udp.payload,
            prohibited_frame(udp),
            tick,
            before.can_open(FlowKind::Udp),
            before.next_flow_id,
            before.limits,
        ),
        ParsedPacketView::Other => {
            &&& after@ == before@
            &&& policy_after@ == policy_before@
            &&& ring_after@ == ring_before@
            &&& after.next_flow_id == before.next_flow_id
        },
    }
}

/// What the turn of a flow whose buffer is due comes to: the mark for the
/// next try is cleared, and the buffer is flushed from there; for a TCP flow
/// the flush begins with what its socket answers.
pub open spec fn due_flushed(before: FlowManager, after: FlowManager, index: int, now: u64) -> bool {
    exists|cleared: FlowManager|
        #![trigger flush_outcome(cleared@, after@, index)]
        {
            &&& cleared.sockets == before.sockets
            &&& cleared@ == (EngineView { flows: cleared.flows@, ..before@ })
            &&& flow_replaced(
                before.flows@,
                cleared.flows@,
                index,
                FlowView { backpressure_retry_at: None, ..before.flows@[index]@ },
            )
            &&& cleared.flows@[index].socket == before.flows@[index].socket
            &&& flush_outcome(cleared@, after@, index)
            &&& before.flows@[index].kind is Tcp ==> tcp_flush_begun(cleared, after, index, now)
        }
}

/// What the turn of the flow that stood at place `k` of the table `start`
/// comes to, when the turns of the flows before it have led to `mid`: the
/// flow stands in `mid` as it stood in `start`, moved up by as many places
/// as flows have left; its buffer is flushed if it was due, and else
/// nothing changes.
pub open spec fn turn_taken(
    start: Seq<FlowEntry>,
    mid: FlowManager,
    end: FlowManager,
    k: int,
    now: u64,
) -> bool {
    let index = k - (start.len() - mid.flows@.len());
    if flush_due(start[k]@, now) {
        &&& 0 <= index < mid.flows@.len()
        &&& mid.flows@[index] == start[k]
        &&& due_flushed(mid, end, index, now)
    } else {
        end == mid
    }
}

/// Whether `end` is what `start` comes to when the first `count` flows of
/// its table have had their turn, in the order of the table.
pub open spec fn buffers_flushed(start: FlowManager, end: FlowManager, count: nat, now: u64) -> bool
    decreases count,
{
    if count == 0 {
        end == start
    } else {
        exists|mid: FlowManager|
            #![trigger turn_taken(start.flows@, mid, end, count - 1, now)]
            buffers_flushed(start, mid, (count - 1) as nat, now) && turn_taken(
                start.flows@,
                mid,
                end,
                count - 1,
                now,
            )
    }
}

/// The turn of one more flow goes on from what the turns before it led to.
pub proof fn lemma_buffers_step(
    start: FlowManager,
    mid: FlowManager,
    end: FlowManager,
    count: nat,
    now: u64,
)
    requires
        buffers_flushed(start, mid, count, now),
        turn_taken(start.flows@, mid, end, count as int, now),
    ensures
        buffers_flushed(start, end, count + 1, now),
{
    assert(((count + 1) - 1) as nat == count);
    assert(turn_taken(start.flows@, mid, end, (count + 1) - 1, now));
}

/// What collecting from the sockets of the ready flows comes to: the runs
/// of bytes and the datagrams that the sockets hold become send requests for
/// the host, flow after flow, the TCP flows before the UDP flows; the table
/// stays as it is.
#[verifier::opaque]
pub open spec fn outbound_flushed(
    before: FlowManager,
    after: FlowManager,
) -> bool {
    &&& after.wf()
    &&& after.same_settings(&before)
    &&& after.flows@ == before.flows@
    &&& after.counters == before.counters
    &&& after.jitter_state == before.jitter_state
    &&& after.outbox@.frames == before.outbox@.frames
    &&& after.outbox@.closes == before.outbox@.closes
    &&& after.outbox@.dials == before.outbox@.dials
    &&& after.outbox@.dns_records == before.outbox@.dns_records
    &&& before.outbox@.tcp_sends.is_prefix_of(after.outbox@.tcp_sends)
    &&& before.outbox@.udp_sends.is_prefix_of(after.outbox@.udp_sends)
    &&& sends_from(
        before.flows@,
        FlowKind::Tcp,
        after.outbox@.tcp_sends.skip(before.outbox@.tcp_sends.len() as int),
    )
    &&& sends_from(
        before.flows@,
        FlowKind::Udp,
        after.outbox@.udp_sends.skip(before.outbox@.udp_sends.len() as int),
    )
    &&& after.stats == (FlowStats {
        tcp_flush_events: raised(
            before.stats.tcp_flush_events,
            (after.outbox@.tcp_sends.len() - before.outbox@.tcp_sends.len()) as nat,
        ),
        udp_flush_events: raised(
            before.stats.udp_flush_events,
            (after.outbox@.udp_sends.len() - before.outbox@.udp_sends.len()) as nat,
        ),
        bytes_emitted: raised(
            before.stats.bytes_emitted,
            send_bytes(
                after.outbox@.tcp_sends.skip(before.outbox@.tcp_sends.len() as int),
            ) + send_bytes(
                after.outbox@.udp_sends.skip(before.outbox@.udp_sends.len() as int),
            ),
        ),
        ..before.stats
    })
    &&& exists|mid: FlowManager|
        #![trigger flushed_through(
            before,
            mid,
            ready_positions(before.flows@, FlowKind::Tcp),
        )]
        flushed_through(
            before,
            mid,
            ready_positions(before.flows@, FlowKind::Tcp),
        ) && flushed_through(
            mid,
            after,
            ready_positions(before.flows@, FlowKind::Udp),
        )
}

/// What flushing the buffers that are due at `now` comes to: every flow has
/// its turn in the order of the table; `did_work` says whether a buffer was due.
#[verifier::opaque]
pub open spec fn ready_buffers_flushed(
    before: FlowManager,
    after: FlowManager,
    now: u64,
    did_work: bool,
) -> bool {
    &&& after.wf()
    &&& did_work == any_flush_due(before.flows@, before.flows@.len() as int, now)
    &&& after.same_settings(&before)
    &&& descends(before.flows@, after.flows@)
    &&& after.counters == before.counters
    &&& after.stats == before.stats
    &&& after.jitter_state == before.jitter_state
    &&& after.outbox@.frames == before.outbox@.frames
    &&& after.outbox@.dials == before.outbox@.dials
    &&& after.outbox@.dns_records == before.outbox@.dns_records
    &&& after.outbox@.tcp_sends == before.outbox@.tcp_sends
    &&& batch_extends(before.outbox@, after.outbox@)
    &&& closes_final(before.outbox@.closes, after.outbox@.closes, after.flows@)
    &&& buffers_flushed(before, after, before.flows@.len(), now)
}

/// What emptying the delay lines comes to: every payload that may leave
/// goes the way of a payload from the host that passes the shaper by, flow
/// by flow and oldest first, until no line holds a payload that may leave.
/// Every flow that stays keeps the rest of its line; the datagrams for the
/// client are collected in that order; `did_work` says whether one of the
/// payloads was accepted.
#[verifier::opaque]
pub open spec fn delay_lines_drained(
    before: FlowManager,
    after: FlowManager,
    policy_before: PolicyManager,
    policy_after: PolicyManager,
    ring_before: Telemetry,
    ring_after: Telemetry,
    tick: Tick,
    did_work: bool,
) -> bool {
    &&& after.wf()
    &&& policy_after.wf()
    &&& ring_after.wf()
    &&& after.same_settings(&before)
    &&& descends(before.flows@, after.flows@)
    &&& lines_drained(after.flows@, tick.now_ms)
    &&& lines_left(before.flows@, after.flows@, tick.now_ms)
    &&& after.outbox@.frames == before.outbox@.frames + pending_frames(
        before.flows@,
        tick.now_ms,
        before.callbacks_installed,
    )
    &&& pending_frames(before.flows@, tick.now_ms, before.callbacks_installed).len() > 0
        ==> did_work
    &&& batch_extends(before.outbox@, after.outbox@)
    &&& closes_final(before.outbox@.closes, after.outbox@.closes, after.flows@)
    &&& after.outbox@.dials == before.outbox@.dials
    &&& after.outbox@.tcp_sends == before.outbox@.tcp_sends
    &&& after.outbox@.udp_sends == before.outbox@.udp_sends
    &&& after.stats == before.stats
    &&& exists|answers: Seq<bool>|
        #![trigger answers.contains(true)]
        {
            &&& did_work == answers.contains(true)
            &&& lines_run(
                before,
                after,
                policy_before,
                policy_after,
                ring_before,
                ring_after,
                answers,
                tick,
            )
        }
}

/// The bytes of `frames` together.
pub open spec fn frame_bytes(frames: Seq<Seq<u8>>) -> nat
    decreases frames.len(),
{
    if frames.len() == 0 {
        0
    } else {
        frame_bytes(frames.drop_last()) + frames.last().len()
    }
}

/// The engine at the start of a tick: the tick is counted, and the frames
/// that the embedded stack emitted are counted and collected for the host.
pub open spec fn tick_begun(before: FlowManager, after: FlowManager, frames: Seq<Seq<u8>>) -> bool {
    &&& after.sockets == before.sockets
    &&& after.memory == before.memory
    &&& after.limits == before.limits
    &&& after.next_flow_id == before.next_flow_id
    &&& after@ == (EngineView {
        outbox: BatchView { frames: before.outbox@.frames + frames, ..before.outbox@ },
        stats: FlowStats {
            poll_iterations: bumped(before.stats.poll_iterations),
            frames_emitted: raised(before.stats.frames_emitted, frames.len()),
            bytes_emitted: raised(before.stats.bytes_emitted, frame_bytes(frames)),
            ..before.stats
        },
        ..before@
    })
}

/// What every step of a tick keeps: the engine is in order, no flow was
/// opened, nothing that was collected is taken back, every new close is of
/// a flow that left, and the counts of the ticks and of the frames stay.
pub open spec fn step_kept(before: FlowManager, after: FlowManager) -> bool {
    &&& after.wf()
    &&& after.same_settings(&before)
    &&& descends(before.flows@, after.flows@)
    &&& batch_extends(before.outbox@, after.outbox@)
    &&& closes_final(before.outbox@.closes, after.outbox@.closes, after.flows@)
    &&& after.stats.poll_iterations == before.stats.poll_iterations
    &&& after.stats.frames_emitted == before.stats.frames_emitted
}

/// Two steps keep what each of them keeps.
pub proof fn lemma_step_kept_chain(first: FlowManager, second: FlowManager, third: FlowManager)
    requires
        step_kept(first, second),
        step_kept(second, third),
    ensures
        step_kept(first, third),
{
    lemma_descends_chain(first.flows@, second.flows@, third.flows@);
    lemma_extends_chain(first.outbox@, second.outbox@, third.outbox@);
    lemma_closes_final_chain(
        first.outbox@.closes,
        second.outbox@.closes,
        third.outbox@.closes,
        second.flows@,
        third.flows@,
    );
}

/// What collecting from the sockets keeps.
pub proof fn lemma_outbound_kept(before: FlowManager, after: FlowManager)
    requires
        outbound_flushed(before, after),
    ensures
        step_kept(before, after),
        after.outbox@.dials == before.outbox@.dials,
{
    reveal(outbound_flushed);
    lemma_descends_self(before.flows@);
    lemma_prefix_of_concat(before.outbox@.frames, Seq::empty());
    lemma_prefix_of_concat(before.outbox@.closes, Seq::empty());
    lemma_prefix_of_concat(before.outbox@.dials, Seq::empty());
    lemma_prefix_of_concat(before.outbox@.dns_records, Seq::empty());
}

/// What closing the finished flows keeps.
pub proof fn lemma_finalized_kept(before: FlowManager, after: FlowManager)
    requires
        closed_flows_finalized(before, after),
    ensures
        step_kept(before, after),
        after.outbox@.dials == before.outbox@.dials,
{
    reveal(closed_flows_finalized);
    lemma_extends_by(before.outbox@, after.outbox@);
}

/// What requesting the dials keeps, and which dials it collects.
pub proof fn lemma_dispatched_kept(
    before: FlowManager,
    after: FlowManager,
    now: u64,
    dispatched: bool,
)
    requires
        before.wf(),
        dials_dispatched(before, after, now, dispatched),
    ensures
        step_kept(before, after),
        before.callbacks_installed ==> after.outbox@.dials == before.outbox@.dials + dial_requests(
            before.flows@,
            now,
        ),
{
    reveal(dials_dispatched);
    lemma_dispatch_descends(before.flows@, after.flows@, now);
    lemma_extends_by(before.outbox@, after.outbox@);
    assert(closes_final(before.outbox@.closes, after.outbox@.closes, after.flows@));
}

/// What flushing the buffers keeps.
pub proof fn lemma_buffers_kept(before: FlowManager, after: FlowManager, now: u64, did_work: bool)
    requires
        ready_buffers_flushed(before, after, now, did_work),
    ensures
        step_kept(before, after),
        after.outbox@.dials == before.outbox@.dials,
{
    reveal(ready_buffers_flushed);
}

/// What emptying the delay lines keeps.
pub proof fn lemma_drained_kept(
    before: FlowManager,
    after: FlowManager,
    policy_before: PolicyManager,
    policy_after: PolicyManager,
    ring_before: Telemetry,
    ring_after: Telemetry,
    tick: Tick,
    did_work: bool,
)
    requires
        delay_lines_drained(
            before,
            after,
            policy_before,
            policy_after,
            ring_before,
            ring_after,
            tick,
            did_work,
        ),
    ensures
        step_kept(before, after),
        after.outbox@.dials == before.outbox@.dials,
        policy_after.wf(),
        ring_after.wf(),
{
    reveal(delay_lines_drained);
}

/// What reaping keeps, and what it leaves.
pub proof fn lemma_pruned_kept(
    before: FlowManager,
    after: FlowManager,
    rule: PruneRule,
    now: u64,
    pruned: bool,
)
    requires
        flows_pruned(before, after, rule, now, pruned),
    ensures
        step_kept(before, after),
        after.outbox@.dials == before.outbox@.dials,
        none_expired(after.flows@, rule, now),
        taken_from(before.flows@, after.flows@),
{
    reveal(flows_pruned);
    lemma_extends_by(before.outbox@, after.outbox@);
}

/// The steps of a tick behind its start, with the engine after each of
/// them: what the client sent is collected, finished flows are closed,
/// dials are requested, the buffers that are due are flushed, the delay
/// lines are emptied, and the flows whose time is up are reaped, rule by
/// rule. The flags say which of the steps did work.
pub open spec fn tick_steps(
    begun: FlowManager,
    collected: FlowManager,
    finalized: FlowManager,
    dialled: FlowManager,
    flushed: FlowManager,
    drained: FlowManager,
    idle_reaped: FlowManager,
    dials_reaped: FlowManager,
    reaped: FlowManager,
    policy_before: PolicyManager,
    policy_after: PolicyManager,
    ring_before: Telemetry,
    ring_after: Telemetry,
    tick: Tick,
    dispatched: bool,
    flushed_any: bool,
    drained_any: bool,
    idle: bool,
    timed_out: bool,
    stale: bool,
) -> bool {
    &&& outbound_flushed(begun, collected)
    &&& closed_flows_finalized(collected, finalized)
    &&& dials_dispatched(finalized, dialled, tick.now_ms, dispatched)
    &&& ready_buffers_flushed(dialled, flushed, tick.now_ms, flushed_any)
    &&& delay_lines_drained(
        flushed,
        drained,
        policy_before,
        policy_after,
        ring_before,
        ring_after,
        tick,
        drained_any,
    )
    &&& flows_pruned(drained, idle_reaped, PruneRule::IdleUdp, tick.now_ms, idle)
    &&& flows_pruned(idle_reaped, dials_reaped, PruneRule::DialTimeout, tick.now_ms, timed_out)
    &&& flows_pruned(dials_reaped, reaped, PruneRule::StaleTcp, tick.now_ms, stale)
}

/// The engine after the host took what was collected for it: nothing is
/// collected, and everything else is as it was.
pub open spec fn batch_taken(before: FlowManager, after: FlowManager) -> bool {
    &&& after.outbox@ == empty_batch()
    &&& after.callbacks_installed == before.callbacks_installed
    &&& after.sockets == before.sockets
    &&& after.memory == before.memory
    &&& after.flows == before.flows
    &&& after.next_flow_id == before.next_flow_id
    &&& after.counters == before.counters
    &&& after.stats == before.stats
    &&& after.limits == before.limits
    &&& after.jitter_state == before.jitter_state
}

/// Whether a payload of the delay line of `flow` may leave at `now`.
pub open spec fn has_ready_head(flow: FlowView, now: u64) -> bool {
    flow.shaping is Some && flow.shaping->0.queue.len() > 0 && flow.shaping->0.queue[0].ready_at
        <= now
}

/// The place of the first flow from `from` on whose delay line has a
/// payload that may leave at `now`; the length of the table where no flow
/// has one.
pub open spec fn first_ready(flows: Seq<FlowEntry>, now: u64, from: int) -> int
    decreases flows.len() - from,
{
    if from < 0 || from >= flows.len() {
        flows.len() as int
    } else if has_ready_head(flows[from]@, now) {
        from
    } else {
        first_ready(flows, now, from + 1)
    }
}

/// The first flow with a payload that may leave stands behind every flow
/// that has none.
pub proof fn lemma_first_ready_at(flows: Seq<FlowEntry>, now: u64, from: int, at: int)
    requires
        0 <= from <= at < flows.len(),
        forall|j: int| from <= j < at ==> !has_ready_head((#[trigger] flows[j])@, now),
        has_ready_head(flows[at]@, now),
    ensures
        first_ready(flows, now, from) == at,
    decreases at - from,
{
    if from < at {
        assert(!has_ready_head(flows[from]@, now));
        lemma_first_ready_at(flows, now, from + 1, at);
    }
}

/// What letting one payload leave its delay line comes to: it is the oldest
/// payload of the first flow of the table that has one that may leave, and
/// it goes the way of a payload from the host that passes the shaper by.
pub open spec fn head_forwarded(
    before: FlowManager,
    after: FlowManager,
    policy_before: PolicyManager,
    policy_after: PolicyManager,
    ring_before: Telemetry,
    ring_after: Telemetry,
    tick: Tick,
    accepted: bool,
) -> bool {
    let index = first_ready(before.flows@, tick.now_ms, 0);
    let flow = before.flows@[index];
    let payload = flow@.shaping->0.queue[0].payload;
    &&& 0 <= index < before.flows@.len()
    &&& after.wf()
    &&& policy_after.wf()
    &&& ring_after.wf()
    &&& after.same_settings(&before)
    &&& forward_outcome(
        before@,
        after@,
        policy_before@,
        policy_after@,
        ring_before@,
        ring_after@,
        flow.handle,
        payload,
        flow.kind,
        true,
        tick,
        accepted,
    )
    &&& flow.kind is Tcp ==> direct_path_taken(
        before,
        after,
        flow.handle,
        payload,
        true,
        tick.now_ms,
        accepted,
    )
    &&& forward_sockets(before, after, flow.handle, payload, flow.kind, true, accepted)
}

/// Whether the end is what the start comes to when payloads leave their
/// delay lines one after the other, as many as `answers` is long: each time
/// the oldest payload of the first flow that has one that may leave, with
/// `answers` saying of each whether it was accepted.
pub open spec fn lines_run(
    before: FlowManager,
    after: FlowManager,
    policy_before: PolicyManager,
    policy_after: PolicyManager,
    ring_before: Telemetry,
    ring_after: Telemetry,
    answers: Seq<bool>,
    tick: Tick,
) -> bool
    decreases answers.len(),
{
    if answers.len() == 0 {
        after == before && policy_after == policy_before && ring_after == ring_before
    } else {
        exists|flows: FlowManager, policy: PolicyManager, ring: Telemetry|
            #![trigger head_forwarded(
                flows,
                after,
                policy,
                policy_after,
                ring,
                ring_after,
                tick,
                answers.last(),
            )]
            lines_run(
                before,
                flows,
                policy_before,
                policy,
                ring_before,
                ring,
                answers.drop_last(),
                tick,
            ) && head_forwarded(
                flows,
                after,
                policy,
                policy_after,
                ring,
                ring_after,
                tick,
                answers.last(),
            )
    }
}

/// One more payload goes on from what the payloads before it came to.
pub proof fn lemma_lines_step(
    start: FlowManager,
    before: FlowManager,
    after: FlowManager,
    policy_start: PolicyManager,
    policy_before: PolicyManager,
    policy_after: PolicyManager,
    ring_start: Telemetry,
    ring_before: Telemetry,
    ring_after: Telemetry,
    answers: Seq<bool>,
    accepted: bool,
    tick: Tick,
)
    requires
        lines_run(start, before, policy_start, policy_before, ring_start, ring_before, answers, tick),
        head_forwarded(
            before,
            after,
            policy_before,
            policy_after,
            ring_before,
            ring_after,
            tick,
            accepted,
        ),
    ensures
        lines_run(
            start,
            after,
            policy_start,
            policy_after,
            ring_start,
            ring_after,
            answers.push(accepted),
            tick,
        ),
        answers.push(accepted).contains(true) == (answers.contains(true) || accepted),
{
    let longer = answers.push(accepted);
    assert(longer.drop_last() =~= answers);
    assert(longer.last() == accepted);
    assert(head_forwarded(
        before,
        after,
        policy_before,
        policy_after,
        ring_before,
        ring_after,
        tick,
        longer.last(),
    ));
    if answers.contains(true) {
        let i = choose|i: int| 0 <= i < answers.len() && answers[i] == true;
        assert(longer[i] == true);
    }
    if accepted {
        assert(longer[answers.len() as int] == true);
    }
    if longer.contains(true) {
        let i = choose|i: int| 0 <= i < longer.len() && longer[i] == true;
        if i < answers.len() {
            assert(answers[i] == true);
        }
    }
}

/// The delay line of a flow; empty for a flow that is not shaped.
pub open spec fn line_of(flow: FlowView) -> Seq<TimedPayloadView> {
    match flow.shaping {
        Some(shaper) => shaper.queue,
        None => Seq::empty(),
    }
}

/// What stays of the delay line of a flow when the payloads at its head
/// that may leave at `now` have left.
pub open spec fn rest_of_line(flow: FlowView, now: u64) -> Seq<TimedPayloadView> {
    line_of(flow).skip(ready_count(line_of(flow), now) as int)
}

/// The datagrams for the client that the payloads at the head of `queue`
/// give, oldest first, as long as they may leave at `now` and a frame can
/// be built for them.
pub open spec fn line_frames(key: FlowKey, queue: Seq<TimedPayloadView>, now: u64) -> Seq<Seq<u8>>
    decreases queue.len(),
{
    if queue.len() > 0 && queue[0].ready_at <= now {
        match udp_response_frame(
            key.src_ip,
            key.src_port,
            key.dst_ip,
            key.dst_port,
            queue[0].payload,
        ) {
            Some(frame) => if queue[0].payload.len() + 28 <= usize::MAX {
                seq![frame] + line_frames(key, queue.drop_first(), now)
            } else {
                Seq::empty()
            },
            None => Seq::empty(),
        }
    } else {
        Seq::empty()
    }
}

/// The frames that emptying the delay line of a flow gives: those of its
/// line for a UDP flow while the host has installed its callbacks, none
/// for any other.
pub open spec fn flow_frames(flow: FlowEntry, now: u64, callbacks: bool) -> Seq<Seq<u8>> {
    if callbacks && flow.kind is Udp {
        line_frames(flow.key, line_of(flow@), now)
    } else {
        Seq::empty()
    }
}

/// The frames that emptying the delay lines of `flows` gives, flow by flow
/// in the order of the table.
pub open spec fn pending_frames(flows: Seq<FlowEntry>, now: u64, callbacks: bool) -> Seq<Seq<u8>>
    decreases flows.len(),
{
    if flows.len() == 0 {
        Seq::empty()
    } else {
        pending_frames(flows.drop_last(), now, callbacks) + flow_frames(
            flows.last(),
            now,
            callbacks,
        )
    }
}

/// Whether every flow of `end` stood in `start` under its handle, and has
/// as its delay line what was left of its line there once the payloads
/// that might leave at `now` had left.
pub open spec fn lines_left(start: Seq<FlowEntry>, end: Seq<FlowEntry>, now: u64) -> bool {
    forall|j: int|
        0 <= j < end.len() ==> {
            let k = handle_index(start, (#[trigger] end[j]).handle, 0);
            &&& 0 <= k < start.len()
            &&& line_of(end[j]@) == rest_of_line(start[k]@, now)
        }
}

/// Whether every flow of `cur` stood in `start` under its handle, and what
/// will be left of its delay line is what would have been left there.
pub open spec fn rests_kept(start: Seq<FlowEntry>, cur: Seq<FlowEntry>, now: u64) -> bool {
    forall|j: int|
        0 <= j < cur.len() ==> {
            let k = handle_index(start, (#[trigger] cur[j]).handle, 0);
            &&& 0 <= k < start.len()
            &&& rest_of_line(cur[j]@, now) == rest_of_line(start[k]@, now)
        }
}

/// The frames of two tables, one behind the other.
pub proof fn lemma_pending_concat(a: Seq<FlowEntry>, b: Seq<FlowEntry>, now: u64, callbacks: bool)
    ensures
        pending_frames(a + b, now, callbacks) == pending_frames(a, now, callbacks) + pending_frames(
            b,
            now,
            callbacks,
        ),
    decreases b.len(),
{
    if b.len() == 0 {
        assert(a + b =~= a);
        assert(pending_frames(a, now, callbacks) + Seq::<Seq<u8>>::empty() =~= pending_frames(
            a,
            now,
            callbacks,
        ));
    } else {
        assert((a + b).drop_last() =~= a + b.drop_last());
        assert((a + b).last() == b.last());
        lemma_pending_concat(a, b.drop_last(), now, callbacks);
        assert(pending_frames(a, now, callbacks) + pending_frames(b.drop_last(), now, callbacks)
            + flow_frames(b.last(), now, callbacks) =~= pending_frames(a, now, callbacks) + (
        pending_frames(b.drop_last(), now, callbacks) + flow_frames(b.last(), now, callbacks)));
    }
}

/// Flows without a payload that may leave give no frames.
pub proof fn lemma_pending_none(flows: Seq<FlowEntry>, now: u64, callbacks: bool)
    requires
        !callbacks || forall|j: int|
            0 <= j < flows.len() ==> !has_ready_head((#[trigger] flows[j])@, now),
    ensures
        pending_frames(flows, now, callbacks) == Seq::<Seq<u8>>::empty(),
    decreases flows.len(),
{
    if flows.len() > 0 {
        if callbacks {
            assert(!has_ready_head(flows[flows.len() - 1]@, now));
            assert forall|j: int| 0 <= j < flows.drop_last().len() implies !has_ready_head(
                (#[trigger] flows.drop_last()[j])@,
                now,
            ) by {
                assert(!has_ready_head(flows[j]@, now));
            }
        }
        lemma_pending_none(flows.drop_last(), now, callbacks);
        assert(pending_frames(flows, now, callbacks) =~= Seq::<Seq<u8>>::empty());
    }
}

/// The frames of a table are those of the flows before a place, of the
/// flow at the place, and of the flows behind it.
pub proof fn lemma_pending_split(flows: Seq<FlowEntry>, index: int, now: u64, callbacks: bool)
    requires
        0 <= index < flows.len(),
    ensures
        pending_frames(flows, now, callbacks) == pending_frames(flows.take(index), now, callbacks)
            + flow_frames(flows[index], now, callbacks) + pending_frames(
            flows.skip(index + 1),
            now,
            callbacks,
        ),
{
    let one = seq![flows[index]];
    assert(flows =~= flows.take(index) + one + flows.skip(index + 1));
    lemma_pending_concat(flows.take(index) + one, flows.skip(index + 1), now, callbacks);
    lemma_pending_concat(flows.take(index), one, now, callbacks);
    assert(one.drop_last() =~= Seq::<FlowEntry>::empty());
    assert(one.last() == flows[index]);
    assert(pending_frames(Seq::<FlowEntry>::empty(), now, callbacks) =~= Seq::<Seq<u8>>::empty());
    assert(pending_frames(one, now, callbacks) =~= flow_frames(flows[index], now, callbacks));
}

/// Whether no delay line holds a payload that may leave at `now`.
pub open spec fn lines_drained(flows: Seq<FlowEntry>, now: u64) -> bool {
    forall|j: int| 0 <= j < flows.len() ==> !has_ready_head((#[trigger] flows[j])@, now)
}

/// Whether the buffer of `flow` is due to be flushed at `now`.
pub open spec fn flush_due(flow: FlowView, now: u64) -> bool {
    flow.ready && flow.buffered.len() > 0 && match flow.backpressure_retry_at {
        Some(deadline) => deadline <= now,
        None => true,
    }
}

/// Whether the buffer of one of the first `count` flows is due at `now`.
pub open spec fn any_flush_due(flows: Seq<FlowEntry>, count: int, now: u64) -> bool {
    exists|k: int| 0 <= k < count && k < flows.len() && flush_due((#[trigger] flows[k])@, now)
}

/// The telemetry event for a packet of the client at wall-clock time `unix_ms`.
pub open spec fn packet_event(packet: ParsedPacketView, unix_ms: u64) -> TelemetryEventView {
    match packet {
        ParsedPacketView::Tcp(tcp) => TelemetryEventView {
            timestamp_ms: unix_ms,
            protocol: 6,
            direction: PacketDirection::ClientToNetwork,
            payload_len: (tcp.payload.len() % 0x1_0000_0000) as u32,
            src: tcp.src,
            dst: tcp.dst,
            dns_qname: None,
            dns_response: false,
            flags: 0,
        },
        ParsedPacketView::Udp(udp) => {
            let question = if udp.src_port == 53 || udp.dst_port == 53 {
                dns_question(udp.payload)
            } else {
                None
            };
            TelemetryEventView {
                timestamp_ms: unix_ms,
                protocol: 17,
                direction: PacketDirection::ClientToNetwork,
                payload_len: (udp.payload.len() % 0x1_0000_0000) as u32,
                src: udp.src,
                dst: udp.dst,
                dns_qname: match question {
                    Some((name, _)) => Some(name),
                    None => None,
                },
                dns_response: match question {
                    Some((_, is_response)) => is_response,
                    None => false,
                },
                flags: match question {
                    Some((_, is_response)) => if is_response {
                        (TELEMETRY_FLAG_DNS + TELEMETRY_FLAG_DNS_RESPONSE) as u8
                    } else {
                        TELEMETRY_FLAG_DNS
                    },
                    None => 0,
                },
            }
        },
        ParsedPacketView::Other => arbitrary(),
    }
}

proof fn lemma_send_bytes_push(sends: Seq<SendRequestView>, send: SendRequestView)
    ensures
        send_bytes(sends.push(send)) == send_bytes(sends) + send.payload.len(),
{
    assert(sends.push(send).drop_last() =~= sends);
}

impl FlowManager {
    /// Records a packet of the client in telemetry.
    pub fn record_packet(&self, packet: &ParsedPacket<'_>, telemetry: &mut Telemetry, tick: Tick)
        requires
            old(telemetry).wf(),
        ensures
            final(telemetry).wf(),
            final(telemetry)@ == if packet@ is Other {
                old(telemetry)@
            } else {
                after_record(old(telemetry)@, packet_event(packet@, tick.unix_ms))
            },
    {
        match packet {
            ParsedPacket::Tcp(tcp) => {
                let event = TelemetryEvent::new(
                    6,
                    PacketDirection::ClientToNetwork,
                    ((tcp.payload.len() as u64) % 0x1_0000_0000) as u32,
                    tcp.src,
                    tcp.dst,
                    tick.unix_ms,
                );
                telemetry.record(event);
            },
            ParsedPacket::Udp(udp) => {
                let question = if udp.src_port == 53 || udp.dst_port == 53 {
                    parse_dns_qname(udp.payload)
                } else {
                    None
                };
                let mut event = TelemetryEvent::new(
                    17,
                    PacketDirection::ClientToNetwork,
                    ((udp.payload.len() as u64) % 0x1_0000_0000) as u32,
                    udp.src,
                    udp.dst,
                    tick.unix_ms,
                );
                match question {
                    Some((name, is_response)) => {
                        event.dns_qname = Some(name);
                        event.dns_response = is_response;
                        event.flags = if is_response {
                            TELEMETRY_FLAG_DNS + TELEMETRY_FLAG_DNS_RESPONSE
                        } else {
                            TELEMETRY_FLAG_DNS
                        };
                    },
                    None => {},
                }
                telemetry.record(event);
            },
            ParsedPacket::Other => {},
        }
    }

    /// Takes a packet of the client: it is recorded in telemetry and handed
    /// to the admission of its protocol; a packet that is neither TCP nor
    /// UDP changes nothing.
    pub fn process_packet(
        &mut self,
        packet: &ParsedPacket<'_>,
        policy: &mut PolicyManager,
        telemetry: &mut Telemetry,
        tick: Tick,
    )
        requires
            old(self).wf(),
            old(policy).wf(),
            old(telemetry).wf(),
        ensures
            packet_processed(
                *old(self),
                *final(self),
                *old(policy),
                *final(policy),
                *old(telemetry),
                *final(telemetry),
                packet@,
                tick,
            ),
    {
        self.record_packet(packet, telemetry, tick);
        match packet {
            ParsedPacket::Tcp(tcp) => self.handle_tcp_packet(tcp, policy, telemetry, tick),
            ParsedPacket::Udp(udp) => self.handle_udp_packet(udp, policy, telemetry, tick),
            ParsedPacket::Other => {},
        }
        proof {
            lemma_extends_self(old(self).outbox@);
            match packet@ {
                ParsedPacketView::Tcp(tcp) => {
                    lemma_packet_keeps(
                        old(self)@,
                        self@,
                        old(policy)@,
                        policy@,
                        after_record(old(telemetry)@, packet_event(packet@, tick.unix_ms)),
                        telemetry@,
                        tcp_key(tcp),
                        tcp.flags.fin || tcp.flags.rst,
                        Seq::empty(),
                        tcp_reset_frame(tcp),
                        tick,
                        old(self).can_open(FlowKind::Tcp),
                        old(self).next_flow_id,
                        old(self).limits,
                    );
                },
                ParsedPacketView::Udp(udp) => {
                    let dns = snooped(udp, old(self).callbacks_installed);
                    let noted = with_dns_records(old(self)@, dns, udp.payload);
                    lemma_packet_keeps(
                        noted,
                        self@,
                        if dns {
                            observe_all(old(policy)@, dns_mappings(udp.payload), tick.now_ms)
                        } else {
                            old(policy)@
                        },
                        policy@,
                        after_record(old(telemetry)@, packet_event(packet@, tick.unix_ms)),
                        telemetry@,
                        udp_key(udp),
                        false,
                        udp.payload,
                        prohibited_frame(udp),
                        tick,
                        old(self).can_open(FlowKind::Udp),
                        old(self).next_flow_id,
                        old(self).limits,
                    );
                    lemma_extends_by(old(self).outbox@, noted.outbox);
                    lemma_extends_chain(old(self).outbox@, noted.outbox, self.outbox@);
                },
                ParsedPacketView::Other => {},
            }
        }
    }

    /// Takes a payload that the host received for the TCP flow with `handle`.
    pub fn on_tcp_receive(
        &mut self,
        handle: u64,
        payload: &[u8],
        policy: &mut PolicyManager,
        telemetry: &mut Telemetry,
        tick: Tick,
    ) -> (accepted: bool)
        requires
            old(self).wf(),
            old(policy).wf(),
            old(telemetry).wf(),
        ensures
            final(self).wf(),
            final(policy).wf(),
            final(telemetry).wf(),
            final(self).same_settings(old(self)),
            descends(old(self).flows@, final(self).flows@),
            forward_outcome(
                old(self)@,
                final(self)@,
                old(policy)@,
                final(policy)@,
                old(telemetry)@,
                final(telemetry)@,
                handle,
                payload@,
                FlowKind::Tcp,
                false,
                tick,
                accepted,
            ),
            direct_path_taken(
                *old(self),
                *final(self),
                handle,
                payload@,
                false,
                tick.now_ms,
                accepted,
            ),
            forward_sockets(
                *old(self),
                *final(self),
                handle,
                payload@,
                FlowKind::Tcp,
                false,
                accepted,
            ),
    {
        self.forward_remote_payload(handle, payload, FlowKind::Tcp, policy, telemetry, tick)
    }

    /// Takes a payload that the host received for the UDP flow with `handle`.
    pub fn on_udp_receive(
        &mut self,
        handle: u64,
        payload: &[u8],
        policy: &mut PolicyManager,
        telemetry: &mut Telemetry,
        tick: Tick,
    ) -> (accepted: bool)
        requires
            old(self).wf(),
            old(policy).wf(),
            old(telemetry).wf(),
        ensures
            final(self).wf(),
            final(policy).wf(),
            final(telemetry).wf(),
            final(self).same_settings(old(self)),
            descends(old(self).flows@, final(self).flows@),
            forward_outcome(
                old(self)@,
                final(self)@,
                old(policy)@,
                final(policy)@,
                old(telemetry)@,
                final(telemetry)@,
                handle,
                payload@,
                FlowKind::Udp,
                false,
                tick,
                accepted,
            ),
            forward_sockets(
                *old(self),
                *final(self),
                handle,
                payload@,
                FlowKind::Udp,
                false,
                accepted,
            ),
    {
        self.forward_remote_payload(handle, payload, FlowKind::Udp, policy, telemetry, tick)
    }

    /// Notes that the host closed its side of the TCP flow with `handle`:
    /// the socket of the flow closes its sending half. The flow leaves the
    /// table at a later tick, when the socket has come to an end.
    pub fn on_tcp_close(&mut self, handle: u64)
        requires
            old(self).wf(),
        ensures
            final(self).wf(),
            final(self).same_settings(old(self)),
            final(self).outbox == old(self).outbox,
            final(self).counters == old(self).counters,
            final(self).stats == old(self).stats,
            final(self).jitter_state == old(self).jitter_state,
            ({
                let index = handle_index(old(self).flows@, handle, 0);
                if index >= 0 && old(self).flows@[index].kind is Tcp {
                    flow_replaced(
                        old(self).flows@,
                        final(self).flows@,
                        index,
                        FlowView { server_closed: true, ..old(self).flows@[index]@ },
                    )
                } else {
                    final(self).flows@ == old(self).flows@
                }
            }),
            ({
                let index = handle_index(old(self).flows@, handle, 0);
                if index >= 0 && old(self).flows@[index].kind is Tcp {
                    let socket = old(self).flows@[index].socket;
                    &&& socket_kinds(final(self).sockets) == socket_kinds(old(self).sockets)
                    &&& tcp_state_answer(final(self).sockets, socket) == state_after_close(
                        tcp_state_answer(old(self).sockets, socket),
                    )
                } else {
                    final(self).sockets == old(self).sockets
                }
            }),
    {
        let index = match self.find_handle(handle) {
            Some(i) => i,
            None => {
                return ;
            },
        };
        let ghost before = self.flows@;
        proof {
            assert(before[index as int].wf());
        }
        match self.flows[index].kind {
            FlowKind::Tcp => {
                self.flows[index].mark_server_closed();
                tcp_close(&mut self.sockets, self.flows[index].socket);
                proof {
                    lemma_update_keeps_table(
                        before,
                        self.flows@,
                        index as int,
                        self.limits,
                        self.next_flow_id,
                        socket_kinds(self.sockets),
                    );
                }
            },
            FlowKind::Udp => {},
        }
    }

    /// Removes the flow with `handle`, which the host closed.
    pub fn on_udp_close(&mut self, handle: u64)
        requires
            old(self).wf(),
        ensures
            final(self).wf(),
            final(self).same_settings(old(self)),
            final(self).flows@ == if handle_index(old(self).flows@, handle, 0) >= 0 {
                old(self).flows@.remove(handle_index(old(self).flows@, handle, 0))
            } else {
                old(self).flows@
            },
            !live_handles(final(self).flows@).contains(handle),
            socket_kinds(final(self).sockets) == sockets_without(*old(self), handle),
            final(self).outbox == old(self).outbox,
            final(self).counters == old(self).counters,
            final(self).stats == old(self).stats,
            final(self).jitter_state == old(self).jitter_state,
    {
        let _ = self.remove_flow(handle);
    }

    /// Called when the host could not send on the TCP flow with `handle`:
    /// the socket of the flow is reset, and the flow leaves the table at once.
    pub fn on_tcp_send_failed(&mut self, handle: u64, error: Option<&str>)
        requires
            old(self).wf(),
        ensures
            final(self).wf(),
            final(self).same_settings(old(self)),
            final(self).flows@ == if handle_index(old(self).flows@, handle, 0) >= 0 {
                old(self).flows@.remove(handle_index(old(self).flows@, handle, 0))
            } else {
                old(self).flows@
            },
            !live_handles(final(self).flows@).contains(handle),
            socket_kinds(final(self).sockets) == sockets_without(*old(self), handle),
            final(self).outbox == old(self).outbox,
            final(self).counters == old(self).counters,
            final(self).stats == old(self).stats,
            final(self).jitter_state == old(self).jitter_state,
    {
        let _ = self.remove_flow(handle);
    }

    /// Called when the host could not send on the UDP flow with `handle`:
    /// the flow leaves the table at once.
    pub fn on_udp_send_failed(&mut self, handle: u64, error: Option<&str>)
        requires
            old(self).wf(),
        ensures
            final(self).wf(),
            final(self).same_settings(old(self)),
            final(self).flows@ == if handle_index(old(self).flows@, handle, 0) >= 0 {
                old(self).flows@.remove(handle_index(old(self).flows@, handle, 0))
            } else {
                old(self).flows@
            },
            !live_handles(final(self).flows@).contains(handle),
            socket_kinds(final(self).sockets) == sockets_without(*old(self), handle),
            final(self).outbox == old(self).outbox,
            final(self).counters == old(self).counters,
            final(self).stats == old(self).stats,
            final(self).jitter_state == old(self).jitter_state,
    {
        let _ = self.remove_flow(handle);
    }

    /// Collects what the client sent on the ready flows: the runs of bytes
    /// that the TCP sockets hold, and the datagrams that the UDP sockets
    /// hold, become send requests for the host. The ready flows are listed
    /// first, and then worked through in the order of the table, the TCP
    /// flows before the UDP flows. The table stays as it is.
    #[verifier::rlimit(50)]
    pub fn flush_outbound(&mut self)
        requires
            old(self).wf(),
        ensures
            outbound_flushed(
                *old(self),
                *final(self),
            ),
    {
        proof {
            reveal(outbound_flushed);
        }
        let ghost flows = self.flows@;
        let ghost tcp0 = self.outbox@.tcp_sends;
        let ghost udp0 = self.outbox@.udp_sends;
        let mut tcp_ready = new_list();
        let mut udp_ready = new_list();
        let mut i: usize = 0;
        while i < self.flows.len()
            invariant
                *self == *old(self),
                self.flows@ == flows,
                i <= flows.len(),
                all_ready(flows, listed(tcp_ready)),
                all_ready(flows, listed(udp_ready)),
                listed(tcp_ready) == ready_positions(flows.take(i as int), FlowKind::Tcp),
                listed(udp_ready) == ready_positions(flows.take(i as int), FlowKind::Udp),
            decreases flows.len() - i,
        {
            proof {
                assert(flows.take(i + 1).drop_last() =~= flows.take(i as int));
                assert(flows.take(i + 1).last() == flows[i as int]);
            }
            if self.flows[i].ready {
                match self.flows[i].kind {
                    FlowKind::Tcp => list_push(&mut tcp_ready, i),
                    FlowKind::Udp => list_push(&mut udp_ready, i),
                }
            }
            i = i + 1;
        }
        proof {
            assert(tcp0.skip(tcp0.len() as int) =~= Seq::<SendRequestView>::empty());
            assert(udp0.skip(udp0.len() as int) =~= Seq::<SendRequestView>::empty());
            assert(flows.take(flows.len() as int) =~= flows);
            assert(listed(tcp_ready).take(0) =~= Seq::<usize>::empty());
        }
        let tcp_count = list_len(&tcp_ready);
        let mut j: usize = 0;
        while j < tcp_count
            invariant
                tcp_count == listed(tcp_ready).len(),
                j <= tcp_count,
                all_ready(flows, listed(tcp_ready)),
                listed(tcp_ready) == ready_positions(flows, FlowKind::Tcp),
                listed(udp_ready) == ready_positions(flows, FlowKind::Udp),
                flushed_through(*old(self), *self, listed(tcp_ready).take(j as int)),
                self.wf(),
                self.same_settings(old(self)),
                self.flows@ == flows,
                flows == old(self).flows@,
                tcp0 == old(self).outbox@.tcp_sends,
                udp0 == old(self).outbox@.udp_sends,
                self.counters == old(self).counters,
                self.jitter_state == old(self).jitter_state,
                self.outbox@.frames == old(self).outbox@.frames,
                self.outbox@.closes == old(self).outbox@.closes,
                self.outbox@.dials == old(self).outbox@.dials,
                self.outbox@.dns_records == old(self).outbox@.dns_records,
                tcp0.is_prefix_of(self.outbox@.tcp_sends),
                udp0.is_prefix_of(self.outbox@.udp_sends),
                sends_from(flows, FlowKind::Tcp, self.outbox@.tcp_sends.skip(tcp0.len() as int)),
                sends_from(flows, FlowKind::Udp, self.outbox@.udp_sends.skip(udp0.len() as int)),
                self.stats == (FlowStats {
                    tcp_flush_events: raised(
                        old(self).stats.tcp_flush_events,
                        (self.outbox@.tcp_sends.len() - tcp0.len()) as nat,
                    ),
                    udp_flush_events: raised(
                        old(self).stats.udp_flush_events,
                        (self.outbox@.udp_sends.len() - udp0.len()) as nat,
                    ),
                    bytes_emitted: raised(
                        old(self).stats.bytes_emitted,
                        send_bytes(self.outbox@.tcp_sends.skip(tcp0.len() as int)) + send_bytes(
                            self.outbox@.udp_sends.skip(udp0.len() as int),
                        ),
                    ),
                    ..old(self).stats
                }),
            decreases tcp_count - j,
        {
            let at = list_at(&tcp_ready, j);
            let ghost before = *self;
            self.flush_flow(at, Ghost(tcp0), Ghost(udp0));
            proof {
                let done = listed(tcp_ready).take(j as int);
                lemma_flushed_step(*old(self), before, *self, done, at);
                assert(listed(tcp_ready).take(j + 1) =~= done.push(at));
            }
            j = j + 1;
        }
        let ghost mid = *self;
        proof {
            assert(listed(tcp_ready).take(tcp_count as int) =~= listed(tcp_ready));
            assert(listed(udp_ready).take(0) =~= Seq::<usize>::empty());
        }
        let udp_count = list_len(&udp_ready);
        let mut k: usize = 0;
        while k < udp_count
            invariant
                udp_count == listed(udp_ready).len(),
                k <= udp_count,
                all_ready(flows, listed(udp_ready)),
                flushed_through(*old(self), mid, ready_positions(flows, FlowKind::Tcp)),
                flushed_through(mid, *self, listed(udp_ready).take(k as int)),
                listed(udp_ready) == ready_positions(flows, FlowKind::Udp),
                self.wf(),
                self.same_settings(old(self)),
                self.flows@ == flows,
                flows == old(self).flows@,
                tcp0 == old(self).outbox@.tcp_sends,
                udp0 == old(self).outbox@.udp_sends,
                self.counters == old(self).counters,
                self.jitter_state == old(self).jitter_state,
                self.outbox@.frames == old(self).outbox@.frames,
                self.outbox@.closes == old(self).outbox@.closes,
                self.outbox@.dials == old(self).outbox@.dials,
                self.outbox@.dns_records == old(self).outbox@.dns_records,
                tcp0.is_prefix_of(self.outbox@.tcp_sends),
                udp0.is_prefix_of(self.outbox@.udp_sends),
                sends_from(flows, FlowKind::Tcp, self.outbox@.tcp_sends.skip(tcp0.len() as int)),
                sends_from(flows, FlowKind::Udp, self.outbox@.udp_sends.skip(udp0.len() as int)),
                self.stats == (FlowStats {
                    tcp_flush_events: raised(
                        old(self).stats.tcp_flush_events,
                        (self.outbox@.tcp_sends.len() - tcp0.len()) as nat,
                    ),
                    udp_flush_events: raised(
                        old(self).stats.udp_flush_events,
                        (self.outbox@.udp_sends.len() - udp0.len()) as nat,
                    ),
                    bytes_emitted: raised(
                        old(self).stats.bytes_emitted,
                        send_bytes(self.outbox@.tcp_sends.skip(tcp0.len() as int)) + send_bytes(
                            self.outbox@.udp_sends.skip(udp0.len() as int),
                        ),
                    ),
                    ..old(self).stats
                }),
            decreases udp_count - k,
        {
            let at = list_at(&udp_ready, k);
            let ghost before = *self;
            self.flush_flow(at, Ghost(tcp0), Ghost(udp0));
            proof {
                let done = listed(udp_ready).take(k as int);
                lemma_flushed_step(mid, before, *self, done, at);
                assert(listed(udp_ready).take(k + 1) =~= done.push(at));
            }
            k = k + 1;
        }
        proof {
            assert(listed(udp_ready).take(udp_count as int) =~= listed(udp_ready));
        }
    }

    /// Hands on what a socket gave for the flow with `handle`: a datagram,
    /// or a run of bytes that is not empty, becomes a send request for the
    /// host and is counted. Says whether anything was handed on.
    pub fn collect_chunk(&mut self, handle: u64, kind: FlowKind, chunk: Option<Vec<u8>>) -> (more: bool)
        ensures
            more == chunk_counts(kind, chunk_view(chunk)),
            final(self)@ == if more {
                with_chunk(old(self)@, handle, kind, chunk->0@)
            } else {
                old(self)@
            },
            final(self).sockets == old(self).sockets,
            final(self).memory == old(self).memory,
            final(self).limits == old(self).limits,
            final(self).next_flow_id == old(self).next_flow_id,
            final(self).flows == old(self).flows,
    {
        match chunk {
            Some(bytes) => {
                let len = bytes.len();
                match kind {
                    FlowKind::Tcp => {
                        if len == 0 {
                            return false;
                        }
                        self.outbox.add_tcp_send(handle, bytes);
                        self.stats.tcp_flush_events = bump(self.stats.tcp_flush_events);
                    },
                    FlowKind::Udp => {
                        self.outbox.add_udp_send(handle, bytes);
                        self.stats.udp_flush_events = bump(self.stats.udp_flush_events);
                    },
                }
                self.stats.bytes_emitted = raise(self.stats.bytes_emitted, len);
                true
            },
            None => false,
        }
    }

    /// Collects what the client sent on the ready flow at `index`.
    fn flush_flow(
        &mut self,
        index: usize,
        Ghost(tcp0): Ghost<Seq<SendRequestView>>,
        Ghost(udp0): Ghost<Seq<SendRequestView>>,
    )
        requires
            old(self).wf(),
            index < old(self).flows@.len(),
            old(self).flows@[index as int].ready,
            tcp0.is_prefix_of(old(self).outbox@.tcp_sends),
            udp0.is_prefix_of(old(self).outbox@.udp_sends),
        ensures
            final(self).wf(),
            final(self).same_settings(old(self)),
            final(self).flows@ == old(self).flows@,
            final(self).counters == old(self).counters,
            final(self).jitter_state == old(self).jitter_state,
            final(self).outbox@.frames == old(self).outbox@.frames,
            final(self).outbox@.closes == old(self).outbox@.closes,
            final(self).outbox@.dials == old(self).outbox@.dials,
            final(self).outbox@.dns_records == old(self).outbox@.dns_records,
            tcp0.is_prefix_of(final(self).outbox@.tcp_sends),
            udp0.is_prefix_of(final(self).outbox@.udp_sends),
            sends_from(
                old(self).flows@,
                FlowKind::Tcp,
                old(self).outbox@.tcp_sends.skip(tcp0.len() as int),
            ) ==> sends_from(
                old(self).flows@,
                FlowKind::Tcp,
                final(self).outbox@.tcp_sends.skip(tcp0.len() as int),
            ),
            sends_from(
                old(self).flows@,
                FlowKind::Udp,
                old(self).outbox@.udp_sends.skip(udp0.len() as int),
            ) ==> sends_from(
                old(self).flows@,
                FlowKind::Udp,
                final(self).outbox@.udp_sends.skip(udp0.len() as int),
            ),
            final(self).stats == (FlowStats {
                tcp_flush_events: raised(
                    old(self).stats.tcp_flush_events,
                    (final(self).outbox@.tcp_sends.len() - old(self).outbox@.tcp_sends.len()) as nat,
                ),
                udp_flush_events: raised(
                    old(self).stats.udp_flush_events,
                    (final(self).outbox@.udp_sends.len() - old(self).outbox@.udp_sends.len()) as nat,
                ),
                bytes_emitted: raised(
                    old(self).stats.bytes_emitted,
                    (send_bytes(final(self).outbox@.tcp_sends.skip(tcp0.len() as int)) + send_bytes(
                        final(self).outbox@.udp_sends.skip(udp0.len() as int),
                    ) - send_bytes(old(self).outbox@.tcp_sends.skip(tcp0.len() as int)) - send_bytes(
                        old(self).outbox@.udp_sends.skip(udp0.len() as int),
                    )) as nat,
                ),
                ..old(self).stats
            }),
            send_bytes(final(self).outbox@.tcp_sends.skip(tcp0.len() as int)) >= send_bytes(
                old(self).outbox@.tcp_sends.skip(tcp0.len() as int),
            ),
            send_bytes(final(self).outbox@.udp_sends.skip(udp0.len() as int)) >= send_bytes(
                old(self).outbox@.udp_sends.skip(udp0.len() as int),
            ),
            final(self).outbox@.tcp_sends.len() >= old(self).outbox@.tcp_sends.len(),
            final(self).outbox@.udp_sends.len() >= old(self).outbox@.udp_sends.len(),
            flow_flushed(*old(self), *final(self), index as int),
    {
        let ghost flows = self.flows@;
        proof {
            assert(flows[index as int].wf());
        }
        let socket = self.flows[index].socket;
        let handle = self.flows[index].handle;
        let kind = self.flows[index].kind;
        let limit: usize = match kind {
            FlowKind::Tcp => MAX_TCP_CHUNKS,
            FlowKind::Udp => UDP_PACKET_METADATA,
        };
        let ghost tcp1 = self.outbox@.tcp_sends;
        let ghost udp1 = self.outbox@.udp_sends;
        let ghost first = next_chunk(self.sockets, socket, kind);
        let mut taken: usize = 0;
        let mut more = true;
        while more && taken < limit
            invariant
                self.wf(),
                self.same_settings(old(self)),
                self.flows@ == flows,
                flows == old(self).flows@,
                index < flows.len(),
                flows[index as int].ready,
                flows[index as int].socket == socket,
                flows[index as int].handle == handle,
                flows[index as int].kind == kind,
                tcp1 == old(self).outbox@.tcp_sends,
                udp1 == old(self).outbox@.udp_sends,
                tcp0.is_prefix_of(tcp1),
                udp0.is_prefix_of(udp1),
                self.counters == old(self).counters,
                self.jitter_state == old(self).jitter_state,
                self.outbox@.frames == old(self).outbox@.frames,
                self.outbox@.closes == old(self).outbox@.closes,
                self.outbox@.dials == old(self).outbox@.dials,
                self.outbox@.dns_records == old(self).outbox@.dns_records,
                tcp1.is_prefix_of(self.outbox@.tcp_sends),
                udp1.is_prefix_of(self.outbox@.udp_sends),
                sends_from(flows, FlowKind::Tcp, tcp1.skip(tcp0.len() as int)) ==> sends_from(
                    flows,
                    FlowKind::Tcp,
                    self.outbox@.tcp_sends.skip(tcp0.len() as int),
                ),
                sends_from(flows, FlowKind::Udp, udp1.skip(udp0.len() as int)) ==> sends_from(
                    flows,
                    FlowKind::Udp,
                    self.outbox@.udp_sends.skip(udp0.len() as int),
                ),
                send_bytes(self.outbox@.tcp_sends.skip(tcp0.len() as int)) >= send_bytes(
                    tcp1.skip(tcp0.len() as int),
                ),
                send_bytes(self.outbox@.udp_sends.skip(udp0.len() as int)) >= send_bytes(
                    udp1.skip(udp0.len() as int),
                ),
                self.stats == (FlowStats {
                    tcp_flush_events: raised(
                        old(self).stats.tcp_flush_events,
                        (self.outbox@.tcp_sends.len() - tcp1.len()) as nat,
                    ),
                    udp_flush_events: raised(
                        old(self).stats.udp_flush_events,
                        (self.outbox@.udp_sends.len() - udp1.len()) as nat,
                    ),
                    bytes_emitted: raised(
                        old(self).stats.bytes_emitted,
                        (send_bytes(self.outbox@.tcp_sends.skip(tcp0.len() as int)) + send_bytes(
                            self.outbox@.udp_sends.skip(udp0.len() as int),
                        ) - send_bytes(tcp1.skip(tcp0.len() as int)) - send_bytes(
                            udp1.skip(udp0.len() as int),
                        )) as nat,
                    ),
                    ..old(self).stats
                }),
                limit > 0,
                limit == (match kind {
                    FlowKind::Tcp => MAX_TCP_CHUNKS,
                    FlowKind::Udp => UDP_PACKET_METADATA,
                }),
                taken <= limit,
                match kind {
                    FlowKind::Tcp => self.outbox@.udp_sends == udp1 && self.outbox@.tcp_sends.len()
                        == tcp1.len() + taken,
                    FlowKind::Udp => self.outbox@.tcp_sends == tcp1 && self.outbox@.udp_sends.len()
                        == udp1.len() + taken,
                },
                first == next_chunk(old(self).sockets, socket, kind),
                (taken == 0 && more) ==> self@ == old(self)@ && self.sockets == old(self).sockets,
                (taken == 0 && !more) ==> !chunk_counts(kind, first) && self@ == old(self)@,
                taken > 0 ==> chunk_counts(kind, first) && batch_extends(
                    with_chunk(old(self)@, handle, kind, first->0).outbox,
                    self.outbox@,
                ),
            decreases
                    (if more {
                        1int
                    } else {
                        0int
                    }),
                    limit - taken,
        {
            let ghost engine = self@;
            let ghost tcp_now = self.outbox@.tcp_sends;
            let ghost udp_now = self.outbox@.udp_sends;
            let chunk = match kind {
                FlowKind::Tcp => if tcp_can_recv(&self.sockets, socket) {
                    tcp_recv(&mut self.sockets, socket)
                } else {
                    None
                },
                FlowKind::Udp => udp_recv(&mut self.sockets, socket),
            };
            let ghost given = chunk_view(chunk);
            more = self.collect_chunk(handle, kind, chunk);
            if more {
                proof {
                    let send = SendRequestView { handle, payload: given->0, kind };
                    lemma_chunk_extends(engine, handle, kind, given->0);
                    assert(flows[index as int].handle == handle);
                    assert(ready_flow_of(flows, kind, handle));
                    match kind {
                        FlowKind::Tcp => {
                            assert(self.outbox@.tcp_sends.skip(tcp0.len() as int) =~= tcp_now.skip(
                                tcp0.len() as int,
                            ).push(send));
                            lemma_send_bytes_push(tcp_now.skip(tcp0.len() as int), send);
                        },
                        FlowKind::Udp => {
                            assert(self.outbox@.udp_sends.skip(udp0.len() as int) =~= udp_now.skip(
                                udp0.len() as int,
                            ).push(send));
                            lemma_send_bytes_push(udp_now.skip(udp0.len() as int), send);
                        },
                    }
                    if taken > 0 {
                        lemma_extends_chain(
                            with_chunk(old(self)@, handle, kind, first->0).outbox,
                            engine.outbox,
                            self.outbox@,
                        );
                    } else {
                        lemma_extends_self(self.outbox@);
                    }
                }
                taken = taken + 1;
            }
        }
    }
}

/// What a payload that leaves the head of the delay line of the flow at
/// `index` leaves behind, when no flow before it has a payload that may
/// leave: the frames that are collected and the frames that are still to
/// come are together what they were; the flow has left the table, or stands
/// there under its handle with the rest of its line.
pub proof fn lemma_head_left(
    old: EngineView,
    new: EngineView,
    index: int,
    payload: Seq<u8>,
    now: u64,
    accepted: bool,
)
    requires
        0 <= index < old.flows.len(),
        old.flows[index].ready,
        has_ready_head(old.flows[index]@, now),
        old.flows[index]@.shaping->0.queue[0].payload == payload,
        forall|j: int| 0 <= j < index ==> !has_ready_head((#[trigger] old.flows[j])@, now),
        routed(old, new, index, payload, true, now, accepted),
    ensures
        new.outbox.frames + pending_frames(new.flows, now, old.callbacks_installed)
            == old.outbox.frames + pending_frames(old.flows, now, old.callbacks_installed),
        new.outbox.dials == old.outbox.dials,
        new.outbox.tcp_sends == old.outbox.tcp_sends,
        new.outbox.udp_sends == old.outbox.udp_sends,
        new.outbox.frames.len() > old.outbox.frames.len() ==> accepted,
        old.outbox.frames.is_prefix_of(new.outbox.frames),
        new.flows == old.flows.remove(index) || {
            &&& new.flows.len() == old.flows.len()
            &&& forall|k: int|
                0 <= k < old.flows.len() && k != index ==> #[trigger] new.flows[k] == old.flows[k]
            &&& new.flows[index].handle == old.flows[index].handle
            &&& rest_of_line(new.flows[index]@, now) == rest_of_line(old.flows[index]@, now)
        },
{
    let callbacks = old.callbacks_installed;
    let flow = old.flows[index];
    let queue = line_of(flow@);
    let before = old.flows.take(index);
    let behind = old.flows.skip(index + 1);
    lemma_pending_split(old.flows, index, now, callbacks);
    assert forall|j: int| 0 <= j < before.len() implies !has_ready_head(
        (#[trigger] before[j])@,
        now,
    ) by {
        assert(before[j] == old.flows[j]);
    }
    lemma_pending_none(before, now, callbacks);
    if new.flows == old.flows.remove(index) {
        assert(new.flows =~= before + behind);
        lemma_pending_concat(before, behind, now, callbacks);
        assert(flow_frames(flow, now, callbacks) =~= Seq::<Seq<u8>>::empty());
        assert(new.outbox.frames == old.outbox.frames);
        assert(new.outbox.frames + pending_frames(new.flows, now, callbacks) =~= old.outbox.frames
            + pending_frames(old.flows, now, callbacks));
    } else {
        assert(new.flows.len() == old.flows.len());
        lemma_pending_split(new.flows, index, now, callbacks);
        assert(new.flows.take(index) =~= before);
        assert(new.flows.skip(index + 1) =~= behind);
        assert(line_of(new.flows[index]@) =~= queue.drop_first());
        crate::flow_manager::state::lemma_ready_count_bound(queue.drop_first(), now);
        assert(ready_count(queue, now) == 1 + ready_count(queue.drop_first(), now));
        assert(queue.skip(ready_count(queue, now) as int) =~= queue.drop_first().skip(
            ready_count(queue.drop_first(), now) as int,
        ));
        if flow.kind is Udp && accepted {
            let frame = udp_response_frame(
                flow.key.src_ip,
                flow.key.src_port,
                flow.key.dst_ip,
                flow.key.dst_port,
                payload,
            )->0;
            assert(new.outbox.frames == old.outbox.frames.push(frame));
            assert(flow_frames(flow, now, callbacks) =~= seq![frame] + flow_frames(
                new.flows[index],
                now,
                callbacks,
            ));
            assert(new.outbox.frames + pending_frames(new.flows, now, callbacks)
                =~= old.outbox.frames + pending_frames(old.flows, now, callbacks));
        } else {
            assert(new.outbox.frames == old.outbox.frames);
            assert(flow_frames(flow, now, callbacks) =~= Seq::<Seq<u8>>::empty());
            assert(flow_frames(new.flows[index], now, callbacks) =~= Seq::<Seq<u8>>::empty());
            assert(new.outbox.frames + pending_frames(new.flows, now, callbacks)
                =~= old.outbox.frames + pending_frames(old.flows, now, callbacks));
        }
    }
}

/// What a payload from the delay line of the flow at `index` comes to for
/// the table: the flow leaves the table, or it stays without the oldest
/// payload of its line; every other flow stays as it is.
pub proof fn lemma_bypass_progress(
    old: EngineView,
    new: EngineView,
    index: int,
    payload: Seq<u8>,
    now: u64,
    accepted: bool,
)
    requires
        0 <= index < old.flows.len(),
        old.flows[index].ready,
        old.flows[index]@.shaping is Some,
        old.flows[index]@.shaping->0.queue.len() > 0,
        routed(old, new, index, payload, true, now, accepted),
    ensures
        new.flows == old.flows.remove(index) || {
            &&& new.flows.len() == old.flows.len()
            &&& forall|k: int| 0 <= k < old.flows.len() && k != index ==> #[trigger] new.flows[k] == old.flows[k]
            &&& new.flows[index]@.shaping is Some
            &&& new.flows[index]@.shaping->0.queue == old.flows[index]@.shaping->0.queue.drop_first()
        },
{
}

impl FlowManager {
    /// Flushes the buffer of every ready flow whose time for a try has
    /// come; says whether it flushed any.
    #[verifier::rlimit(50)]
    pub fn flush_ready_buffers(&mut self, now: u64) -> (did_work: bool)
        requires
            old(self).wf(),
        ensures
            ready_buffers_flushed(
                *old(self),
                *final(self),
                now,
                did_work,
            ),
    {
        proof {
            reveal(ready_buffers_flushed);
        }
        let ghost start = self.flows@;
        let ghost seen: int = 0;
        let mut did_work = false;
        let mut i: usize = 0;
        proof {
            lemma_descends_self(start);
            lemma_extends_self(self.outbox@);
        }
        while i < self.flows.len()
            invariant
                self.wf(),
                self.same_settings(old(self)),
                descends(start, self.flows@),
                start == old(self).flows@,
                0 <= seen <= start.len(),
                i <= self.flows@.len(),
                self.flows@.len() - i == start.len() - seen,
                forall|j: int| i <= j < self.flows@.len() ==> #[trigger] self.flows@[j] == start[j - i + seen],
                did_work == any_flush_due(start, seen, now),
                buffers_flushed(*old(self), *self, seen as nat, now),
                closes_final(old(self).outbox@.closes, self.outbox@.closes, self.flows@),
                self.counters == old(self).counters,
                self.stats == old(self).stats,
                self.jitter_state == old(self).jitter_state,
                self.outbox@.frames == old(self).outbox@.frames,
                self.outbox@.dials == old(self).outbox@.dials,
                self.outbox@.dns_records == old(self).outbox@.dns_records,
                self.outbox@.tcp_sends == old(self).outbox@.tcp_sends,
                batch_extends(old(self).outbox@, self.outbox@),
            decreases self.flows@.len() - i,
        {
            let ghost before = self.flows@;
            let ghost turn = *self;
            proof {
                assert(before[i as int].wf());
            }
            let due = self.flows[i].ready && self.flows[i].buffered.len() > 0
                && match self.flows[i].backpressure_retry_at {
                Some(deadline) => deadline <= now,
                None => true,
            };
            proof {
                assert(before[i as int] == start[seen]);
                assert(due == flush_due(start[seen]@, now));
                assert(any_flush_due(start, seen + 1, now) == (any_flush_due(start, seen, now)
                    || due)) by {
                    if any_flush_due(start, seen + 1, now) {
                        let k = choose|k: int|
                            0 <= k < seen + 1 && k < start.len() && flush_due(
                                (#[trigger] start[k])@,
                                now,
                            );
                        if k < seen {
                            assert(any_flush_due(start, seen, now));
                        }
                    }
                    if due {
                        assert(flush_due(start[seen]@, now));
                    }
                }
            }
            if due {
                self.flows[i].clear_retry();
                proof {
                    lemma_update_keeps_table(
                        before,
                        self.flows@,
                        i as int,
                        self.limits,
                        self.next_flow_id,
                        socket_kinds(self.sockets),
                    );
                    lemma_replaced_descends(before, self.flows@, i as int);
                    lemma_descends_chain(start, before, self.flows@);
                }
                let ghost cleared = self.flows@;
                let ghost engine = self@;
                let ghost marked = *self;
                let present = self.flush_buffered_payloads(i, now);
                proof {
                    assert(flush_outcome(marked@, self@, i as int));
                    assert(due_flushed(turn, *self, i as int, now));
                }
                proof {
                    lemma_descends_chain(start, cleared, self.flows@);
                    lemma_flush_extends(engine, self@, i as int);
                    lemma_extends_chain(old(self).outbox@, engine.outbox, self.outbox@);
                    lemma_flush_closes(engine, self@, i as int);
                    lemma_descends_chain(before, cleared, self.flows@);
                    lemma_closes_final_chain(
                        old(self).outbox@.closes,
                        engine.outbox.closes,
                        self.outbox@.closes,
                        before,
                        self.flows@,
                    );
                }
                did_work = true;
                proof {
                    assert forall|j: int|
                        i < j < cleared.len() implies #[trigger] cleared[j] == start[j - i + seen] by {
                        assert(cleared[j] == before[j]);
                    }
                }
                if present {
                    i = i + 1;
                }
            } else {
                i = i + 1;
            }
            proof {
                assert(turn_taken(start, turn, *self, seen, now));
                lemma_buffers_step(*old(self), turn, *self, seen as nat, now);
                seen = seen + 1;
            }
        }
        did_work
    }

    /// Lets every payload leave its delay line whose time has come, flow by
    /// flow and oldest first, towards the client; says whether one was
    /// taken on. Afterwards no line holds a payload that may leave.
    #[verifier::rlimit(100)]
    pub fn drain_shaping_queues(
        &mut self,
        policy: &mut PolicyManager,
        telemetry: &mut Telemetry,
        tick: Tick,
    ) -> (did_work: bool)
        requires
            old(self).wf(),
            old(policy).wf(),
            old(telemetry).wf(),
        ensures
            delay_lines_drained(
                *old(self),
                *final(self),
                *old(policy),
                *final(policy),
                *old(telemetry),
                *final(telemetry),
                tick,
                did_work,
            ),
    {
        proof {
            reveal(delay_lines_drained);
        }
        let ghost start = self.flows@;
        let ghost answers: Seq<bool> = Seq::empty();
        let mut did_work = false;
        let mut i: usize = 0;
        let ghost callbacks = self.callbacks_installed;
        proof {
            lemma_descends_self(start);
            lemma_extends_self(self.outbox@);
            assert forall|j: int| 0 <= j < start.len() implies {
                let k = handle_index(start, (#[trigger] start[j]).handle, 0);
                &&& 0 <= k < start.len()
                &&& rest_of_line(start[j]@, tick.now_ms) == rest_of_line(start[k]@, tick.now_ms)
            } by {
                crate::flow_manager::transport::lemma_handle_index_at(start, j);
            }
        }
        while i < self.flows.len()
            invariant
                self.wf(),
                policy.wf(),
                telemetry.wf(),
                start == old(self).flows@,
                callbacks == old(self).callbacks_installed,
                rests_kept(start, self.flows@, tick.now_ms),
                self.outbox@.frames.len() >= old(self).outbox@.frames.len(),
                self.outbox@.frames.len() > old(self).outbox@.frames.len() ==> did_work,
                self.outbox@.dials == old(self).outbox@.dials,
                self.outbox@.tcp_sends == old(self).outbox@.tcp_sends,
                self.outbox@.udp_sends == old(self).outbox@.udp_sends,
                closes_final(old(self).outbox@.closes, self.outbox@.closes, self.flows@),
                self.outbox@.frames + pending_frames(self.flows@, tick.now_ms, callbacks) == old(
                    self,
                ).outbox@.frames + pending_frames(start, tick.now_ms, callbacks),
                self.same_settings(old(self)),
                descends(start, self.flows@),
                batch_extends(old(self).outbox@, self.outbox@),
                self.stats == old(self).stats,
                i <= self.flows@.len(),
                forall|j: int| 0 <= j < i ==> !has_ready_head((#[trigger] self.flows@[j])@, tick.now_ms),
                did_work == answers.contains(true),
                lines_run(
                    *old(self),
                    *self,
                    *old(policy),
                    *policy,
                    *old(telemetry),
                    *telemetry,
                    answers,
                    tick,
                ),
            decreases
                    self.flows@.len() - i,
                    (if i < self.flows@.len() && self.flows@[i as int]@.shaping is Some {
                        self.flows@[i as int]@.shaping->0.queue.len()
                    } else {
                        0nat
                    }),
        {
            let ghost before = self.flows@;
            let ghost engine = self@;
            let ghost policy_before = policy@;
            let ghost ring_before = telemetry@;
            let ghost turn = *self;
            let ghost policy_turn = *policy;
            let ghost ring_turn = *telemetry;
            proof {
                assert(before[i as int].wf());
            }
            let ready = match &self.flows[i].shaping {
                Some(shaper) => {
                    proof {
                        shaper.lemma_payloads();
                    }
                    shaper.peek_ready(tick.now_ms)
                },
                None => None,
            };
            match ready {
                Some(payload) => {
                    let handle = self.flows[i].handle;
                    let kind = self.flows[i].kind;
                    proof {
                        crate::flow_manager::transport::lemma_handle_index_at(before, i as int);
                        assert(before[i as int]@.shaping->0.queue[0].payload.len() > 0);
                    }
                    let accepted = self.forward_remote_payload_inner(
                        handle,
                        payload.as_slice(),
                        kind,
                        true,
                        policy,
                        telemetry,
                        tick,
                    );
                    if accepted {
                        did_work = true;
                    }
                    proof {
                        lemma_first_ready_at(before, tick.now_ms, 0, i as int);
                        lemma_lines_step(
                            *old(self),
                            turn,
                            *self,
                            *old(policy),
                            policy_turn,
                            *policy,
                            *old(telemetry),
                            ring_turn,
                            *telemetry,
                            answers,
                            accepted,
                            tick,
                        );
                        answers = answers.push(accepted);
                        lemma_descends_chain(start, before, self.flows@);
                        lemma_forward_extends(
                            engine,
                            self@,
                            policy_before,
                            policy@,
                            ring_before,
                            telemetry@,
                            handle,
                            payload@,
                            kind,
                            true,
                            tick,
                            accepted,
                        );
                        lemma_extends_chain(old(self).outbox@, engine.outbox, self.outbox@);
                        let dns = crate::flow_manager::transport::carries_dns(before[i as int]@, kind);
                        lemma_bypass_progress(
                            with_dns_records(engine, dns, payload@),
                            self@,
                            i as int,
                            payload@,
                            tick.now_ms,
                            accepted,
                        );
                        lemma_head_left(
                            with_dns_records(engine, dns, payload@),
                            self@,
                            i as int,
                            payload@,
                            tick.now_ms,
                            accepted,
                        );
                        lemma_routed_closes(
                            with_dns_records(engine, dns, payload@),
                            self@,
                            i as int,
                            payload@,
                            true,
                            tick.now_ms,
                            accepted,
                        );
                        lemma_closes_final_chain(
                            old(self).outbox@.closes,
                            engine.outbox.closes,
                            self.outbox@.closes,
                            before,
                            self.flows@,
                        );
                        assert forall|j: int| 0 <= j < self.flows@.len() implies {
                            let k = handle_index(start, (#[trigger] self.flows@[j]).handle, 0);
                            &&& 0 <= k < start.len()
                            &&& rest_of_line(self.flows@[j]@, tick.now_ms) == rest_of_line(
                                start[k]@,
                                tick.now_ms,
                            )
                        } by {
                            if self.flows@ == before.remove(i as int) {
                                let j0 = if j < i {
                                    j
                                } else {
                                    j + 1
                                };
                                assert(self.flows@[j] == before[j0]);
                            } else if j != i {
                                assert(self.flows@[j] == before[j]);
                            } else {
                                assert(self.flows@[j].handle == before[j].handle);
                            }
                        }
                        assert forall|j: int| 0 <= j < i implies !has_ready_head(
                            (#[trigger] self.flows@[j])@,
                            tick.now_ms,
                        ) by {
                            assert(self.flows@[j] == before[j]);
                        }
                    }
                },
                None => {
                    i = i + 1;
                },
            }
        }
        proof {
            lemma_pending_none(self.flows@, tick.now_ms, callbacks);
            assert(self.outbox@.frames =~= self.outbox@.frames + pending_frames(
                self.flows@,
                tick.now_ms,
                callbacks,
            ));
            assert forall|j: int| 0 <= j < self.flows@.len() implies {
                let k = handle_index(start, (#[trigger] self.flows@[j]).handle, 0);
                &&& 0 <= k < start.len()
                &&& line_of(self.flows@[j]@) == rest_of_line(start[k]@, tick.now_ms)
            } by {
                let line = line_of(self.flows@[j]@);
                assert(!has_ready_head(self.flows@[j]@, tick.now_ms));
                assert(ready_count(line, tick.now_ms) == 0);
                assert(line.skip(0) =~= line);
            }
        }
        did_work
    }

    /// One tick of the engine, after the embedded stack was stepped:
    /// `stack_did_work` says whether the stack processed or emitted
    /// anything, and `frames` are the frames that it emitted. Gives whether
    /// the tick did any work, and everything that was collected for the
    /// host. Without callbacks nothing is done.
    #[verifier::rlimit(50)]
    pub fn poll(
        &mut self,
        stack_did_work: bool,
        frames: Vec<Vec<u8>>,
        policy: &mut PolicyManager,
        telemetry: &mut Telemetry,
        tick: Tick,
    ) -> (r: (bool, CallbackBatch))
        requires
            old(self).wf(),
            old(policy).wf(),
            old(telemetry).wf(),
        ensures
            final(self).wf(),
            final(policy).wf(),
            final(telemetry).wf(),
            final(self).same_settings(old(self)),
            !old(self).callbacks_installed ==> {
                &&& !r.0
                &&& r.1@ == empty_batch()
                &&& final(self)@ == old(self)@
                &&& final(policy)@ == old(policy)@
                &&& final(telemetry)@ == old(telemetry)@
            },
            old(self).callbacks_installed ==> {
                &&& descends(old(self).flows@, final(self).flows@)
                &&& final(self).outbox@ == empty_batch()
                &&& batch_extends(
                    BatchView {
                        frames: old(self).outbox@.frames + frames@.map_values(|f: Vec<u8>| f@),
                        ..old(self).outbox@
                    },
                    r.1@,
                )
                &&& final(self).stats.poll_iterations == bumped(old(self).stats.poll_iterations)
                &&& final(self).stats.frames_emitted == raised(
                    old(self).stats.frames_emitted,
                    frames@.len(),
                )
                &&& none_expired(final(self).flows@, PruneRule::IdleUdp, tick.now_ms)
                &&& none_expired(final(self).flows@, PruneRule::DialTimeout, tick.now_ms)
                &&& none_expired(final(self).flows@, PruneRule::StaleTcp, tick.now_ms)
                &&& (stack_did_work || frames@.len() > 0) ==> r.0
                &&& closes_final(old(self).outbox@.closes, r.1@.closes, final(self).flows@)
                &&& exists|
                    begun: FlowManager,
                    collected: FlowManager,
                    finalized: FlowManager,
                    dialled: FlowManager,
                    flushed: FlowManager,
                    drained: FlowManager,
                    idle_reaped: FlowManager,
                    dials_reaped: FlowManager,
                    reaped: FlowManager,
                    dispatched: bool,
                    flushed_any: bool,
                    drained_any: bool,
                    idle: bool,
                    timed_out: bool,
                    stale: bool,
                |
                    #![trigger tick_steps(
                        begun,
                        collected,
                        finalized,
                        dialled,
                        flushed,
                        drained,
                        idle_reaped,
                        dials_reaped,
                        reaped,
                        *old(policy),
                        *final(policy),
                        *old(telemetry),
                        *final(telemetry),
                        tick,
                        dispatched,
                        flushed_any,
                        drained_any,
                        idle,
                        timed_out,
                        stale,
                    )]
                    {
                        &&& tick_begun(*old(self), begun, frames@.map_values(|f: Vec<u8>| f@))
                        &&& tick_steps(
                            begun,
                            collected,
                            finalized,
                            dialled,
                            flushed,
                            drained,
                            idle_reaped,
                            dials_reaped,
                            reaped,
                            *old(policy),
                            *final(policy),
                            *old(telemetry),
                            *final(telemetry),
                            tick,
                            dispatched,
                            flushed_any,
                            drained_any,
                            idle,
                            timed_out,
                            stale,
                        )
                        &&& r.1@ == reaped.outbox@
                        &&& r.1@.dials == old(self).outbox@.dials + dial_requests(
                            finalized.flows@,
                            tick.now_ms,
                        )
                        &&& batch_taken(reaped, *final(self))
                        &&& r.0 == (stack_did_work || frames@.len() > 0 || dispatched || flushed_any
                            || drained_any || idle || timed_out || stale)
                    }
            },
    {
        if !self.callbacks_installed {
            return (false, CallbackBatch::new());
        }
        let now = tick.now_ms;
        let mut did_work = stack_did_work;
        self.stats.poll_iterations = bump(self.stats.poll_iterations);
        if frames.len() > 0 {
            did_work = true;
        }
        let frame_count = frames.len();
        let ghost given = frames@.map_values(|f: Vec<u8>| f@);
        let mut bytes: u64 = 0;
        let mut k: usize = 0;
        proof {
            assert(given.take(0) =~= Seq::<Seq<u8>>::empty());
        }
        while k < frames.len()
            invariant
                k <= frames@.len(),
                given == frames@.map_values(|f: Vec<u8>| f@),
                bytes == raised(0, frame_bytes(given.take(k as int))),
            decreases frames@.len() - k,
        {
            proof {
                assert(given.take(k + 1).drop_last() =~= given.take(k as int));
                assert(given.take(k + 1).last() == frames@[k as int]@);
            }
            bytes = raise(bytes, frames[k].len());
            k = k + 1;
        }
        proof {
            assert(given.take(frames@.len() as int) =~= given);
        }
        self.outbox.add_frames(frames);
        self.stats.frames_emitted = raise(self.stats.frames_emitted, frame_count);
        self.stats.bytes_emitted = if bytes > u64::MAX - self.stats.bytes_emitted {
            u64::MAX
        } else {
            self.stats.bytes_emitted + bytes
        };
        let ghost begun = *self;
        proof {
            lemma_descends_self(self.flows@);
            lemma_prefix_of_concat(old(self).outbox@.frames, given);
            lemma_extends_self(self.outbox@);
        }
        self.flush_outbound();
        let ghost collected = *self;
        proof {
            lemma_outbound_kept(begun, collected);
        }
        self.finalize_closed_flows();
        let ghost finalized = *self;
        proof {
            lemma_finalized_kept(collected, finalized);
            lemma_step_kept_chain(begun, collected, finalized);
        }
        let dispatched = self.dispatch_pending_dials(now);
        if dispatched {
            did_work = true;
        }
        let ghost dialled = *self;
        proof {
            lemma_dispatched_kept(finalized, dialled, now, dispatched);
            lemma_step_kept_chain(begun, finalized, dialled);
        }
        let flushed_any = self.flush_ready_buffers(now);
        if flushed_any {
            did_work = true;
        }
        let ghost flushed = *self;
        proof {
            lemma_buffers_kept(dialled, flushed, now, flushed_any);
            lemma_step_kept_chain(begun, dialled, flushed);
        }
        let drained_any = self.drain_shaping_queues(policy, telemetry, tick);
        if drained_any {
            did_work = true;
        }
        let ghost drained = *self;
        proof {
            lemma_drained_kept(
                flushed,
                drained,
                *old(policy),
                *policy,
                *old(telemetry),
                *telemetry,
                tick,
                drained_any,
            );
            lemma_step_kept_chain(begun, flushed, drained);
        }
        let idle = self.prune(PruneRule::IdleUdp, now);
        if idle {
            did_work = true;
        }
        let ghost idle_reaped = *self;
        proof {
            lemma_pruned_kept(drained, idle_reaped, PruneRule::IdleUdp, now, idle);
            lemma_step_kept_chain(begun, drained, idle_reaped);
        }
        let timed_out = self.prune(PruneRule::DialTimeout, now);
        if timed_out {
            did_work = true;
        }
        let ghost dials_reaped = *self;
        proof {
            lemma_pruned_kept(idle_reaped, dials_reaped, PruneRule::DialTimeout, now, timed_out);
            lemma_step_kept_chain(begun, idle_reaped, dials_reaped);
            lemma_taken_from_keeps(
                idle_reaped.flows@,
                dials_reaped.flows@,
                PruneRule::IdleUdp,
                now,
            );
        }
        let stale = self.prune(PruneRule::StaleTcp, now);
        if stale {
            did_work = true;
        }
        let ghost reaped = *self;
        proof {
            lemma_pruned_kept(dials_reaped, reaped, PruneRule::StaleTcp, now, stale);
            lemma_step_kept_chain(begun, dials_reaped, reaped);
            lemma_taken_from_keeps(dials_reaped.flows@, reaped.flows@, PruneRule::IdleUdp, now);
            lemma_taken_from_keeps(dials_reaped.flows@, reaped.flows@, PruneRule::DialTimeout, now);
        }
        let batch = self.take_batch();
        proof {
            assert(tick_begun(*old(self), begun, given));
            assert(tick_steps(
                begun,
                collected,
                finalized,
                dialled,
                flushed,
                drained,
                idle_reaped,
                dials_reaped,
                reaped,
                *old(policy),
                *policy,
                *old(telemetry),
                *telemetry,
                tick,
                dispatched,
                flushed_any,
                drained_any,
                idle,
                timed_out,
                stale,
            ));
            assert(batch_taken(reaped, *self));
            lemma_extends_chain(
                BatchView {
                    frames: old(self).outbox@.frames + given,
                    ..old(self).outbox@
                },
                begun.outbox@,
                reaped.outbox@,
            );
        }
        (did_work, batch)
    }
}

/// Requesting the dials that are due opens no flow and takes no attempt back.
pub proof fn lemma_dispatch_descends(before: Seq<FlowEntry>, after: Seq<FlowEntry>, now: u64)
    requires
        after.len() == before.len(),
        after == before || forall|i: int|
            0 <= i < before.len() ==> crate::flow_manager::dial::dialled_where_due(
                before[i],
                #[trigger] after[i],
                now,
            ),
    ensures
        descends(before, after),
{
    reveal(descends);
    assert forall|j: int| 0 <= j < after.len() implies crate::flow_manager::has_ancestor(
        before,
        #[trigger] after[j],
    ) by {
        if after == before {
            assert(crate::flow_manager::same_flow(before[j], after[j]));
        } else {
            assert(crate::flow_manager::dial::dialled_where_due(before[j], after[j], now));
            assert(crate::flow_manager::same_flow(before[j], after[j]));
        }
    }
}

} // verus!
