//! The flow engine: the table of flows with their sockets in the embedded
//! stack, and what happens to it with every packet, every callback of the
//! host and every tick. Time comes from the caller; the frames and requests
//! for the host are collected in a batch.

pub mod admission;
pub mod batch;
pub mod checksum;
pub mod dial;
pub mod maintenance;
pub mod packet_builder;
pub mod poll;
pub mod packet_laws;
pub mod queue;
pub mod ready_list;
pub mod sockets;
pub mod state;
pub mod stream;
pub mod transport;

use crate::ffi::{no_counters, no_stats, FlowCounters, FlowStats};
use crate::flow_manager::batch::{empty_batch, BatchView, CallbackBatch, CloseRequestView};
use crate::flow_manager::sockets::{
    new_socket_set, remove_socket, set_grows, socket_kinds, tcp_abort, udp_close,
};
use crate::flow_manager::queue::concat_payloads;
use crate::flow_manager::state::{
    shaped_bytes, FlowEntry, FlowKind, FlowLimits, MemoryTracker, SocketBudget, MAX_DIAL_ATTEMPTS,
};
use smoltcp::iface::{SocketHandle, SocketSet};
use vstd::prelude::*;

verus! {

/// The time of a call: a monotonic count of milliseconds for the timers, and
/// the wall clock in milliseconds since the Unix epoch for telemetry.
#[derive(Clone, Copy, Debug, PartialEq, Eq, Structural)]
pub struct Tick {
    pub now_ms: u64,
    pub unix_ms: u64,
}

/// How many of `flows` are of `kind`.
pub open spec fn count_kind(flows: Seq<FlowEntry>, kind: FlowKind) -> nat
    decreases flows.len(),
{
    if flows.len() == 0 {
        0
    } else {
        count_kind(flows.drop_last(), kind) + if flows.last().kind == kind {
            1nat
        } else {
            0nat
        }
    }
}

/// The cost of the sockets of `flows` under `budget`, flow by flow.
pub open spec fn total_socket_cost(flows: Seq<FlowEntry>, budget: SocketBudget) -> nat
    decreases flows.len(),
{
    if flows.len() == 0 {
        0
    } else {
        total_socket_cost(flows.drop_last(), budget) + if flows.last().kind is Tcp {
            budget.spec_tcp_socket_cost()
        } else {
            budget.spec_udp_socket_cost()
        }
    }
}

/// The index of the first of `flows` at or behind `from` with `handle`, or -1.
pub open spec fn handle_index(flows: Seq<FlowEntry>, handle: u64, from: int) -> int
    decreases flows.len() - from,
{
    if from < 0 || from >= flows.len() {
        -1
    } else if flows[from].handle == handle {
        from
    } else {
        handle_index(flows, handle, from + 1)
    }
}

/// The handles of the flows in the table.
pub open spec fn live_handles(flows: Seq<FlowEntry>) -> Set<u64> {
    Set::new(|h: u64| exists|i: int| 0 <= i < flows.len() && #[trigger] flows[i].handle == h)
}

/// Every flow is in order, has a handle below the next one to be given out,
/// and keeps queues with the limits of the profile.
pub open spec fn entries_wf(flows: Seq<FlowEntry>, limits: FlowLimits, next_id: u64) -> bool {
    forall|i: int|
        0 <= i < flows.len() ==> {
            &&& (#[trigger] flows[i]).wf()
            &&& flows[i].handle < next_id
            &&& flows[i].buffered.spec_max_payloads() == limits.max_buffered_payloads
            &&& flows[i].buffered.spec_max_bytes() == limits.max_buffered_bytes
            &&& flows[i].shaping matches Some(shaper) ==> shaper.spec_max_payloads()
                == limits.max_shaped_payloads && shaper.spec_max_bytes()
                == limits.max_shaped_bytes
        }
}

/// No two flows share a handle, a key or a socket.
pub open spec fn entries_distinct(flows: Seq<FlowEntry>) -> bool {
    forall|i: int, j: int|
        0 <= i < j < flows.len() ==> {
            &&& (#[trigger] flows[i]).handle != (#[trigger] flows[j]).handle
            &&& flows[i].key != flows[j].key
            &&& flows[i].socket != flows[j].socket
        }
}

/// The socket of every flow is held by the set, and is of the kind of the flow.
pub open spec fn sockets_match(flows: Seq<FlowEntry>, kinds: Map<SocketHandle, bool>) -> bool {
    forall|i: int|
        0 <= i < flows.len() ==> kinds.dom().contains((#[trigger] flows[i]).socket)
            && kinds[flows[i].socket] == (flows[i].kind is Tcp)
}

/// The set holds no socket but those of the flows.
#[verifier::opaque]
pub open spec fn no_stray_sockets(flows: Seq<FlowEntry>, kinds: Map<SocketHandle, bool>) -> bool {
    forall|h: SocketHandle| #[trigger]
        kinds.dom().contains(h) ==> exists|i: int|
            0 <= i < flows.len() && (#[trigger] flows[i]).socket == h
}

/// One more flow counts for its own kind.
pub proof fn lemma_count_push(flows: Seq<FlowEntry>, entry: FlowEntry, kind: FlowKind)
    ensures
        count_kind(flows.push(entry), kind) == count_kind(flows, kind) + if entry.kind == kind {
            1nat
        } else {
            0nat
        },
{
    assert(flows.push(entry).drop_last() =~= flows);
}

/// A flow that leaves counted for its own kind.
pub proof fn lemma_count_remove(flows: Seq<FlowEntry>, i: int, kind: FlowKind)
    requires
        0 <= i < flows.len(),
    ensures
        count_kind(flows, kind) == count_kind(flows.remove(i), kind) + if flows[i].kind == kind {
            1nat
        } else {
            0nat
        },
    decreases flows.len(),
{
    if i == flows.len() - 1 {
        assert(flows.remove(i) =~= flows.drop_last());
    } else {
        assert(flows.remove(i).drop_last() =~= flows.drop_last().remove(i));
        assert(flows.remove(i).last() == flows.last());
        lemma_count_remove(flows.drop_last(), i, kind);
    }
}

/// Replacing a flow by one of its kind keeps the counts.
pub proof fn lemma_count_update(flows: Seq<FlowEntry>, i: int, entry: FlowEntry, kind: FlowKind)
    requires
        0 <= i < flows.len(),
        entry.kind == flows[i].kind,
    ensures
        count_kind(flows.update(i, entry), kind) == count_kind(flows, kind),
    decreases flows.len(),
{
    if i == flows.len() - 1 {
        assert(flows.update(i, entry).drop_last() =~= flows.drop_last());
    } else {
        assert(flows.update(i, entry).drop_last() =~= flows.drop_last().update(i, entry));
        lemma_count_update(flows.drop_last(), i, entry, kind);
    }
}

/// Two tables with the kinds of their flows in common count alike.
pub proof fn lemma_count_same_kinds(a: Seq<FlowEntry>, b: Seq<FlowEntry>, kind: FlowKind)
    requires
        a.len() == b.len(),
        forall|i: int| 0 <= i < a.len() ==> (#[trigger] a[i]).kind == b[i].kind,
    ensures
        count_kind(a, kind) == count_kind(b, kind),
    decreases a.len(),
{
    if a.len() > 0 {
        assert(a.last().kind == b.last().kind);
        assert forall|i: int| 0 <= i < a.drop_last().len() implies (#[trigger] a.drop_last()[i]).kind
            == b.drop_last()[i].kind by {
            assert(a[i].kind == b[i].kind);
        }
        lemma_count_same_kinds(a.drop_last(), b.drop_last(), kind);
    }
}

/// A table in which one flow was changed in place, with its identity and the
/// limits of its queues kept, is in order if it was before.
pub proof fn lemma_update_keeps_table(
    before: Seq<FlowEntry>,
    after: Seq<FlowEntry>,
    index: int,
    limits: FlowLimits,
    next_id: u64,
    kinds: Map<SocketHandle, bool>,
)
    requires
        0 <= index < before.len(),
        after.len() == before.len(),
        forall|k: int| 0 <= k < before.len() && k != index ==> #[trigger] after[k] == before[k],
        after[index].wf(),
        after[index].same_limits(&before[index]),
        after[index].handle == before[index].handle,
        after[index].key == before[index].key,
        after[index].socket == before[index].socket,
        after[index].kind == before[index].kind,
        entries_wf(before, limits, next_id),
        entries_distinct(before),
        sockets_match(before, kinds),
    ensures
        entries_wf(after, limits, next_id),
        entries_distinct(after),
        sockets_match(after, kinds),
        no_stray_sockets(before, kinds) ==> no_stray_sockets(after, kinds),
        count_kind(after, FlowKind::Tcp) == count_kind(before, FlowKind::Tcp),
        count_kind(after, FlowKind::Udp) == count_kind(before, FlowKind::Udp),
{
    assert(no_stray_sockets(before, kinds) ==> no_stray_sockets(after, kinds)) by {
        reveal(no_stray_sockets);
        if no_stray_sockets(before, kinds) {
            assert forall|h: SocketHandle| #[trigger] kinds.dom().contains(h) implies exists|i: int|
                0 <= i < after.len() && (#[trigger] after[i]).socket == h by {
                let i = choose|i: int| 0 <= i < before.len() && (#[trigger] before[i]).socket == h;
                if i != index {
                    assert(after[i] == before[i]);
                }
                assert(after[i].socket == h);
            }
        }
    }
    assert forall|k: int| 0 <= k < after.len() implies (#[trigger] after[k]).kind
        == before[k].kind by {
        if k != index {
            assert(after[k] == before[k]);
        }
    }
    lemma_count_same_kinds(after, before, FlowKind::Tcp);
    lemma_count_same_kinds(after, before, FlowKind::Udp);
    assert forall|k: int| 0 <= k < after.len() implies {
        &&& (#[trigger] after[k]).wf()
        &&& after[k].handle < next_id
        &&& after[k].buffered.spec_max_payloads() == limits.max_buffered_payloads
        &&& after[k].buffered.spec_max_bytes() == limits.max_buffered_bytes
        &&& after[k].shaping matches Some(shaper) ==> shaper.spec_max_payloads()
            == limits.max_shaped_payloads && shaper.spec_max_bytes() == limits.max_shaped_bytes
        &&& kinds.dom().contains(after[k].socket)
        &&& kinds[after[k].socket] == (after[k].kind is Tcp)
    } by {
        assert(before[k].wf());
        if k != index {
            assert(after[k] == before[k]);
        }
    }
    assert forall|a: int, b: int| 0 <= a < b < after.len() implies {
        &&& (#[trigger] after[a]).handle != (#[trigger] after[b]).handle
        &&& after[a].key != after[b].key
        &&& after[a].socket != after[b].socket
    } by {
        assert(before[a].handle != before[b].handle);
        if a != index {
            assert(after[a] == before[a]);
        }
        if b != index {
            assert(after[b] == before[b]);
        }
    }
}

/// Whether `b` is the flow `a` at a later time: the same handle, key,
/// socket and kind, with no fewer dial attempts.
pub open spec fn same_flow(a: FlowEntry, b: FlowEntry) -> bool {
    &&& a.handle == b.handle
    &&& a.key == b.key
    &&& a.socket == b.socket
    &&& a.kind == b.kind
    &&& a.dial_attempts <= b.dial_attempts
}

/// Whether `flow` is one of the flows of `old` at a later time.
pub open spec fn has_ancestor(old: Seq<FlowEntry>, flow: FlowEntry) -> bool {
    exists|i: int| 0 <= i < old.len() && same_flow(#[trigger] old[i], flow)
}

/// Whether every flow of `new` is a flow of `old` at a later time: no flow
/// was opened on the way.
#[verifier::opaque]
pub open spec fn descends(old: Seq<FlowEntry>, new: Seq<FlowEntry>) -> bool {
    forall|j: int| 0 <= j < new.len() ==> has_ancestor(old, #[trigger] new[j])
}

/// Every table descends from itself.
pub proof fn lemma_descends_self(flows: Seq<FlowEntry>)
    ensures
        descends(flows, flows),
{
    reveal(descends);
    assert forall|j: int| 0 <= j < flows.len() implies has_ancestor(flows, #[trigger] flows[j]) by {
        assert(same_flow(flows[j], flows[j]));
    }
}

/// A table in which one flow was replaced by a later state of it descends from the table before.
pub proof fn lemma_replaced_descends(before: Seq<FlowEntry>, after: Seq<FlowEntry>, index: int)
    requires
        0 <= index < before.len(),
        after.len() == before.len(),
        forall|k: int| 0 <= k < before.len() && k != index ==> #[trigger] after[k] == before[k],
        same_flow(before[index], after[index]),
    ensures
        descends(before, after),
{
    reveal(descends);
    assert forall|j: int| 0 <= j < after.len() implies has_ancestor(before, #[trigger] after[j]) by {
        if j != index {
            assert(after[j] == before[j]);
        }
        assert(same_flow(before[j], after[j]));
    }
}

/// A table that a flow left descends from the table before.
pub proof fn lemma_removed_descends(before: Seq<FlowEntry>, index: int)
    requires
        0 <= index < before.len(),
    ensures
        descends(before, before.remove(index)),
{
    reveal(descends);
    let after = before.remove(index);
    assert forall|j: int| 0 <= j < after.len() implies has_ancestor(before, #[trigger] after[j]) by {
        let i = if j < index {
            j
        } else {
            j + 1
        };
        assert(after[j] == before[i]);
        assert(same_flow(before[i], after[j]));
    }
}

/// Descent goes on through a table in between.
pub proof fn lemma_descends_chain(a: Seq<FlowEntry>, b: Seq<FlowEntry>, c: Seq<FlowEntry>)
    requires
        descends(a, b),
        descends(b, c),
    ensures
        descends(a, c),
{
    reveal(descends);
    assert forall|j: int| 0 <= j < c.len() implies has_ancestor(a, #[trigger] c[j]) by {
        assert(has_ancestor(b, c[j]));
        let k = choose|k: int| 0 <= k < b.len() && same_flow(#[trigger] b[k], c[j]);
        assert(has_ancestor(a, b[k]));
        let i = choose|i: int| 0 <= i < a.len() && same_flow(#[trigger] a[i], b[k]);
        assert(same_flow(a[i], c[j]));
    }
}

/// The cost of all sockets, flow by flow, is the count of each kind times its cost.
pub proof fn lemma_total_cost_by_count(flows: Seq<FlowEntry>, budget: SocketBudget)
    ensures
        total_socket_cost(flows, budget) == count_kind(flows, FlowKind::Tcp)
            * budget.spec_tcp_socket_cost() + count_kind(flows, FlowKind::Udp)
            * budget.spec_udp_socket_cost(),
    decreases flows.len(),
{
    if flows.len() > 0 {
        lemma_total_cost_by_count(flows.drop_last(), budget);
        let t = count_kind(flows.drop_last(), FlowKind::Tcp);
        let u = count_kind(flows.drop_last(), FlowKind::Udp);
        crate::flow_manager::state::lemma_cost_of_one_more(t, budget.spec_tcp_socket_cost());
        crate::flow_manager::state::lemma_cost_of_one_more(u, budget.spec_udp_socket_cost());
    } else {
        assert(0 * budget.spec_tcp_socket_cost() == 0) by (nonlinear_arith);
        assert(0 * budget.spec_udp_socket_cost() == 0) by (nonlinear_arith);
    }
}

/// No more flows are of one kind than there are flows.
pub proof fn lemma_count_bound(flows: Seq<FlowEntry>, kind: FlowKind)
    ensures
        count_kind(flows, kind) <= flows.len(),
    decreases flows.len(),
{
    if flows.len() > 0 {
        lemma_count_bound(flows.drop_last(), kind);
    }
}

/// The sockets that the set of `engine` holds once the flow with `handle`
/// has left: those it held, without the socket of that flow; all of them,
/// where no flow has the handle.
pub open spec fn sockets_without(engine: FlowManager, handle: u64) -> Map<SocketHandle, bool> {
    let index = handle_index(engine.flows@, handle, 0);
    if index >= 0 {
        socket_kinds(engine.sockets).remove(engine.flows@[index].socket)
    } else {
        socket_kinds(engine.sockets)
    }
}

/// Whether every close that was collected behind `earlier` is the close of
/// a flow that is in the table no more.
pub open spec fn closes_final(
    earlier: Seq<CloseRequestView>,
    closes: Seq<CloseRequestView>,
    flows: Seq<FlowEntry>,
) -> bool {
    forall|k: int|
        earlier.len() <= k < closes.len() ==> !live_handles(flows).contains(
            (#[trigger] closes[k]).handle,
        )
}

/// A flow that has left a table is in no table that descends from it.
pub proof fn lemma_gone_stays_gone(before: Seq<FlowEntry>, after: Seq<FlowEntry>, handle: u64)
    requires
        descends(before, after),
        !live_handles(before).contains(handle),
    ensures
        !live_handles(after).contains(handle),
{
    reveal(descends);
    if live_handles(after).contains(handle) {
        let j = choose|j: int| 0 <= j < after.len() && #[trigger] after[j].handle == handle;
        assert(has_ancestor(before, after[j]));
        let i = choose|i: int| 0 <= i < before.len() && same_flow(#[trigger] before[i], after[j]);
        assert(before[i].handle == handle);
    }
}

/// Closes of flows that have left stay closes of flows that have left,
/// whatever is closed behind them.
pub proof fn lemma_closes_final_chain(
    first: Seq<CloseRequestView>,
    second: Seq<CloseRequestView>,
    third: Seq<CloseRequestView>,
    before: Seq<FlowEntry>,
    after: Seq<FlowEntry>,
)
    requires
        first.is_prefix_of(second),
        second.is_prefix_of(third),
        closes_final(first, second, before),
        closes_final(second, third, after),
        descends(before, after),
    ensures
        closes_final(first, third, after),
{
    assert forall|k: int| first.len() <= k < third.len() implies !live_handles(after).contains(
        (#[trigger] third[k]).handle,
    ) by {
        if k < second.len() {
            assert(third[k] == second[k]);
            lemma_gone_stays_gone(before, after, second[k].handle);
        }
    }
}

/// What one step leaves of the closes: nothing was closed, or the flow at
/// `index` left the table and its close was collected.
pub proof fn lemma_close_with_removal(
    before: Seq<FlowEntry>,
    after: Seq<FlowEntry>,
    earlier: Seq<CloseRequestView>,
    closes: Seq<CloseRequestView>,
    index: int,
)
    requires
        0 <= index < before.len(),
        entries_distinct(before),
        closes == earlier || (after == before.remove(index) && closes.len() == earlier.len() + 1
            && closes[earlier.len() as int].handle == before[index].handle),
    ensures
        closes_final(earlier, closes, after),
{
    if closes != earlier {
        let handle = before[index].handle;
        assert forall|j: int| 0 <= j < after.len() implies (#[trigger] after[j]).handle
            != handle by {
            let j0 = if j < index {
                j
            } else {
                j + 1
            };
            assert(after[j] == before[j0]);
            if j0 < index {
                assert(before[j0].handle != before[index].handle);
            } else {
                assert(before[index].handle != before[j0].handle);
            }
        }
    }
}

/// What the contracts of the engine speak of: the table, what was collected
/// for the host, the counts, and the state of the jitter generator.
pub ghost struct EngineView {
    pub flows: Seq<FlowEntry>,
    pub outbox: BatchView,
    pub counters: FlowCounters,
    pub stats: FlowStats,
    pub jitter_state: u32,
    pub callbacks_installed: bool,
}

/// The flow engine.
pub struct FlowManager {
    /// Whether the host has installed its callbacks: until then nothing is
    /// collected for it.
    pub callbacks_installed: bool,
    pub sockets: SocketSet<'static>,
    pub memory: MemoryTracker,
    /// The flows, in the order in which they were taken in.
    pub flows: Vec<FlowEntry>,
    pub next_flow_id: u64,
    pub counters: FlowCounters,
    pub stats: FlowStats,
    pub limits: FlowLimits,
    /// Fast PRNG state for jitter calculation
    pub jitter_state: u32,
    /// What was collected for the host since it last took the batch.
    pub outbox: CallbackBatch,
}

impl View for FlowManager {
    type V = EngineView;

    open spec fn view(&self) -> EngineView {
        EngineView {
            flows: self.flows@,
            outbox: self.outbox@,
            counters: self.counters,
            stats: self.stats,
            jitter_state: self.jitter_state,
            callbacks_installed: self.callbacks_installed,
        }
    }
}

impl FlowManager {
    /// The invariant of the engine: the flows are distinct and in order, each
    /// owns a socket of its kind, and the memory tracker counts exactly them.
    pub open spec fn wf(&self) -> bool {
        &&& self.limits.wf()
        &&& self.memory.wf()
        &&& self.next_flow_id >= 1
        &&& entries_wf(self.flows@, self.limits, self.next_flow_id)
        &&& entries_distinct(self.flows@)
        &&& sockets_match(self.flows@, socket_kinds(self.sockets))
        &&& no_stray_sockets(self.flows@, socket_kinds(self.sockets))
        &&& set_grows(self.sockets)
        &&& self.memory.tcp_socket_count == count_kind(self.flows@, FlowKind::Tcp)
        &&& self.memory.udp_socket_count == count_kind(self.flows@, FlowKind::Udp)
    }

    /// An engine without flows. The host's callbacks are not installed yet.
    pub fn new(socket_budget: SocketBudget, limits: FlowLimits) -> (r: FlowManager)
        requires
            socket_budget.wf(),
            limits.wf(),
        ensures
            r.wf(),
            r.flows@.len() == 0,
            !r.callbacks_installed,
            r.memory.budget == socket_budget,
            r.memory.current_usage == 0,
            r.limits == limits,
            r.next_flow_id == 1,
            r.outbox@ == empty_batch(),
            r.counters == no_counters(),
            r.stats == no_stats(),
    {
        proof {
            reveal(no_stray_sockets);
        }
        FlowManager {
            callbacks_installed: false,
            sockets: new_socket_set(),
            memory: MemoryTracker::new(socket_budget),
            flows: Vec::new(),
            next_flow_id: 1,
            counters: FlowCounters::default(),
            stats: FlowStats::default(),
            limits,
            jitter_state: 0xDEADBEEF,
            outbox: CallbackBatch::new(),
        }
    }

    /// A copy of the counters.
    pub fn counters(&self) -> (r: FlowCounters)
        ensures
            r == self.counters,
    {
        self.counters
    }

    /// A copy of the statistics.
    pub fn stats(&self) -> (r: FlowStats)
        ensures
            r == self.stats,
    {
        self.stats
    }

    /// Notes that the host has installed its callbacks.
    pub fn install_callbacks(&mut self)
        ensures
            *final(self) == (FlowManager { callbacks_installed: true, ..*old(self) }),
    {
        self.callbacks_installed = true;
    }

    /// Hands over what was collected for the host, and starts a new batch.
    pub fn take_batch(&mut self) -> (batch: CallbackBatch)
        ensures
            batch == old(self).outbox,
            final(self).outbox@ == empty_batch(),
            final(self).callbacks_installed == old(self).callbacks_installed,
            final(self).sockets == old(self).sockets,
            final(self).memory == old(self).memory,
            final(self).flows == old(self).flows,
            final(self).next_flow_id == old(self).next_flow_id,
            final(self).counters == old(self).counters,
            final(self).stats == old(self).stats,
            final(self).limits == old(self).limits,
            final(self).jitter_state == old(self).jitter_state,
    {
        let mut batch = CallbackBatch::new();
        std::mem::swap(&mut batch, &mut self.outbox);
        batch
    }

    /// The place in the table of the flow with `handle`.
    pub fn find_handle(&self, handle: u64) -> (r: Option<usize>)
        ensures
            match r {
                Some(i) => i < self.flows@.len() && self.flows@[i as int].handle == handle
                    && handle_index(self.flows@, handle, 0) == i,
                None => handle_index(self.flows@, handle, 0) == -1 && forall|k: int|
                    0 <= k < self.flows@.len() ==> (#[trigger] self.flows@[k]).handle != handle,
            },
    {
        let mut i: usize = 0;
        while i < self.flows.len()
            invariant
                i <= self.flows@.len(),
                handle_index(self.flows@, handle, 0) == handle_index(self.flows@, handle, i as int),
                forall|k: int| 0 <= k < i ==> (#[trigger] self.flows@[k]).handle != handle,
            decreases self.flows@.len() - i,
        {
            if self.flows[i].handle == handle {
                return Some(i);
            }
            i = i + 1;
        }
        None
    }

    /// The place in the table of the flow with `key`.
    pub fn find_key(&self, key: &crate::flow_manager::state::FlowKey) -> (r: Option<usize>)
        ensures
            match r {
                Some(i) => i < self.flows@.len() && self.flows@[i as int].key == *key,
                None => forall|k: int|
                    0 <= k < self.flows@.len() ==> (#[trigger] self.flows@[k]).key != *key,
            },
    {
        let mut i: usize = 0;
        while i < self.flows.len()
            invariant
                i <= self.flows@.len(),
                forall|k: int| 0 <= k < i ==> (#[trigger] self.flows@[k]).key != *key,
            decreases self.flows@.len() - i,
        {
            if self.flows[i].key == *key {
                return Some(i);
            }
            i = i + 1;
        }
        None
    }

    /// The flow with `handle`, if the table holds it.
    pub fn flow(&self, handle: u64) -> (r: Option<&FlowEntry>)
        ensures
            match r {
                Some(entry) => handle_index(self.flows@, handle, 0) >= 0 && *entry
                    == self.flows@[handle_index(self.flows@, handle, 0)],
                None => handle_index(self.flows@, handle, 0) == -1,
            },
    {
        match self.find_handle(handle) {
            Some(i) => Some(&self.flows[i]),
            None => None,
        }
    }

    /// Takes the flow at `index` out of the table: its socket is reset (TCP)
    /// or closed (UDP) and leaves the set, and its cost goes back to the budget.
    pub(crate) fn remove_at(&mut self, index: usize)
        requires
            old(self).wf(),
            index < old(self).flows@.len(),
        ensures
            final(self).wf(),
            final(self).flows@ == old(self).flows@.remove(index as int),
            socket_kinds(final(self).sockets) == socket_kinds(old(self).sockets).remove(
                old(self).flows@[index as int].socket,
            ),
            final(self).callbacks_installed == old(self).callbacks_installed,
            final(self).next_flow_id == old(self).next_flow_id,
            final(self).counters == old(self).counters,
            final(self).stats == old(self).stats,
            final(self).limits == old(self).limits,
            final(self).jitter_state == old(self).jitter_state,
            final(self).outbox == old(self).outbox,
            final(self).memory.budget == old(self).memory.budget,
            final(self).memory.current_usage + (if old(self).flows@[index as int].kind is Tcp {
                old(self).memory.budget.spec_tcp_socket_cost()
            } else {
                old(self).memory.budget.spec_udp_socket_cost()
            }) == old(self).memory.current_usage,
    {
        let ghost before = self.flows@;
        let ghost kinds = socket_kinds(self.sockets);
        proof {
            lemma_count_remove(before, index as int, FlowKind::Tcp);
            lemma_count_remove(before, index as int, FlowKind::Udp);
            assert(before[index as int].wf());
        }
        let entry = self.flows.remove(index);
        match entry.kind {
            FlowKind::Tcp => {
                tcp_abort(&mut self.sockets, entry.socket);
                remove_socket(&mut self.sockets, entry.socket);
                self.memory.deallocate_tcp();
            },
            FlowKind::Udp => {
                udp_close(&mut self.sockets, entry.socket);
                remove_socket(&mut self.sockets, entry.socket);
                self.memory.deallocate_udp();
            },
        }
        proof {
            let after = self.flows@;
            assert(after =~= before.remove(index as int));
            assert forall|k: int| 0 <= k < after.len() implies {
                &&& (#[trigger] after[k]).wf()
                &&& after[k].handle < self.next_flow_id
                &&& after[k].buffered.spec_max_payloads() == self.limits.max_buffered_payloads
                &&& after[k].buffered.spec_max_bytes() == self.limits.max_buffered_bytes
                &&& after[k].shaping matches Some(shaper) ==> shaper.spec_max_payloads()
                    == self.limits.max_shaped_payloads && shaper.spec_max_bytes()
                    == self.limits.max_shaped_bytes
                &&& socket_kinds(self.sockets).dom().contains(after[k].socket)
                &&& socket_kinds(self.sockets)[after[k].socket] == (after[k].kind is Tcp)
            } by {
                let k0 = if k < index {
                    k
                } else {
                    k + 1
                };
                assert(after[k] == before[k0]);
                assert(before[k0].wf());
                if k0 < index {
                    assert(before[k0].socket != before[index as int].socket);
                } else {
                    assert(before[index as int].socket != before[k0].socket);
                }
            }
            assert forall|a: int, b: int| 0 <= a < b < after.len() implies {
                &&& (#[trigger] after[a]).handle != (#[trigger] after[b]).handle
                &&& after[a].key != after[b].key
                &&& after[a].socket != after[b].socket
            } by {
                let a0 = if a < index {
                    a
                } else {
                    a + 1
                };
                let b0 = if b < index {
                    b
                } else {
                    b + 1
                };
                assert(after[a] == before[a0]);
                assert(after[b] == before[b0]);
                assert(before[a0].handle != before[b0].handle);
            }
            assert(no_stray_sockets(after, socket_kinds(self.sockets))) by {
                reveal(no_stray_sockets);
                assert forall|h: SocketHandle| #[trigger]
                    socket_kinds(self.sockets).dom().contains(h) implies exists|i: int|
                    0 <= i < after.len() && (#[trigger] after[i]).socket == h by {
                    assert(kinds.dom().contains(h));
                    let i0 = choose|i: int| 0 <= i < before.len() && (#[trigger] before[i]).socket == h;
                    let i = if i0 < index {
                        i0
                    } else {
                        i0 - 1
                    };
                    assert(after[i] == before[i0]);
                }
            }
        }
    }

    /// Removes the flow with `handle`, if the table holds it; afterwards the
    /// handle is not live.
    pub fn remove_flow(&mut self, handle: u64) -> (removed: bool)
        requires
            old(self).wf(),
        ensures
            final(self).wf(),
            removed == (handle_index(old(self).flows@, handle, 0) >= 0),
            final(self).flows@ == if removed {
                old(self).flows@.remove(handle_index(old(self).flows@, handle, 0))
            } else {
                old(self).flows@
            },
            !live_handles(final(self).flows@).contains(handle),
            descends(old(self).flows@, final(self).flows@),
            socket_kinds(final(self).sockets) == sockets_without(*old(self), handle),
            final(self).callbacks_installed == old(self).callbacks_installed,
            final(self).next_flow_id == old(self).next_flow_id,
            final(self).counters == old(self).counters,
            final(self).stats == old(self).stats,
            final(self).limits == old(self).limits,
            final(self).jitter_state == old(self).jitter_state,
            final(self).outbox == old(self).outbox,
            final(self).memory.budget == old(self).memory.budget,
    {
        proof {
            lemma_descends_self(self.flows@);
        }
        match self.find_handle(handle) {
            Some(i) => {
                self.remove_at(i);
                proof {
                    lemma_removed_descends(old(self).flows@, i as int);
                    let before = old(self).flows@;
                    let after = self.flows@;
                    assert forall|k: int| 0 <= k < after.len() implies (#[trigger] after[k]).handle
                        != handle by {
                        let k0 = if k < i {
                            k
                        } else {
                            k + 1
                        };
                        assert(after[k] == before[k0]);
                        if k0 < i {
                            assert(before[k0].handle != before[i as int].handle);
                        } else {
                            assert(before[i as int].handle != before[k0].handle);
                        }
                    }
                }
                true
            },
            None => false,
        }
    }

    /// Tells the host that the flow with `handle` is closed, for `reason`,
    /// and removes the flow: the one way out of the table for a flow that
    /// the host has to hear of.
    pub fn notify_close(&mut self, handle: u64, kind: FlowKind, reason: &str)
        requires
            old(self).wf(),
        ensures
            final(self).wf(),
            final(self).flows@ == if handle_index(old(self).flows@, handle, 0) >= 0 {
                old(self).flows@.remove(handle_index(old(self).flows@, handle, 0))
            } else {
                old(self).flows@
            },
            !live_handles(final(self).flows@).contains(handle),
            descends(old(self).flows@, final(self).flows@),
            final(self).outbox@ == (BatchView {
                closes: old(self).outbox@.closes.push(
                    CloseRequestView { handle, reason: reason@, kind },
                ),
                ..old(self).outbox@
            }),
            socket_kinds(final(self).sockets) == sockets_without(*old(self), handle),
            final(self).callbacks_installed == old(self).callbacks_installed,
            final(self).next_flow_id == old(self).next_flow_id,
            final(self).counters == old(self).counters,
            final(self).stats == old(self).stats,
            final(self).limits == old(self).limits,
            final(self).jitter_state == old(self).jitter_state,
            final(self).memory.budget == old(self).memory.budget,
    {
        self.outbox.add_close(handle, reason, kind);
        let _ = self.remove_flow(handle);
    }

    /// The memory that the tracker counts is the cost of the sockets of the
    /// flows in the table, flow by flow.
    pub proof fn lemma_socket_accounting(&self)
        requires
            self.wf(),
        ensures
            self.memory.current_usage == total_socket_cost(self.flows@, self.memory.budget),
    {
        lemma_total_cost_by_count(self.flows@, self.memory.budget);
    }

    /// No byte of a TCP flow is lost while no limit was overrun: what the
    /// host delivered for the flow is what the embedded socket took, then
    /// what waits in the buffer, then what waits in the delay line. So what
    /// the socket took and what the buffer holds is, in this order, the
    /// first part of the stream of the host.
    pub proof fn lemma_no_byte_lost(&self, i: int)
        requires
            self.wf(),
            0 <= i < self.flows@.len(),
            self.flows@[i].kind is Tcp,
            self.flows@[i]@.lossless,
        ensures
            self.flows@[i]@.delivered == self.flows@[i]@.pushed + concat_payloads(
                self.flows@[i]@.buffered,
            ) + shaped_bytes(self.flows@[i]@),
            (self.flows@[i]@.pushed + concat_payloads(self.flows@[i]@.buffered)).is_prefix_of(
                self.flows@[i]@.delivered,
            ),
    {
        let flow = self.flows@[i]@;
        assert(self.flows@[i].wf());
        let head = flow.pushed + concat_payloads(flow.buffered);
        assert(head =~= (head + shaped_bytes(flow)).subrange(0, head.len() as int));
    }

    /// The host was asked to dial for a flow exactly once for each attempt
    /// that the flow counts, and a flow counts no more attempts than it has.
    pub proof fn lemma_dials_bounded(&self, i: int)
        requires
            self.wf(),
            0 <= i < self.flows@.len(),
        ensures
            self.flows@[i]@.dials_requested == self.flows@[i]@.dial_attempts,
            self.flows@[i]@.dial_attempts <= MAX_DIAL_ATTEMPTS,
    {
        assert(self.flows@[i].wf());
    }

    /// The sockets of the set are those of the flows: every flow has its
    /// socket in the set, and the set holds no other.
    pub proof fn lemma_sockets_of_flows(&self, socket: SocketHandle)
        requires
            self.wf(),
        ensures
            socket_kinds(self.sockets).dom().contains(socket) <==> exists|i: int|
                0 <= i < self.flows@.len() && (#[trigger] self.flows@[i]).socket == socket,
    {
        reveal(no_stray_sockets);
    }

    /// Every handle is that of exactly one flow of the table.
    pub proof fn lemma_handles_unique(&self, i: int, j: int)
        requires
            self.wf(),
            0 <= i < self.flows@.len(),
            0 <= j < self.flows@.len(),
            self.flows@[i].handle == self.flows@[j].handle,
        ensures
            i == j,
            live_handles(self.flows@).contains(self.flows@[i].handle),
    {
        if i < j {
            assert(self.flows@[i].handle != self.flows@[j].handle);
        } else if j < i {
            assert(self.flows@[j].handle != self.flows@[i].handle);
        }
    }
}

} // verus!
