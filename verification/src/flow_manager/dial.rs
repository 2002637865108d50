//! Dial management for flow connections.
//!
//! Handles connection dial requests, retries, and backoff logic.

use crate::flow_manager::batch::{BatchView, DialRequestView};
use crate::flow_manager::sockets::socket_kinds;
use crate::flow_manager::state::{
    dial_begun, dial_due, dial_given_up, dial_retrying, dial_succeeded, flow_invariant, FlowEntry,
    FlowKind, FlowView, MAX_DIAL_ATTEMPTS,
};
use crate::flow_manager::transport::{close_request, flow_replaced, flush_outcome, tcp_flush_begun};
use crate::flow_manager::{
    handle_index, lemma_count_same_kinds, lemma_update_keeps_table, EngineView, FlowManager,
};
use vstd::prelude::*;

verus! {

/// The request that asks the host to dial for `flow`.
pub open spec fn dial_request_for(flow: FlowView) -> DialRequestView {
    DialRequestView {
        handle: flow.handle,
        host: flow.key.dst_ip.text(),
        port: flow.key.dst_port,
        kind: flow.kind,
    }
}

/// The dial requests for those of `flows` for which a dial is due at `now`,
/// in the order of the table.
pub open spec fn dial_requests(flows: Seq<FlowEntry>, now: u64) -> Seq<DialRequestView>
    decreases flows.len(),
{
    if flows.len() == 0 {
        Seq::empty()
    } else if dial_due(flows.last()@, now) {
        dial_requests(flows.drop_last(), now).push(dial_request_for(flows.last()@))
    } else {
        dial_requests(flows.drop_last(), now)
    }
}

/// Whether `after` is `before` with a dial begun at `now` where one was due.
pub open spec fn dialled_where_due(before: FlowEntry, after: FlowEntry, now: u64) -> bool {
    if dial_due(before@, now) {
        &&& after@ == dial_begun(before@, now)
        &&& after.buffered == before.buffered
        &&& after.shaping == before.shaping
    } else {
        after == before
    }
}

/// A dial that begins counts one attempt and one request, and stays within
/// the attempts that a flow has.
pub proof fn lemma_dial_counts_once(flow: FlowView, now: u64)
    requires
        flow_invariant(flow),
        dial_due(flow, now),
    ensures
        dial_begun(flow, now).dial_attempts == flow.dial_attempts + 1,
        dial_begun(flow, now).dials_requested == flow.dials_requested + 1,
        dial_begun(flow, now).dial_attempts <= MAX_DIAL_ATTEMPTS,
        flow_invariant(dial_begun(flow, now)),
        !dial_due(dial_begun(flow, now), now),
{
}

/// The reason that goes to the host when a flow is closed for a failed dial.
pub open spec fn dial_failure_reason(reason: Option<Seq<char>>) -> Seq<char> {
    match reason {
        Some(text) => text,
        None => "dial_failed"@,
    }
}

/// After the report of a successful dial for a TCP flow, the buffer of the
/// flow is flushed towards its socket: the flush begins from the engine in
/// which the flow has just become ready.
pub open spec fn dial_flush_begun(
    before: FlowManager,
    after: FlowManager,
    handle: u64,
    success: bool,
    now: u64,
) -> bool {
    let index = handle_index(before.flows@, handle, 0);
    (index >= 0 && success && before.flows@[index].kind is Tcp) ==> exists|ready: FlowManager|
        #![trigger tcp_flush_begun(ready, after, index, now)]
        {
            &&& ready.sockets == before.sockets
            &&& ready@ == (EngineView { flows: ready.flows@, ..before@ })
            &&& flow_replaced(
                before.flows@,
                ready.flows@,
                index,
                dial_succeeded(before.flows@[index]@, now),
            )
            &&& ready.flows@[index].socket == before.flows@[index].socket
            &&& tcp_flush_begun(ready, after, index, now)
        }
}

/// What the report of a dial does to the sockets, but for the flush of a
/// TCP buffer after a success: a flow that is closed after its last
/// failure gives up its socket, and nothing else touches the set.
pub open spec fn dial_sockets(
    before: FlowManager,
    after: FlowManager,
    handle: u64,
    success: bool,
) -> bool {
    let index = handle_index(before.flows@, handle, 0);
    if index < 0 {
        after.sockets == before.sockets
    } else if success {
        before.flows@[index].kind is Udp ==> after.sockets == before.sockets
    } else if before.flows@[index].dial_attempts >= MAX_DIAL_ATTEMPTS
        && before.callbacks_installed {
        socket_kinds(after.sockets) == socket_kinds(before.sockets).remove(
            before.flows@[index].socket,
        )
    } else {
        after.sockets == before.sockets
    }
}

/// What the report of a dial comes to. A report for no flow changes
/// nothing. After a success the flow is ready, and its buffer is flushed.
/// After a failure with an attempt left the next dial waits for the
/// back-off; after the last failure the flow is closed with the reason of
/// the host, if the host can be told.
pub open spec fn dial_result_outcome(
    old: EngineView,
    new: EngineView,
    handle: u64,
    success: bool,
    reason: Option<Seq<char>>,
    now: u64,
) -> bool {
    let index = handle_index(old.flows, handle, 0);
    if index < 0 {
        new == old
    } else if success {
        exists|ready: FlowEntry|
            {
                &&& #[trigger] ready.same_limits(&old.flows[index])
                &&& ready@ == dial_succeeded(old.flows[index]@, now)
                &&& flush_outcome(
                    EngineView { flows: old.flows.update(index, ready), ..old },
                    new,
                    index,
                )
            }
    } else {
        &&& new.counters == old.counters
        &&& new.stats == old.stats
        &&& new.jitter_state == old.jitter_state
        &&& new.callbacks_installed == old.callbacks_installed
        &&& if old.flows[index].dial_attempts < MAX_DIAL_ATTEMPTS {
            &&& flow_replaced(old.flows, new.flows, index, dial_retrying(old.flows[index]@, now))
            &&& new.outbox == old.outbox
        } else if old.callbacks_installed {
            &&& new.flows == old.flows.remove(index)
            &&& new.outbox == (BatchView {
                closes: old.outbox.closes.push(
                    close_request(
                        old.flows[index]@,
                        old.flows[index].kind,
                        dial_failure_reason(reason),
                    ),
                ),
                ..old.outbox
            })
        } else {
            &&& flow_replaced(old.flows, new.flows, index, dial_given_up(old.flows[index]@))
            &&& new.outbox == old.outbox
        }
    }
}

/// What requesting the dials that are due at `now` comes to: a dial begins
/// for every flow for which one is due, and is collected for the host;
/// without callbacks nothing happens.
#[verifier::opaque]
pub open spec fn dials_dispatched(
    before: FlowManager,
    after: FlowManager,
    now: u64,
    dispatched: bool,
) -> bool {
    &&& after.wf()
    &&& after.callbacks_installed == before.callbacks_installed
    &&& after.sockets == before.sockets
    &&& after.memory == before.memory
    &&& after.next_flow_id == before.next_flow_id
    &&& after.counters == before.counters
    &&& after.stats == before.stats
    &&& after.limits == before.limits
    &&& after.jitter_state == before.jitter_state
    &&& after.flows@.len() == before.flows@.len()
    &&& !before.callbacks_installed ==> !dispatched && after.flows@ == before.flows@ && after.outbox@ == before.outbox@
    &&& before.callbacks_installed ==> {
        &&& dispatched == (dial_requests(before.flows@, now).len() > 0)
        &&& forall|i: int|
            0 <= i < before.flows@.len() ==> dialled_where_due(
                before.flows@[i],
                #[trigger] after.flows@[i],
                now,
            )
        &&& after.outbox@ == (BatchView {
            dials: before.outbox@.dials + dial_requests(before.flows@, now),
            ..before.outbox@
        })
    }
}

impl FlowManager {
    /// Requests a dial for every flow for which one is due at `now`, in the
    /// order of the table; says whether it requested any. Without callbacks
    /// nothing is done.
    pub fn dispatch_pending_dials(&mut self, now: u64) -> (dispatched: bool)
        requires
            old(self).wf(),
        ensures
            dials_dispatched(
                *old(self),
                *final(self),
                now,
                dispatched,
            ),
    {
        proof {
            reveal(dials_dispatched);
        }
        if !self.callbacks_installed {
            return false;
        }
        let ghost start = self.flows@;
        let ghost dials = self.outbox@.dials;
        let mut dispatched = false;
        let mut i: usize = 0;
        proof {
            assert(start.take(0) =~= Seq::<FlowEntry>::empty());
            assert(dials + dial_requests(start.take(0), now) =~= dials);
        }
        while i < self.flows.len()
            invariant
                self.wf(),
                i <= self.flows@.len(),
                self.flows@.len() == start.len(),
                self.callbacks_installed == old(self).callbacks_installed,
                self.sockets == old(self).sockets,
                self.memory == old(self).memory,
                self.next_flow_id == old(self).next_flow_id,
                self.counters == old(self).counters,
                self.stats == old(self).stats,
                self.limits == old(self).limits,
                self.jitter_state == old(self).jitter_state,
                dispatched == (dial_requests(start.take(i as int), now).len() > 0),
                forall|k: int| 0 <= k < i ==> dialled_where_due(start[k], #[trigger] self.flows@[k], now),
                forall|k: int| i <= k < start.len() ==> #[trigger] self.flows@[k] == start[k],
                self.outbox@ == (BatchView {
                    dials: dials + dial_requests(start.take(i as int), now),
                    ..old(self).outbox@
                }),
            decreases self.flows@.len() - i,
        {
            let ghost before = self.flows@;
            proof {
                assert(start.take(i + 1).drop_last() =~= start.take(i as int));
                assert(start.take(i + 1).last() == start[i as int]);
                assert(before[i as int] == start[i as int]);
                assert(before[i as int].wf());
            }
            if self.flows[i].due_for_dial(now) {
                self.flows[i].begin_dial(now);
                let handle = self.flows[i].handle;
                let ip = self.flows[i].key.dst_ip;
                let port = self.flows[i].key.dst_port;
                let kind = self.flows[i].kind;
                self.outbox.add_dial(handle, ip, port, kind);
                dispatched = true;
                proof {
                    let after = self.flows@;
                    assert(after =~= before.update(i as int, after[i as int]));
                    lemma_count_same_kinds(after, before, FlowKind::Tcp);
                    lemma_count_same_kinds(after, before, FlowKind::Udp);
                    assert forall|a: int, b: int| 0 <= a < b < after.len() implies {
                        &&& (#[trigger] after[a]).handle != (#[trigger] after[b]).handle
                        &&& after[a].key != after[b].key
                        &&& after[a].socket != after[b].socket
                    } by {
                        assert(before[a].handle != before[b].handle);
                        assert(after[a]@.handle == before[a]@.handle);
                        assert(after[b]@.handle == before[b]@.handle);
                    }
                    assert(self.outbox@.dials =~= dials + dial_requests(start.take(i + 1), now));
                    lemma_update_keeps_table(
                        before,
                        after,
                        i as int,
                        self.limits,
                        self.next_flow_id,
                        socket_kinds(self.sockets),
                    );
                }
            }
            i = i + 1;
        }
        proof {
            assert(start.take(i as int) =~= start);
        }
        dispatched
    }
    /// Takes the report of the host on the dial for the flow with `handle`.
    pub fn on_dial_result(&mut self, handle: u64, success: bool, reason: Option<&str>, now: u64)
        requires
            old(self).wf(),
        ensures
            final(self).wf(),
            final(self).same_settings(old(self)),
            dial_result_outcome(
                old(self)@,
                final(self)@,
                handle,
                success,
                match reason {
                    Some(text) => Some(text@),
                    None => None,
                },
                now,
            ),
            dial_flush_begun(*old(self), *final(self), handle, success, now),
            dial_sockets(*old(self), *final(self), handle, success),
    {
        let index = match self.find_handle(handle) {
            Some(i) => i,
            None => {
                return ;
            },
        };
        let ghost before = self.flows@;
        proof {
            assert(before[index as int].wf());
        }
        if success {
            self.flows[index].mark_ready(now);
            proof {
                lemma_update_keeps_table(
                    before,
                    self.flows@,
                    index as int,
                    self.limits,
                    self.next_flow_id,
                    socket_kinds(self.sockets),
                );
                assert(self.flows@ =~= before.update(index as int, self.flows@[index as int]));
            }
            let ghost ready = self.flows@[index as int];
            let ghost mid = self@;
            let ghost ready_engine = *self;
            let _ = self.flush_buffered_payloads(index, now);
            proof {
                assert(mid == (EngineView { flows: before.update(index as int, ready), ..old(self)@ }));
                assert(ready.same_limits(&before[index as int]));
                if before[index as int].kind is Tcp {
                    assert(tcp_flush_begun(ready_engine, *self, index as int, now));
                }
            }
            return ;
        }
        if self.flows[index].dial_attempts < MAX_DIAL_ATTEMPTS {
            self.flows[index].schedule_redial(now);
            proof {
                lemma_update_keeps_table(
                    before,
                    self.flows@,
                    index as int,
                    self.limits,
                    self.next_flow_id,
                    socket_kinds(self.sockets),
                );
            }
            return ;
        }
        if self.callbacks_installed {
            let kind = self.flows[index].kind;
            let message = match reason {
                Some(text) => text,
                None => "dial_failed",
            };
            self.notify_close(handle, kind, message);
            return ;
        }
        self.flows[index].clear_dial();
        proof {
            lemma_update_keeps_table(
                before,
                self.flows@,
                index as int,
                self.limits,
                self.next_flow_id,
                socket_kinds(self.sockets),
            );
        }
    }
}

} // verus!
