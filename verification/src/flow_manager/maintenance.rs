//! Flow maintenance and cleanup operations.
//!
//! Handles pruning of idle/stale flows and closing of finished TCP flows.

use crate::ffi::{bump, raised, FlowStats};
use crate::flow_manager::batch::{BatchView, CloseRequestView};
use crate::flow_manager::sockets::{tcp_state, tcp_state_answer, TcpState};
use crate::flow_manager::state::{
    elapsed_at_least, has_elapsed, DIAL_PENDING_TIMEOUT_MS, FlowEntry, FlowKind, FlowView,
    TCP_SYN_SENT_TIMEOUT_MS, UDP_IDLE_TIMEOUT_MS,
};
use crate::flow_manager::transport::close_request;
use crate::flow_manager::{
    closes_final, descends, entries_distinct, lemma_descends_chain, lemma_descends_self,
    lemma_removed_descends, live_handles, FlowManager,
};
use vstd::prelude::*;

verus! {

/// How many runs of bytes are taken from a TCP socket in one go.
pub const MAX_TCP_CHUNKS: usize = 64;

/// The rules by which flows are reaped.
#[derive(Clone, Copy, Debug, PartialEq, Eq, Structural)]
pub enum PruneRule {
    /// A ready UDP flow without traffic for ten seconds.
    IdleUdp,
    /// A flow whose dial has been out for thirty seconds.
    DialTimeout,
    /// A TCP flow that is not ready fifteen seconds after it was opened.
    StaleTcp,
}

/// Whether `rule` reaps `flow` at `now`.
pub open spec fn expired(flow: FlowView, rule: PruneRule, now: u64) -> bool {
    match rule {
        PruneRule::IdleUdp => flow.kind is Udp && flow.ready && elapsed_at_least(
            now,
            flow.last_activity,
            UDP_IDLE_TIMEOUT_MS,
        ),
        PruneRule::DialTimeout => flow.pending_dial && flow.dial_started_at is Some
            && elapsed_at_least(now, flow.dial_started_at->0, DIAL_PENDING_TIMEOUT_MS),
        PruneRule::StaleTcp => flow.kind is Tcp && !flow.ready && elapsed_at_least(
            now,
            flow.created_at,
            TCP_SYN_SENT_TIMEOUT_MS,
        ),
    }
}

/// The reason that the host is given for a flow that `rule` reaps.
pub open spec fn prune_reason(rule: PruneRule) -> Seq<char> {
    match rule {
        PruneRule::IdleUdp => "udp_idle_timeout"@,
        PruneRule::DialTimeout => "dial_timeout"@,
        PruneRule::StaleTcp => "connection_timeout"@,
    }
}

/// The flows that `rule` leaves at `now`, in their order.
pub open spec fn survivors(flows: Seq<FlowEntry>, rule: PruneRule, now: u64) -> Seq<FlowEntry>
    decreases flows.len(),
{
    if flows.len() == 0 {
        Seq::empty()
    } else if expired(flows.last()@, rule, now) {
        survivors(flows.drop_last(), rule, now)
    } else {
        survivors(flows.drop_last(), rule, now).push(flows.last())
    }
}

/// The close requests for the flows that `rule` reaps at `now`, in the order of the table.
pub open spec fn prune_closes(flows: Seq<FlowEntry>, rule: PruneRule, now: u64) -> Seq<
    CloseRequestView,
>
    decreases flows.len(),
{
    if flows.len() == 0 {
        Seq::empty()
    } else if expired(flows.last()@, rule, now) {
        prune_closes(flows.drop_last(), rule, now).push(
            close_request(flows.last()@, flows.last().kind, prune_reason(rule)),
        )
    } else {
        prune_closes(flows.drop_last(), rule, now)
    }
}

/// Whether none of `flows` is reaped by `rule` at `now`.
pub open spec fn none_expired(flows: Seq<FlowEntry>, rule: PruneRule, now: u64) -> bool {
    forall|i: int| 0 <= i < flows.len() ==> !expired((#[trigger] flows[i])@, rule, now)
}

/// Whether every flow of `part` is a flow of `whole`, unchanged.
pub open spec fn taken_from(whole: Seq<FlowEntry>, part: Seq<FlowEntry>) -> bool {
    forall|j: int| 0 <= j < part.len() ==> whole.contains(#[trigger] part[j])
}

/// The survivors are flows of the table, and none of them is reaped.
pub proof fn lemma_survivors(flows: Seq<FlowEntry>, rule: PruneRule, now: u64)
    ensures
        none_expired(survivors(flows, rule, now), rule, now),
        taken_from(flows, survivors(flows, rule, now)),
        survivors(flows, rule, now).len() <= flows.len(),
    decreases flows.len(),
{
    if flows.len() > 0 {
        lemma_survivors(flows.drop_last(), rule, now);
        let rest = survivors(flows.drop_last(), rule, now);
        let all = survivors(flows, rule, now);
        assert forall|j: int| 0 <= j < all.len() implies flows.contains(#[trigger] all[j]) by {
            if j < rest.len() {
                assert(all[j] == rest[j]);
                assert(flows.drop_last().contains(rest[j]));
                let k = choose|k: int| 0 <= k < flows.drop_last().len() && flows.drop_last()[k] == rest[j];
                assert(flows[k] == rest[j]);
            } else {
                assert(all[j] == flows.last());
                assert(flows[flows.len() - 1] == all[j]);
            }
        }
    }
}

/// A table whose flows are taken from one in which none is reaped holds none that is reaped.
pub proof fn lemma_taken_from_keeps(
    whole: Seq<FlowEntry>,
    part: Seq<FlowEntry>,
    rule: PruneRule,
    now: u64,
)
    requires
        none_expired(whole, rule, now),
        taken_from(whole, part),
    ensures
        none_expired(part, rule, now),
{
    assert forall|i: int| 0 <= i < part.len() implies !expired((#[trigger] part[i])@, rule, now) by {
        assert(whole.contains(part[i]));
        let k = choose|k: int| 0 <= k < whole.len() && whole[k] == part[i];
        assert(!expired(whole[k]@, rule, now));
    }
}

/// What the state of the socket of a ready TCP flow means for the flow: the
/// reason for which the flow is closed, if it is. A close that the client
/// began goes before one that the host began, and that before a closed socket.
pub open spec fn close_verdict(flow: FlowView, state: TcpState) -> Option<Seq<char>> {
    if !(flow.kind is Tcp) || flow.pending_dial || !flow.ready {
        None
    } else if flow.client_closed && (state is CloseWait || state is LastAck || state is TimeWait) {
        Some("client_fin"@)
    } else if flow.server_closed && (state is FinWait1 || state is FinWait2 || state is Closing
        || state is TimeWait || state is Closed) {
        Some("server_closed"@)
    } else if state is Closed {
        Some("tcp_closed (CLOSED)"@)
    } else {
        None
    }
}

/// The flows that stay when the sockets are in `states`, in their order.
pub open spec fn finalized_flows(flows: Seq<FlowEntry>, states: Seq<TcpState>) -> Seq<FlowEntry>
    decreases flows.len(),
{
    if flows.len() == 0 || states.len() != flows.len() {
        Seq::empty()
    } else if close_verdict(flows.last()@, states.last()) is Some {
        finalized_flows(flows.drop_last(), states.drop_last())
    } else {
        finalized_flows(flows.drop_last(), states.drop_last()).push(flows.last())
    }
}

/// The close requests for the flows that leave when the sockets are in `states`.
pub open spec fn finalized_closes(flows: Seq<FlowEntry>, states: Seq<TcpState>) -> Seq<
    CloseRequestView,
>
    decreases flows.len(),
{
    if flows.len() == 0 || states.len() != flows.len() {
        Seq::empty()
    } else {
        match close_verdict(flows.last()@, states.last()) {
            Some(reason) => finalized_closes(flows.drop_last(), states.drop_last()).push(
                close_request(flows.last()@, FlowKind::Tcp, reason),
            ),
            None => finalized_closes(flows.drop_last(), states.drop_last()),
        }
    }
}

fn closing_reason(entry: &FlowEntry, state: TcpState) -> (r: Option<&'static str>)
    ensures
        match r {
            Some(reason) => close_verdict(entry@, state) == Some(reason@),
            None => close_verdict(entry@, state) is None,
        },
{
    match entry.kind {
        FlowKind::Udp => {
            return None;
        },
        FlowKind::Tcp => {},
    }
    if entry.pending_dial || !entry.ready {
        return None;
    }
    let client = entry.client_closed && match state {
        TcpState::CloseWait => true,
        TcpState::LastAck => true,
        TcpState::TimeWait => true,
        _ => false,
    };
    let server = entry.server_closed && match state {
        TcpState::FinWait1 => true,
        TcpState::FinWait2 => true,
        TcpState::Closing => true,
        TcpState::TimeWait => true,
        TcpState::Closed => true,
        _ => false,
    };
    let terminal = match state {
        TcpState::Closed => true,
        _ => false,
    };
    if client {
        Some("client_fin")
    } else if server {
        Some("server_closed")
    } else if terminal {
        Some("tcp_closed (CLOSED)")
    } else {
        None
    }
}

/// The closes of the finaliser are closes of flows of the table, and of none
/// that stays.
pub proof fn lemma_finalized_gone(flows: Seq<FlowEntry>, states: Seq<TcpState>)
    requires
        entries_distinct(flows),
        states.len() == flows.len(),
    ensures
        forall|j: int|
            0 <= j < finalized_flows(flows, states).len() ==> live_handles(flows).contains(
                (#[trigger] finalized_flows(flows, states)[j]).handle,
            ),
        forall|k: int|
            0 <= k < finalized_closes(flows, states).len() ==> live_handles(flows).contains(
                (#[trigger] finalized_closes(flows, states)[k]).handle,
            ),
        forall|k: int|
            0 <= k < finalized_closes(flows, states).len() ==> !live_handles(finalized_flows(flows, states)).contains(
                (#[trigger] finalized_closes(flows, states)[k]).handle,
            ),
    decreases flows.len(),
{
    if flows.len() > 0 {
        let rest = flows.drop_last();
        let last = flows.last();
        let kept = finalized_flows(flows, states);
        let closes = finalized_closes(flows, states);
        let kept_rest = finalized_flows(rest, states.drop_last());
        let closes_rest = finalized_closes(rest, states.drop_last());
        assert forall|i: int, j: int| 0 <= i < j < rest.len() implies {
            &&& (#[trigger] rest[i]).handle != (#[trigger] rest[j]).handle
            &&& rest[i].key != rest[j].key
            &&& rest[i].socket != rest[j].socket
        } by {
            assert(rest[i] == flows[i] && rest[j] == flows[j]);
        }
        lemma_finalized_gone(rest, states.drop_last());
        // No flow before the last has the handle of the last.
        assert(!live_handles(rest).contains(last.handle)) by {
            if live_handles(rest).contains(last.handle) {
                let i = choose|i: int| 0 <= i < rest.len() && #[trigger] rest[i].handle == last.handle;
                assert(rest[i] == flows[i]);
                assert(flows[i].handle != flows[flows.len() - 1].handle);
            }
        }
        // Every handle of the flows before the last is a handle of the table.
        assert forall|h: u64| live_handles(rest).contains(h) implies live_handles(flows).contains(
            h,
        ) by {
            let i = choose|i: int| 0 <= i < rest.len() && #[trigger] rest[i].handle == h;
            assert(flows[i].handle == h);
        }
        assert(live_handles(flows).contains(last.handle)) by {
            assert(flows[flows.len() - 1].handle == last.handle);
        }
        if close_verdict(last@, states.last()) is Some {
            assert(kept == kept_rest);
            assert(closes == closes_rest.push(close_request(last@, FlowKind::Tcp, close_verdict(last@, states.last())->0)));
            assert forall|k: int| 0 <= k < closes.len() implies !live_handles(kept).contains(
                (#[trigger] closes[k]).handle,
            ) by {
                if k == closes_rest.len() {
                    if live_handles(kept_rest).contains(last.handle) {
                        let j = choose|j: int|
                            0 <= j < kept_rest.len() && #[trigger] kept_rest[j].handle
                                == last.handle;
                        assert(live_handles(rest).contains(kept_rest[j].handle));
                    }
                } else {
                    assert(closes[k] == closes_rest[k]);
                }
            }
            assert forall|k: int| 0 <= k < closes.len() implies live_handles(flows).contains(
                (#[trigger] closes[k]).handle,
            ) by {
                if k < closes_rest.len() {
                    assert(closes[k] == closes_rest[k]);
                    assert(live_handles(rest).contains(closes_rest[k].handle));
                }
            }
            assert forall|j: int| 0 <= j < kept.len() implies live_handles(flows).contains(
                (#[trigger] kept[j]).handle,
            ) by {
                assert(live_handles(rest).contains(kept_rest[j].handle));
            }
        } else {
            assert(kept == kept_rest.push(last));
            assert(closes == closes_rest);
            assert forall|j: int| 0 <= j < kept.len() implies live_handles(flows).contains(
                (#[trigger] kept[j]).handle,
            ) by {
                if j < kept_rest.len() {
                    assert(kept[j] == kept_rest[j]);
                    assert(live_handles(rest).contains(kept_rest[j].handle));
                }
            }
            assert forall|k: int| 0 <= k < closes.len() implies live_handles(flows).contains(
                (#[trigger] closes[k]).handle,
            ) by {
                assert(live_handles(rest).contains(closes_rest[k].handle));
            }
            assert forall|k: int| 0 <= k < closes.len() implies !live_handles(kept).contains(
                (#[trigger] closes[k]).handle,
            ) by {
                let h = closes[k].handle;
                assert(live_handles(rest).contains(closes_rest[k].handle));
                if live_handles(kept).contains(h) {
                    let j = choose|j: int| 0 <= j < kept.len() && #[trigger] kept[j].handle == h;
                    if j < kept_rest.len() {
                        assert(kept[j] == kept_rest[j]);
                        assert(live_handles(kept_rest).contains(h));
                    }
                }
            }
        }
    }
}

/// The closes of a reaping are closes of flows of the table, and of none
/// that stays.
pub proof fn lemma_pruned_gone(flows: Seq<FlowEntry>, rule: PruneRule, now: u64)
    requires
        entries_distinct(flows),
    ensures
        forall|j: int|
            0 <= j < survivors(flows, rule, now).len() ==> live_handles(flows).contains(
                (#[trigger] survivors(flows, rule, now)[j]).handle,
            ),
        forall|k: int|
            0 <= k < prune_closes(flows, rule, now).len() ==> live_handles(flows).contains(
                (#[trigger] prune_closes(flows, rule, now)[k]).handle,
            ),
        forall|k: int|
            0 <= k < prune_closes(flows, rule, now).len() ==> !live_handles(survivors(flows, rule, now)).contains(
                (#[trigger] prune_closes(flows, rule, now)[k]).handle,
            ),
    decreases flows.len(),
{
    if flows.len() > 0 {
        let rest = flows.drop_last();
        let last = flows.last();
        let kept = survivors(flows, rule, now);
        let closes = prune_closes(flows, rule, now);
        let kept_rest = survivors(rest, rule, now);
        let closes_rest = prune_closes(rest, rule, now);
        assert forall|i: int, j: int| 0 <= i < j < rest.len() implies {
            &&& (#[trigger] rest[i]).handle != (#[trigger] rest[j]).handle
            &&& rest[i].key != rest[j].key
            &&& rest[i].socket != rest[j].socket
        } by {
            assert(rest[i] == flows[i] && rest[j] == flows[j]);
        }
        lemma_pruned_gone(rest, rule, now);
        // No flow before the last has the handle of the last.
        assert(!live_handles(rest).contains(last.handle)) by {
            if live_handles(rest).contains(last.handle) {
                let i = choose|i: int| 0 <= i < rest.len() && #[trigger] rest[i].handle == last.handle;
                assert(rest[i] == flows[i]);
                assert(flows[i].handle != flows[flows.len() - 1].handle);
            }
        }
        // Every handle of the flows before the last is a handle of the table.
        assert forall|h: u64| live_handles(rest).contains(h) implies live_handles(flows).contains(
            h,
        ) by {
            let i = choose|i: int| 0 <= i < rest.len() && #[trigger] rest[i].handle == h;
            assert(flows[i].handle == h);
        }
        assert(live_handles(flows).contains(last.handle)) by {
            assert(flows[flows.len() - 1].handle == last.handle);
        }
        if expired(last@, rule, now) {
            assert(kept == kept_rest);
            assert(closes == closes_rest.push(close_request(last@, last.kind, prune_reason(rule))));
            assert forall|k: int| 0 <= k < closes.len() implies !live_handles(kept).contains(
                (#[trigger] closes[k]).handle,
            ) by {
                if k == closes_rest.len() {
                    if live_handles(kept_rest).contains(last.handle) {
                        let j = choose|j: int|
                            0 <= j < kept_rest.len() && #[trigger] kept_rest[j].handle
                                == last.handle;
                        assert(live_handles(rest).contains(kept_rest[j].handle));
                    }
                } else {
                    assert(closes[k] == closes_rest[k]);
                }
            }
            assert forall|k: int| 0 <= k < closes.len() implies live_handles(flows).contains(
                (#[trigger] closes[k]).handle,
            ) by {
                if k < closes_rest.len() {
                    assert(closes[k] == closes_rest[k]);
                    assert(live_handles(rest).contains(closes_rest[k].handle));
                }
            }
            assert forall|j: int| 0 <= j < kept.len() implies live_handles(flows).contains(
                (#[trigger] kept[j]).handle,
            ) by {
                assert(live_handles(rest).contains(kept_rest[j].handle));
            }
        } else {
            assert(kept == kept_rest.push(last));
            assert(closes == closes_rest);
            assert forall|j: int| 0 <= j < kept.len() implies live_handles(flows).contains(
                (#[trigger] kept[j]).handle,
            ) by {
                if j < kept_rest.len() {
                    assert(kept[j] == kept_rest[j]);
                    assert(live_handles(rest).contains(kept_rest[j].handle));
                }
            }
            assert forall|k: int| 0 <= k < closes.len() implies live_handles(flows).contains(
                (#[trigger] closes[k]).handle,
            ) by {
                assert(live_handles(rest).contains(closes_rest[k].handle));
            }
            assert forall|k: int| 0 <= k < closes.len() implies !live_handles(kept).contains(
                (#[trigger] closes[k]).handle,
            ) by {
                let h = closes[k].handle;
                assert(live_handles(rest).contains(closes_rest[k].handle));
                if live_handles(kept).contains(h) {
                    let j = choose|j: int| 0 <= j < kept.len() && #[trigger] kept[j].handle == h;
                    if j < kept_rest.len() {
                        assert(kept[j] == kept_rest[j]);
                        assert(live_handles(kept_rest).contains(h));
                    }
                }
            }
        }
    }
}

/// Closes that are put behind earlier ones keep what holds of them.
pub proof fn lemma_closes_behind(
    earlier: Seq<CloseRequestView>,
    added: Seq<CloseRequestView>,
    flows: Seq<FlowEntry>,
)
    requires
        forall|k: int|
            0 <= k < added.len() ==> !live_handles(flows).contains((#[trigger] added[k]).handle),
    ensures
        closes_final(earlier, earlier + added, flows),
{
    assert forall|k: int| earlier.len() <= k < (earlier + added).len() implies !live_handles(
        flows,
    ).contains((#[trigger] (earlier + added)[k]).handle) by {
        assert((earlier + added)[k] == added[k - earlier.len()]);
    }
}

/// The state that the finaliser reads for the flow at place `k`: that of
/// its socket for a ready TCP flow whose dial is not out, and for any other
/// flow a state that finishes nothing.
pub open spec fn probed_state(engine: FlowManager, k: int) -> TcpState {
    let flow = engine.flows@[k];
    if flow.kind is Tcp && !flow.pending_dial && flow.ready {
        tcp_state_answer(engine.sockets, flow.socket)
    } else {
        TcpState::Listen
    }
}

/// The states that the finaliser reads, flow by flow, as the engine stands.
pub open spec fn socket_states(engine: FlowManager) -> Seq<TcpState> {
    Seq::new(engine.flows@.len(), |k: int| probed_state(engine, k))
}

/// What closing the finished TCP flows comes to, for the states that their
/// sockets are in when it begins: each finished flow leaves the table, and
/// its close is collected for the host and counted.
#[verifier::opaque]
pub open spec fn closed_flows_finalized(
    before: FlowManager,
    after: FlowManager,
) -> bool {
    &&& after.wf()
    &&& after.same_settings(&before)
    &&& descends(before.flows@, after.flows@)
    &&& after.flows@ == finalized_flows(before.flows@, socket_states(before))
    &&& after.outbox@ == (BatchView {
        closes: before.outbox@.closes + finalized_closes(before.flows@, socket_states(before)),
        ..before.outbox@
    })
    &&& after.stats == (FlowStats {
        tcp_flush_events: raised(
            before.stats.tcp_flush_events,
            finalized_closes(before.flows@, socket_states(before)).len(),
        ),
        ..before.stats
    })
    &&& closes_final(before.outbox@.closes, after.outbox@.closes, after.flows@)
    &&& after.counters == before.counters
    &&& after.jitter_state == before.jitter_state
}

/// What reaping by `rule` at `now` comes to: the flows whose time is up
/// leave the table, and their closes are collected for the host in the order
/// of the table; `pruned` says whether one left.
#[verifier::opaque]
pub open spec fn flows_pruned(
    before: FlowManager,
    after: FlowManager,
    rule: PruneRule,
    now: u64,
    pruned: bool,
) -> bool {
    &&& after.wf()
    &&& after.same_settings(&before)
    &&& after.flows@ == survivors(before.flows@, rule, now)
    &&& none_expired(after.flows@, rule, now)
    &&& taken_from(before.flows@, after.flows@)
    &&& descends(before.flows@, after.flows@)
    &&& pruned == (after.flows@.len() < before.flows@.len())
    &&& after.outbox@ == (BatchView {
        closes: before.outbox@.closes + prune_closes(before.flows@, rule, now),
        ..before.outbox@
    })
    &&& closes_final(before.outbox@.closes, after.outbox@.closes, after.flows@)
    &&& after.counters == before.counters
    &&& after.stats == before.stats
    &&& after.jitter_state == before.jitter_state
}

impl FlowManager {
    fn is_expired(&self, index: usize, rule: PruneRule, now: u64) -> (r: bool)
        requires
            index < self.flows@.len(),
        ensures
            r == expired(self.flows@[index as int]@, rule, now),
    {
        let entry = &self.flows[index];
        match rule {
            PruneRule::IdleUdp => {
                let udp = match entry.kind {
                    FlowKind::Udp => true,
                    FlowKind::Tcp => false,
                };
                udp && entry.ready && has_elapsed(now, entry.last_activity, UDP_IDLE_TIMEOUT_MS)
            },
            PruneRule::DialTimeout => match entry.dial_started_at {
                Some(started) => entry.pending_dial && has_elapsed(
                    now,
                    started,
                    DIAL_PENDING_TIMEOUT_MS,
                ),
                None => false,
            },
            PruneRule::StaleTcp => {
                let tcp = match entry.kind {
                    FlowKind::Tcp => true,
                    FlowKind::Udp => false,
                };
                tcp && !entry.ready && has_elapsed(now, entry.created_at, TCP_SYN_SENT_TIMEOUT_MS)
            },
        }
    }

    /// Closes every flow that `rule` reaps at `now`, in the order of the
    /// table: the host is told the reason of the rule, and the flow leaves
    /// the table. Says whether a flow was reaped.
    pub fn prune(&mut self, rule: PruneRule, now: u64) -> (pruned: bool)
        requires
            old(self).wf(),
        ensures
            flows_pruned(
                *old(self),
                *final(self),
                rule,
                now,
                pruned,
            ),
    {
        proof {
            reveal(flows_pruned);
        }
        let ghost start = self.flows@;
        let ghost closes = self.outbox@.closes;
        let ghost mut done: int = 0;
        let mut i: usize = 0;
        let mut pruned = false;
        proof {
            assert(start.take(0) =~= Seq::<FlowEntry>::empty());
            assert(start.skip(0) =~= start);
            assert(survivors(start.take(0), rule, now) + start.skip(0) =~= start);
            assert(closes + prune_closes(start.take(0), rule, now) =~= closes);
            lemma_descends_self(start);
        }
        while i < self.flows.len()
            invariant
                self.wf(),
                self.same_settings(old(self)),
                start == old(self).flows@,
                0 <= done <= start.len(),
                i == survivors(start.take(done), rule, now).len(),
                self.flows@ == survivors(start.take(done), rule, now) + start.skip(done),
                pruned == (i < done),
                descends(start, self.flows@),
                self.outbox@ == (BatchView {
                    closes: closes + prune_closes(start.take(done), rule, now),
                    ..old(self).outbox@
                }),
                self.counters == old(self).counters,
                self.stats == old(self).stats,
                self.jitter_state == old(self).jitter_state,
            decreases start.len() - done,
        {
            let ghost before = self.flows@;
            proof {
                assert(before[i as int] == start[done]);
                assert(start.take(done + 1).drop_last() =~= start.take(done));
                assert(start.take(done + 1).last() == start[done]);
                lemma_survivors(start.take(done), rule, now);
            }
            if self.is_expired(i, rule, now) {
                let handle = self.flows[i].handle;
                let kind = self.flows[i].kind;
                let reason = match rule {
                    PruneRule::IdleUdp => "udp_idle_timeout",
                    PruneRule::DialTimeout => "dial_timeout",
                    PruneRule::StaleTcp => "connection_timeout",
                };
                self.outbox.add_close(handle, reason, kind);
                self.remove_at(i);
                pruned = true;
                proof {
                    assert(self.flows@ =~= survivors(start.take(done + 1), rule, now) + start.skip(
                        done + 1,
                    ));
                    assert(self.outbox@.closes =~= closes + prune_closes(
                        start.take(done + 1),
                        rule,
                        now,
                    ));
                    lemma_removed_descends(before, i as int);
                    lemma_descends_chain(start, before, self.flows@);
                }
            } else {
                proof {
                    assert(self.flows@ =~= survivors(start.take(done + 1), rule, now) + start.skip(
                        done + 1,
                    ));
                }
                i = i + 1;
            }
            proof {
                done = done + 1;
            }
        }
        proof {
            assert(start.take(done) =~= start);
            assert(start.skip(done) =~= Seq::<FlowEntry>::empty());
            assert(self.flows@ =~= survivors(start, rule, now));
            lemma_survivors(start, rule, now);
            lemma_pruned_gone(start, rule, now);
            lemma_closes_behind(closes, prune_closes(start, rule, now), self.flows@);
        }
        pruned
    }

    /// Prune idle UDP flows, adding close notifications to the batch.
    pub fn prune_idle_udp_flows(&mut self, now: u64) -> (pruned: bool)
        requires
            old(self).wf(),
        ensures
            final(self).wf(),
            final(self).same_settings(old(self)),
            final(self).flows@ == survivors(old(self).flows@, PruneRule::IdleUdp, now),
            descends(old(self).flows@, final(self).flows@),
            pruned == (final(self).flows@.len() < old(self).flows@.len()),
            final(self).outbox@ == (BatchView {
                closes: old(self).outbox@.closes + prune_closes(
                    old(self).flows@,
                    PruneRule::IdleUdp,
                    now,
                ),
                ..old(self).outbox@
            }),
            final(self).counters == old(self).counters,
            final(self).stats == old(self).stats,
            final(self).jitter_state == old(self).jitter_state,
    {
        proof {
            reveal(flows_pruned);
        }
        self.prune(PruneRule::IdleUdp, now)
    }

    /// Close flows where the dial operation has been pending too long.
    pub fn prune_timed_out_dials(&mut self, now: u64) -> (pruned: bool)
        requires
            old(self).wf(),
        ensures
            final(self).wf(),
            final(self).same_settings(old(self)),
            final(self).flows@ == survivors(old(self).flows@, PruneRule::DialTimeout, now),
            descends(old(self).flows@, final(self).flows@),
            pruned == (final(self).flows@.len() < old(self).flows@.len()),
            final(self).outbox@ == (BatchView {
                closes: old(self).outbox@.closes + prune_closes(
                    old(self).flows@,
                    PruneRule::DialTimeout,
                    now,
                ),
                ..old(self).outbox@
            }),
            final(self).counters == old(self).counters,
            final(self).stats == old(self).stats,
            final(self).jitter_state == old(self).jitter_state,
    {
        proof {
            reveal(flows_pruned);
        }
        self.prune(PruneRule::DialTimeout, now)
    }

    /// Close TCP flows that have been waiting for connection establishment too long.
    pub fn prune_stale_tcp_flows(&mut self, now: u64) -> (pruned: bool)
        requires
            old(self).wf(),
        ensures
            final(self).wf(),
            final(self).same_settings(old(self)),
            final(self).flows@ == survivors(old(self).flows@, PruneRule::StaleTcp, now),
            descends(old(self).flows@, final(self).flows@),
            pruned == (final(self).flows@.len() < old(self).flows@.len()),
            final(self).outbox@ == (BatchView {
                closes: old(self).outbox@.closes + prune_closes(
                    old(self).flows@,
                    PruneRule::StaleTcp,
                    now,
                ),
                ..old(self).outbox@
            }),
            final(self).counters == old(self).counters,
            final(self).stats == old(self).stats,
            final(self).jitter_state == old(self).jitter_state,
    {
        proof {
            reveal(flows_pruned);
        }
        self.prune(PruneRule::StaleTcp, now)
    }

    /// Closes the ready TCP flows whose sockets have come to an end: each
    /// with the reason that the state of its socket gives, in the order of
    /// the table. Every close counts as a flush event.
    pub fn finalize_closed_flows(&mut self)
        requires
            old(self).wf(),
        ensures
            closed_flows_finalized(
                *old(self),
                *final(self),
            ),
    {
        proof {
            reveal(closed_flows_finalized);
        }
        let probed = self.probe_states();
        let count = probed.len();
        let ghost whole = probed@;
        let ghost start = self.flows@;
        let ghost closes = self.outbox@.closes;
        let ghost mut states: Seq<TcpState> = Seq::empty();
        let mut turn: usize = 0;
        let mut i: usize = 0;
        proof {
            assert(whole.take(0) =~= states);
        }
        proof {
            assert(start.take(0) =~= Seq::<FlowEntry>::empty());
            assert(start.skip(0) =~= start);
            assert(finalized_flows(start.take(0), states) + start.skip(0) =~= start);
            assert(closes + finalized_closes(start.take(0), states) =~= closes);
            lemma_descends_self(start);
        }
        while i < self.flows.len()
            invariant
                self.wf(),
                self.same_settings(old(self)),
                start == old(self).flows@,
                whole == probed@,
                whole == socket_states(*old(self)),
                count == start.len(),
                turn == states.len(),
                states == whole.take(turn as int),
                states.len() <= start.len(),
                i <= self.flows@.len(),
                self.flows@.len() - i == start.len() - states.len(),
                self.flows@ == finalized_flows(start.take(states.len() as int), states) + start.skip(
                    states.len() as int,
                ),
                i == finalized_flows(start.take(states.len() as int), states).len(),
                descends(start, self.flows@),
                self.outbox@ == (BatchView {
                    closes: closes + finalized_closes(start.take(states.len() as int), states),
                    ..old(self).outbox@
                }),
                self.stats == (FlowStats {
                    tcp_flush_events: raised(
                        old(self).stats.tcp_flush_events,
                        finalized_closes(start.take(states.len() as int), states).len(),
                    ),
                    ..old(self).stats
                }),
                self.counters == old(self).counters,
                self.jitter_state == old(self).jitter_state,
            decreases start.len() - states.len(),
        {
            let ghost before = self.flows@;
            let ghost done = states.len() as int;
            let ghost seen = states;
            proof {
                assert(before[i as int] == start[done]);
                assert(before[i as int].wf());
            }
            assert(turn < count);
            let state = probed[turn];
            turn = turn + 1;
            proof {
                states = states.push(state);
                assert(states =~= whole.take(turn as int));
                assert(start.take(done + 1).drop_last() =~= start.take(done));
                assert(start.take(done + 1).last() == start[done]);
                assert(states.drop_last() =~= seen);
            }
            match closing_reason(&self.flows[i], state) {
                Some(reason) => {
                    let handle = self.flows[i].handle;
                    self.outbox.add_close(handle, reason, FlowKind::Tcp);
                    self.remove_at(i);
                    self.stats.tcp_flush_events = bump(self.stats.tcp_flush_events);
                    proof {
                        assert(self.flows@ =~= finalized_flows(start.take(done + 1), states)
                            + start.skip(done + 1));
                        assert(self.outbox@.closes =~= closes + finalized_closes(
                            start.take(done + 1),
                            states,
                        ));
                        lemma_removed_descends(before, i as int);
                        lemma_descends_chain(start, before, self.flows@);
                    }
                },
                None => {
                    proof {
                        assert(self.flows@ =~= finalized_flows(start.take(done + 1), states)
                            + start.skip(done + 1));
                    }
                    i = i + 1;
                },
            }
        }
        proof {
            assert(start.take(states.len() as int) =~= start);
            assert(start.skip(states.len() as int) =~= Seq::<FlowEntry>::empty());
            assert(self.flows@ =~= finalized_flows(start, states));
            assert(whole.take(whole.len() as int) =~= whole);
            lemma_finalized_gone(start, states);
            lemma_closes_behind(closes, finalized_closes(start, states), self.flows@);
        }
    }

    /// Reads the states that the finaliser goes by, flow by flow, without
    /// changing anything.
    fn probe_states(&self) -> (states: Vec<TcpState>)
        requires
            self.wf(),
        ensures
            states@ == socket_states(*self),
    {
        let mut states: Vec<TcpState> = Vec::new();
        let mut i: usize = 0;
        while i < self.flows.len()
            invariant
                self.wf(),
                i <= self.flows@.len(),
                states@.len() == i,
                forall|k: int| 0 <= k < i ==> #[trigger] states@[k] == probed_state(*self, k),
            decreases self.flows@.len() - i,
        {
            let probe = match self.flows[i].kind {
                FlowKind::Tcp => !self.flows[i].pending_dial && self.flows[i].ready,
                FlowKind::Udp => false,
            };
            let state = if probe {
                tcp_state(&self.sockets, self.flows[i].socket)
            } else {
                TcpState::Listen
            };
            states.push(state);
            i = i + 1;
        }
        assert(states@ =~= socket_states(*self));
        states
    }
}

} // verus!
