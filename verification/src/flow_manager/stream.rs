//! The path of a payload from the host towards the client, flow by flow:
//! into the buffer while the dial is out, into the delay line of a shaped
//! flow, into the embedded socket as far as it takes it, and into the buffer
//! behind what already waits there. Every step keeps the account of the
//! byte stream.

use crate::flow_manager::queue::{
    concat_payloads, lemma_concat_push, queue_accepts, queue_after_push, total_bytes,
    TimedPayload, TimedPayloadView,
};
use crate::flow_manager::state::{
    add_time, flow_invariant, shaped_bytes, stream_intact, time_after, FlowEntry, FlowView,
    ShaperView, TCP_BACKPRESSURE_MAX_COOLDOWN_MS, TCP_BACKPRESSURE_RETRY_MS,
};
use vstd::prelude::*;

verus! {

/// `payload` as it stands in the buffer of a flow.
pub open spec fn item_of(payload: Seq<u8>) -> TimedPayloadView {
    TimedPayloadView { ready_at: 0, payload }
}

/// Whether `queue` takes a payload of `len` bytes without giving up anything.
pub open spec fn takes_without_loss(
    queue: Seq<TimedPayloadView>,
    max_payloads: nat,
    max_bytes: nat,
    len: nat,
) -> bool {
    queue.len() < max_payloads && total_bytes(queue) + len <= max_bytes
}

/// The wait before the next try under backpressure: the cooldown, 200 ms at most.
pub open spec fn capped_cooldown(cooldown: u64) -> u64 {
    if cooldown > TCP_BACKPRESSURE_MAX_COOLDOWN_MS {
        TCP_BACKPRESSURE_MAX_COOLDOWN_MS
    } else {
        cooldown
    }
}

/// The cooldown after one more wait: twice as long, 200 ms at most.
pub open spec fn doubled_cooldown(cooldown: u64) -> u64 {
    if cooldown * 2 > TCP_BACKPRESSURE_MAX_COOLDOWN_MS {
        TCP_BACKPRESSURE_MAX_COOLDOWN_MS
    } else {
        (cooldown * 2) as u64
    }
}

/// The flow with `payload` noted as delivered by the host.
pub open spec fn noted(flow: FlowView, payload: Seq<u8>) -> FlowView {
    FlowView { delivered: flow.delivered + payload, ..flow }
}

/// The flow without the oldest payload of its delay line.
pub open spec fn released(flow: FlowView) -> FlowView {
    FlowView {
        shaping: match flow.shaping {
            Some(shaper) => Some(
                ShaperView { config: shaper.config, queue: shaper.queue.drop_first() },
            ),
            None => None,
        },
        ..flow
    }
}

/// The flow after `payload` was delivered at `now` while its dial is out:
/// the payload goes to the buffer, if the buffer takes it.
pub open spec fn buffered_delivery(
    flow: FlowView,
    payload: Seq<u8>,
    max_payloads: nat,
    max_bytes: nat,
    now: u64,
) -> FlowView {
    FlowView {
        buffered: queue_after_push(flow.buffered, max_payloads, max_bytes, item_of(payload)),
        last_activity: if queue_accepts(max_bytes, payload) {
            now
        } else {
            flow.last_activity
        },
        delivered: flow.delivered + payload,
        lossless: flow.lossless && takes_without_loss(
            flow.buffered,
            max_payloads,
            max_bytes,
            payload.len(),
        ),
        ..flow
    }
}

/// The flow after `payload` was delivered at `now` to its delay line, to
/// leave at `ready_at`.
pub open spec fn shaped_delivery(
    flow: FlowView,
    payload: Seq<u8>,
    ready_at: u64,
    max_payloads: nat,
    max_bytes: nat,
    now: u64,
) -> FlowView {
    match flow.shaping {
        Some(shaper) => FlowView {
            shaping: Some(
                ShaperView {
                    config: shaper.config,
                    queue: queue_after_push(
                        shaper.queue,
                        max_payloads,
                        max_bytes,
                        TimedPayloadView { ready_at, payload },
                    ),
                },
            ),
            last_activity: if queue_accepts(max_bytes, payload) {
                now
            } else {
                flow.last_activity
            },
            delivered: flow.delivered + payload,
            lossless: flow.lossless && takes_without_loss(
                shaper.queue,
                max_payloads,
                max_bytes,
                payload.len(),
            ),
            ..flow
        },
        None => flow,
    }
}

/// The flow under backpressure at `now`, with `rest` still to go to the
/// socket: the rest waits in the buffer, if the buffer takes it, and the
/// next try is set behind the cooldown, which doubles.
pub open spec fn backpressured(
    flow: FlowView,
    rest: Seq<u8>,
    max_payloads: nat,
    max_bytes: nat,
    now: u64,
) -> FlowView {
    if queue_accepts(max_bytes, rest) {
        FlowView {
            buffered: queue_after_push(flow.buffered, max_payloads, max_bytes, item_of(rest)),
            backpressure_retry_at: Some(
                time_after(now, capped_cooldown(flow.backpressure_cooldown_ms)),
            ),
            backpressure_cooldown_ms: doubled_cooldown(flow.backpressure_cooldown_ms),
            last_activity: now,
            lossless: flow.lossless && takes_without_loss(
                flow.buffered,
                max_payloads,
                max_bytes,
                rest.len(),
            ),
            ..flow
        }
    } else {
        FlowView { lossless: false, ..flow }
    }
}

/// The flow after its socket took the first `taken` bytes of `payload` at
/// `now`: where it took all of them the backpressure is over, else the rest
/// waits in the buffer.
pub open spec fn tcp_sent(
    flow: FlowView,
    payload: Seq<u8>,
    taken: nat,
    max_payloads: nat,
    max_bytes: nat,
    now: u64,
) -> FlowView {
    let pushed = FlowView { pushed: flow.pushed + payload.take(taken as int), ..flow };
    if taken == payload.len() {
        FlowView {
            backpressure_retry_at: None,
            backpressure_cooldown_ms: TCP_BACKPRESSURE_RETRY_MS,
            last_activity: now,
            ..pushed
        }
    } else {
        backpressured(pushed, payload.skip(taken as int), max_payloads, max_bytes, now)
    }
}

/// The flow after a payload went out to the client at `now` without the socket.
pub open spec fn sent_directly(flow: FlowView, now: u64) -> FlowView {
    FlowView {
        backpressure_retry_at: None,
        backpressure_cooldown_ms: TCP_BACKPRESSURE_RETRY_MS,
        last_activity: now,
        ..flow
    }
}

/// The flow as it enters the direct path with `payload`: a payload from the
/// host is noted as delivered, one from the delay line leaves the line.
pub open spec fn entering(flow: FlowView, payload: Seq<u8>, from_shaper: bool) -> FlowView {
    if from_shaper {
        released(flow)
    } else {
        noted(flow, payload)
    }
}

/// The bytes of a queue begin with its oldest payload.
pub proof fn lemma_concat_drop_first(queue: Seq<TimedPayloadView>)
    requires
        queue.len() > 0,
    ensures
        concat_payloads(queue) == queue[0].payload + concat_payloads(queue.drop_first()),
{
}

/// The flow after its socket took the first `taken` bytes of the oldest
/// payload of its buffer at `now`: a payload that went whole leaves the
/// buffer; of any other the rest stays at the head, and the next try is set
/// behind the cooldown, which doubles.
pub open spec fn flush_step(flow: FlowView, taken: nat, now: u64) -> FlowView {
    let head = flow.buffered[0];
    let pushed = FlowView { pushed: flow.pushed + head.payload.take(taken as int), ..flow };
    if taken == head.payload.len() {
        FlowView { buffered: flow.buffered.drop_first(), ..pushed }
    } else {
        FlowView {
            buffered: seq![
                TimedPayloadView { ready_at: head.ready_at, payload: head.payload.skip(taken as int) },
            ] + flow.buffered.drop_first(),
            backpressure_retry_at: Some(
                time_after(now, capped_cooldown(flow.backpressure_cooldown_ms)),
            ),
            backpressure_cooldown_ms: doubled_cooldown(flow.backpressure_cooldown_ms),
            ..pushed
        }
    }
}

/// Whether `after` is `before` further along with flushing its buffer into
/// its socket: no byte was lost on the way, and nothing else changed but
/// the timers of the backpressure.
pub open spec fn flush_conserved(before: FlowView, after: FlowView) -> bool {
    &&& after.pushed + concat_payloads(after.buffered) == before.pushed + concat_payloads(
        before.buffered,
    )
    &&& after.buffered.len() <= before.buffered.len()
    &&& after == (FlowView {
        pushed: after.pushed,
        buffered: after.buffered,
        backpressure_retry_at: after.backpressure_retry_at,
        backpressure_cooldown_ms: after.backpressure_cooldown_ms,
        ..before
    })
}

/// The flow with its backpressure over.
pub open spec fn relieved(flow: FlowView) -> FlowView {
    FlowView {
        backpressure_retry_at: None,
        backpressure_cooldown_ms: TCP_BACKPRESSURE_RETRY_MS,
        ..flow
    }
}

/// A step of the flush loses no byte.
pub proof fn lemma_flush_step_conserves(flow: FlowView, taken: nat, now: u64)
    requires
        flow.buffered.len() > 0,
        taken <= flow.buffered[0].payload.len(),
    ensures
        flush_conserved(flow, flush_step(flow, taken, now)),
{
    let head = flow.buffered[0];
    let after = flush_step(flow, taken, now);
    lemma_concat_drop_first(flow.buffered);
    assert(head.payload =~= head.payload.take(taken as int) + head.payload.skip(taken as int));
    if taken != head.payload.len() {
        assert(after.buffered.drop_first() =~= flow.buffered.drop_first());
        lemma_concat_drop_first(after.buffered);
    } else {
        assert(head.payload.take(taken as int) =~= head.payload);
    }
    assert(after.pushed + concat_payloads(after.buffered) =~= flow.pushed + concat_payloads(
        flow.buffered,
    ));
}

/// What holds of every flow but for the account of its byte stream.
pub open spec fn flow_invariant_core(flow: FlowView) -> bool {
    &&& flow.key.kind == flow.kind
    &&& flow.dial_attempts <= crate::flow_manager::state::MAX_DIAL_ATTEMPTS
    &&& flow.dials_requested == flow.dial_attempts
    &&& flow.pending_dial ==> !flow.ready
    &&& flow.handle >= 1
    &&& (flow.shaping is Some && flow.shaping->0.queue.len() > 0) ==> flow.ready
}

/// The account of the stream survives backpressure: the rest that waits
/// stands behind what the buffer held, and before the delay line.
pub proof fn lemma_backpressure_keeps_stream(
    flow: FlowView,
    rest: Seq<u8>,
    delivered: Seq<u8>,
    max_payloads: nat,
    max_bytes: nat,
    now: u64,
)
    requires
        rest.len() > 0,
        (flow.kind is Tcp && flow.lossless) ==> delivered == flow.pushed + concat_payloads(
            flow.buffered,
        ) + rest + shaped_bytes(flow),
    ensures
        ({
            let after = backpressured(
                FlowView { delivered, ..flow },
                rest,
                max_payloads,
                max_bytes,
                now,
            );
            (after.kind is Tcp && after.lossless) ==> stream_intact(after)
        }),
{
    let start = FlowView { delivered, ..flow };
    let after = backpressured(start, rest, max_payloads, max_bytes, now);
    if after.kind is Tcp && after.lossless {
        lemma_concat_push(flow.buffered, item_of(rest));
        assert(after.buffered == flow.buffered.push(item_of(rest)));
        assert(shaped_bytes(after) == shaped_bytes(flow));
        assert(after.delivered =~= after.pushed + concat_payloads(after.buffered) + shaped_bytes(
            after,
        ));
    }
}

/// The direct path of a TCP flow keeps the invariant of the flow.
pub proof fn lemma_tcp_sent_keeps_invariant(
    flow: FlowView,
    payload: Seq<u8>,
    taken: nat,
    from_shaper: bool,
    max_payloads: nat,
    max_bytes: nat,
    now: u64,
)
    requires
        flow_invariant(flow),
        flow.ready,
        payload.len() > 0,
        taken <= payload.len(),
        taken > 0 ==> flow.buffered.len() == 0,
        from_shaper ==> (flow.shaping is Some && flow.shaping->0.queue.len() > 0
            && flow.shaping->0.queue[0].payload == payload),
        !from_shaper ==> flow.shaping is None,
    ensures
        flow_invariant(
            tcp_sent(entering(flow, payload, from_shaper), payload, taken, max_payloads, max_bytes, now),
        ),
{
    let entered = entering(flow, payload, from_shaper);
    let after = tcp_sent(entered, payload, taken, max_payloads, max_bytes, now);
    assert(flow_invariant_core(after));
    if from_shaper {
        lemma_concat_drop_first(flow.shaping->0.queue);
    }
    // What was delivered is what the socket took, the buffer, the payload
    // and the delay line behind it.
    let pushed = FlowView { pushed: entered.pushed + payload.take(taken as int), ..entered };
    let rest = payload.skip(taken as int);
    assert(payload =~= payload.take(taken as int) + rest);
    if flow.kind is Tcp && flow.lossless {
        assert(concat_payloads(Seq::<TimedPayloadView>::empty()) =~= Seq::<u8>::empty());
        if taken > 0 {
            assert(flow.buffered =~= Seq::<TimedPayloadView>::empty());
        } else {
            assert(payload.take(0) =~= Seq::<u8>::empty());
        }
        assert(entered.delivered =~= pushed.pushed + concat_payloads(pushed.buffered) + rest
            + shaped_bytes(pushed));
    }
    if taken == payload.len() {
        assert(rest =~= Seq::<u8>::empty());
        if after.kind is Tcp && after.lossless {
            assert(after.delivered =~= after.pushed + concat_payloads(after.buffered)
                + shaped_bytes(after));
        }
    } else {
        lemma_backpressure_keeps_stream(
            pushed,
            rest,
            entered.delivered,
            max_payloads,
            max_bytes,
            now,
        );
        assert(pushed == (FlowView { delivered: entered.delivered, ..pushed }));
    }
}

impl FlowEntry {
    /// The queues of the entry keep their limits.
    pub open spec fn queues_wf(&self) -> bool {
        &&& self.buffered.wf()
        &&& self.shaping matches Some(shaper) ==> shaper.wf()
    }

    /// Whether the limits of the queues of the two entries are the same.
    pub open spec fn same_limits(&self, other: &FlowEntry) -> bool {
        &&& self.buffered.spec_max_payloads() == other.buffered.spec_max_payloads()
        &&& self.buffered.spec_max_bytes() == other.buffered.spec_max_bytes()
        &&& self.shaping is Some == other.shaping is Some
        &&& (self.shaping is Some && other.shaping is Some) ==> self.shaping->0.spec_max_payloads()
            == other.shaping->0.spec_max_payloads() && self.shaping->0.spec_max_bytes()
            == other.shaping->0.spec_max_bytes()
    }

    /// Takes a payload that the host delivered while the dial is out.
    pub(crate) fn buffer_delivery(&mut self, payload: &[u8], now: u64) -> (accepted: bool)
        requires
            old(self).wf(),
            !old(self).ready,
            payload@.len() > 0,
        ensures
            final(self).wf(),
            final(self).same_limits(old(self)),
            accepted == queue_accepts(old(self).buffered.spec_max_bytes(), payload@),
            final(self)@ == buffered_delivery(
                old(self)@,
                payload@,
                old(self).buffered.spec_max_payloads(),
                old(self).buffered.spec_max_bytes(),
                now,
            ),
    {
        proof {
            self.buffered.lemma_bounds();
            lemma_concat_push(self@.buffered, item_of(payload@));
        }
        let ghost fits = takes_without_loss(
            self@.buffered,
            self.buffered.spec_max_payloads(),
            self.buffered.spec_max_bytes(),
            payload@.len(),
        );
        let accepted = self.buffered.push(payload, 0);
        if accepted {
            self.last_activity = now;
        }
        proof {
            self.delivered@ = self.delivered@ + payload@;
            self.lossless@ = self.lossless@ && fits;
            if self@.kind is Tcp && self@.lossless {
                assert(shaped_bytes(self@) =~= Seq::<u8>::empty());
                assert(shaped_bytes(old(self)@) =~= Seq::<u8>::empty());
                assert(self@.delivered =~= self@.pushed + concat_payloads(self@.buffered)
                    + shaped_bytes(self@));
            }
        }
        accepted
    }

    /// Takes a payload that the host delivered into the delay line.
    pub(crate) fn shape_delivery(&mut self, payload: &[u8], ready_at: u64, now: u64) -> (accepted: bool)
        requires
            old(self).wf(),
            old(self).ready,
            old(self).shaping is Some,
            payload@.len() > 0,
        ensures
            final(self).wf(),
            final(self).same_limits(old(self)),
            accepted == queue_accepts(old(self).shaping->0.spec_max_bytes(), payload@),
            final(self)@ == shaped_delivery(
                old(self)@,
                payload@,
                ready_at,
                old(self).shaping->0.spec_max_payloads(),
                old(self).shaping->0.spec_max_bytes(),
                now,
            ),
    {
        let ghost queue = self@.shaping->0.queue;
        let ghost max_payloads = self.shaping->0.spec_max_payloads();
        let ghost max_bytes = self.shaping->0.spec_max_bytes();
        let ghost fits = takes_without_loss(queue, max_payloads, max_bytes, payload@.len());
        proof {
            lemma_concat_push(queue, TimedPayloadView { ready_at, payload: payload@ });
        }
        let mut shaper = self.shaping.take().unwrap();
        let accepted = shaper.enqueue(payload, ready_at);
        self.shaping = Some(shaper);
        if accepted {
            self.last_activity = now;
        }
        proof {
            self.delivered@ = self.delivered@ + payload@;
            self.lossless@ = self.lossless@ && fits;
            if self@.kind is Tcp && self@.lossless {
                assert(self@.delivered =~= self@.pushed + concat_payloads(self@.buffered)
                    + shaped_bytes(self@));
            }
        }
        accepted
    }

    /// Settles a payload on the direct path of a ready TCP flow, of which
    /// the socket took the first `taken` bytes: a payload from the host is
    /// noted as delivered, one from the delay line leaves the line; what the
    /// socket did not take waits in the buffer. The socket is offered a
    /// payload only while nothing waits in the buffer.
    pub fn settle_tcp(&mut self, payload: &[u8], taken: usize, from_shaper: bool, now: u64) -> (accepted:
        bool)
        requires
            old(self).wf(),
            old(self).ready,
            payload@.len() > 0,
            taken <= payload@.len(),
            taken > 0 ==> old(self)@.buffered.len() == 0,
            from_shaper ==> (old(self)@.shaping is Some && old(self)@.shaping->0.queue.len() > 0
                && old(self)@.shaping->0.queue[0].payload == payload@),
            !from_shaper ==> old(self)@.shaping is None,
        ensures
            final(self).wf(),
            final(self).same_limits(old(self)),
            accepted == (taken == payload@.len() || queue_accepts(
                old(self).buffered.spec_max_bytes(),
                payload@.skip(taken as int),
            )),
            final(self)@ == tcp_sent(
                entering(old(self)@, payload@, from_shaper),
                payload@,
                taken as nat,
                old(self).buffered.spec_max_payloads(),
                old(self).buffered.spec_max_bytes(),
                now,
            ),
    {
        proof {
            self.buffered.lemma_bounds();
            lemma_tcp_sent_keeps_invariant(
                self@,
                payload@,
                taken as nat,
                from_shaper,
                self.buffered.spec_max_payloads(),
                self.buffered.spec_max_bytes(),
                now,
            );
        }
        self.enter_direct(payload, from_shaper);
        proof {
            self.pushed@ = self.pushed@ + payload@.take(taken as int);
        }
        if taken == payload.len() {
            self.backpressure_retry_at = None;
            self.backpressure_cooldown_ms = TCP_BACKPRESSURE_RETRY_MS;
            self.last_activity = now;
            return true;
        }
        let rest = vstd::slice::slice_subrange(payload, taken, payload.len());
        assert(rest@ =~= payload@.skip(taken as int));
        self.hold_back(rest, now)
    }

    /// Enters the direct path with `payload`: a payload from the host is
    /// noted as delivered, one from the delay line leaves the line.
    fn enter_direct(&mut self, payload: &[u8], from_shaper: bool)
        requires
            old(self).queues_wf(),
            from_shaper ==> (old(self)@.shaping is Some && old(self)@.shaping->0.queue.len() > 0),
        ensures
            final(self).queues_wf(),
            final(self).same_limits(old(self)),
            final(self)@ == entering(old(self)@, payload@, from_shaper),
    {
        if from_shaper {
            let mut shaper = self.shaping.take().unwrap();
            let _ = shaper.pop_head();
            self.shaping = Some(shaper);
        } else {
            proof {
                self.delivered@ = self.delivered@ + payload@;
            }
        }
    }

    /// Puts `rest` into the buffer under backpressure, if the buffer takes it.
    fn hold_back(&mut self, rest: &[u8], now: u64) -> (accepted: bool)
        requires
            old(self).queues_wf(),
            rest@.len() > 0,
        ensures
            final(self).queues_wf(),
            final(self).same_limits(old(self)),
            accepted == queue_accepts(old(self).buffered.spec_max_bytes(), rest@),
            final(self)@ == backpressured(
                old(self)@,
                rest@,
                old(self).buffered.spec_max_payloads(),
                old(self).buffered.spec_max_bytes(),
                now,
            ),
    {
        let ghost fits = takes_without_loss(
            self@.buffered,
            self.buffered.spec_max_payloads(),
            self.buffered.spec_max_bytes(),
            rest@.len(),
        );
        let ghost start = self@;
        if rest.len() > self.buffered.max_bytes() {
            proof {
                self.lossless@ = false;
            }
            return false;
        }
        let accepted = self.buffered.push(rest, 0);
        let wait = if self.backpressure_cooldown_ms > TCP_BACKPRESSURE_MAX_COOLDOWN_MS {
            TCP_BACKPRESSURE_MAX_COOLDOWN_MS
        } else {
            self.backpressure_cooldown_ms
        };
        self.backpressure_retry_at = Some(add_time(now, wait));
        self.backpressure_cooldown_ms = if self.backpressure_cooldown_ms
            > TCP_BACKPRESSURE_MAX_COOLDOWN_MS / 2 {
            TCP_BACKPRESSURE_MAX_COOLDOWN_MS
        } else {
            self.backpressure_cooldown_ms * 2
        };
        self.last_activity = now;
        proof {
            self.lossless@ = self.lossless@ && fits;
        }
        true
    }

    /// Settles a payload on the direct path of a ready UDP flow, which went
    /// out as a frame: a payload from the delay line leaves the line.
    pub(crate) fn settle_udp(&mut self, payload: &[u8], from_shaper: bool, now: u64)
        requires
            old(self).wf(),
            old(self).ready,
            old(self).kind is Udp,
            from_shaper ==> (old(self)@.shaping is Some && old(self)@.shaping->0.queue.len() > 0),
        ensures
            final(self).wf(),
            final(self).same_limits(old(self)),
            final(self)@ == sent_directly(entering(old(self)@, payload@, from_shaper), now),
    {
        if from_shaper {
            let mut shaper = self.shaping.take().unwrap();
            let _ = shaper.pop_head();
            self.shaping = Some(shaper);
        } else {
            proof {
                self.delivered@ = self.delivered@ + payload@;
            }
        }
        self.backpressure_retry_at = None;
        self.backpressure_cooldown_ms = TCP_BACKPRESSURE_RETRY_MS;
        self.last_activity = now;
    }

    /// Gives up a payload on the direct path, of which nothing could be
    /// sent: the account of the stream ends here.
    pub(crate) fn forfeit(&mut self, payload: &[u8], from_shaper: bool)
        requires
            old(self).wf(),
            old(self).ready,
            from_shaper ==> (old(self)@.shaping is Some && old(self)@.shaping->0.queue.len() > 0),
        ensures
            final(self).wf(),
            final(self).same_limits(old(self)),
            final(self)@ == (FlowView {
                lossless: false,
                ..entering(old(self)@, payload@, from_shaper)
            }),
    {
        if from_shaper {
            let mut shaper = self.shaping.take().unwrap();
            let _ = shaper.pop_head();
            self.shaping = Some(shaper);
        } else {
            proof {
                self.delivered@ = self.delivered@ + payload@;
            }
        }
        proof {
            self.lossless@ = false;
        }
    }
    /// Settles an attempt to flush the oldest payload of the buffer, of
    /// which the socket took the first `taken` bytes; says whether the
    /// payload went whole.
    pub(crate) fn settle_flush(&mut self, taken: usize, now: u64) -> (more: bool)
        requires
            old(self).wf(),
            old(self)@.buffered.len() > 0,
            taken <= old(self)@.buffered[0].payload.len(),
        ensures
            final(self).wf(),
            final(self).same_limits(old(self)),
            final(self)@ == flush_step(old(self)@, taken as nat, now),
            more == (taken == old(self)@.buffered[0].payload.len()),
    {
        let ghost start = self@;
        proof {
            self.buffered.lemma_bounds();
            lemma_flush_step_conserves(start, taken as nat, now);
            lemma_concat_drop_first(start.buffered);
        }
        let item = self.buffered.pop_front().unwrap();
        proof {
            self.pushed@ = self.pushed@ + item@.payload.take(taken as int);
        }
        if taken == item.payload.len() {
            proof {
                if self@.kind is Tcp && self@.lossless {
                    assert(self@.delivered =~= self@.pushed + concat_payloads(self@.buffered)
                        + shaped_bytes(self@));
                }
            }
            return true;
        }
        let rest = vstd::slice::slice_to_vec(
            vstd::slice::slice_subrange(item.payload.as_slice(), taken, item.payload.len()),
        );
        proof {
            assert(rest@ =~= item@.payload.skip(taken as int));
            assert(total_bytes(start.buffered) == start.buffered[0].payload.len() + total_bytes(
                start.buffered.drop_first(),
            ));
        }
        self.buffered.push_front(TimedPayload { ready_at: item.ready_at, payload: rest });
        let wait = if self.backpressure_cooldown_ms > TCP_BACKPRESSURE_MAX_COOLDOWN_MS {
            TCP_BACKPRESSURE_MAX_COOLDOWN_MS
        } else {
            self.backpressure_cooldown_ms
        };
        self.backpressure_retry_at = Some(add_time(now, wait));
        self.backpressure_cooldown_ms = if self.backpressure_cooldown_ms
            > TCP_BACKPRESSURE_MAX_COOLDOWN_MS / 2 {
            TCP_BACKPRESSURE_MAX_COOLDOWN_MS
        } else {
            self.backpressure_cooldown_ms * 2
        };
        proof {
            let target = flush_step(start, taken as nat, now);
            assert(self@.buffered =~= target.buffered);
            if self@.kind is Tcp && self@.lossless {
                assert(self@.delivered =~= self@.pushed + concat_payloads(self@.buffered)
                    + shaped_bytes(self@));
            }
        }
        false
    }

    /// Ends the backpressure of the flow.
    pub(crate) fn relieve(&mut self)
        requires
            old(self).wf(),
        ensures
            final(self).wf(),
            final(self).same_limits(old(self)),
            final(self)@ == relieved(old(self)@),
    {
        self.backpressure_retry_at = None;
        self.backpressure_cooldown_ms = TCP_BACKPRESSURE_RETRY_MS;
    }

    /// Takes every payload out of the buffer of a UDP flow.
    pub(crate) fn take_buffered(&mut self) -> (payloads: Vec<TimedPayload>)
        requires
            old(self).wf(),
            old(self).kind is Udp,
        ensures
            final(self).wf(),
            final(self).same_limits(old(self)),
            final(self)@ == (FlowView { buffered: Seq::empty(), ..old(self)@ }),
            crate::flow_manager::queue::timed_view(payloads@) == old(self)@.buffered,
    {
        self.buffered.take_all()
    }
}

} // verus!
