//! A bounded queue of payloads: the buffer of a flow that waits for its dial,
//! and the delay line of a shaped flow. A queue that is full, by count or by
//! bytes, gives up its oldest payloads to take a new one.

use std::collections::VecDeque;
use vstd::prelude::*;

verus! {

/// A payload with the time from which it may leave its queue.
pub struct TimedPayload {
    pub ready_at: u64,
    pub payload: Vec<u8>,
}

/// A queued payload as a mathematical value.
pub ghost struct TimedPayloadView {
    pub ready_at: u64,
    pub payload: Seq<u8>,
}

impl View for TimedPayload {
    type V = TimedPayloadView;

    open spec fn view(&self) -> TimedPayloadView {
        TimedPayloadView { ready_at: self.ready_at, payload: self.payload@ }
    }
}

/// The views of the payloads in a queue.
pub open spec fn timed_view(queue: Seq<TimedPayload>) -> Seq<TimedPayloadView> {
    queue.map_values(|p: TimedPayload| p@)
}

/// The bytes that the payloads of `queue` hold together.
pub open spec fn total_bytes(queue: Seq<TimedPayloadView>) -> nat
    decreases queue.len(),
{
    if queue.len() == 0 {
        0
    } else {
        queue[0].payload.len() + total_bytes(queue.drop_first())
    }
}

/// The payloads of `queue` in their order, as one run of bytes.
pub open spec fn concat_payloads(queue: Seq<TimedPayloadView>) -> Seq<u8>
    decreases queue.len(),
{
    if queue.len() == 0 {
        Seq::empty()
    } else {
        queue[0].payload + concat_payloads(queue.drop_first())
    }
}

/// `queue` without the oldest payloads that stand in the way of a payload of
/// `len` bytes: those that must leave until the queue holds fewer than
/// `max_payloads` payloads and `len` more bytes fit under `max_bytes`.
pub open spec fn evicted_for(
    queue: Seq<TimedPayloadView>,
    max_payloads: nat,
    max_bytes: nat,
    len: nat,
) -> Seq<TimedPayloadView>
    decreases queue.len(),
{
    if queue.len() > 0 && (queue.len() >= max_payloads || total_bytes(queue) + len > max_bytes) {
        evicted_for(queue.drop_first(), max_payloads, max_bytes, len)
    } else {
        queue
    }
}

/// Whether a queue with a byte limit of `max_bytes` takes `payload`: an empty
/// payload is taken and not queued, one over the limit is refused.
pub open spec fn queue_accepts(max_bytes: nat, payload: Seq<u8>) -> bool {
    payload.len() <= max_bytes
}

/// `queue` after `item` was offered to it.
pub open spec fn queue_after_push(
    queue: Seq<TimedPayloadView>,
    max_payloads: nat,
    max_bytes: nat,
    item: TimedPayloadView,
) -> Seq<TimedPayloadView> {
    if item.payload.len() == 0 || item.payload.len() > max_bytes {
        queue
    } else {
        evicted_for(queue, max_payloads, max_bytes, item.payload.len()).push(item)
    }
}

/// A payload behind a queue adds its length to the bytes.
pub proof fn lemma_total_bytes_push(queue: Seq<TimedPayloadView>, item: TimedPayloadView)
    ensures
        total_bytes(queue.push(item)) == total_bytes(queue) + item.payload.len(),
    decreases queue.len(),
{
    if queue.len() == 0 {
        assert(queue.push(item).drop_first() =~= Seq::<TimedPayloadView>::empty());
        assert(total_bytes(Seq::<TimedPayloadView>::empty()) == 0);
        assert(total_bytes(queue) == 0);
    } else {
        assert(queue.push(item).drop_first() =~= queue.drop_first().push(item));
        lemma_total_bytes_push(queue.drop_first(), item);
    }
}

/// A payload behind a queue comes last in the bytes of the queue.
pub proof fn lemma_concat_push(queue: Seq<TimedPayloadView>, item: TimedPayloadView)
    ensures
        concat_payloads(queue.push(item)) == concat_payloads(queue) + item.payload,
    decreases queue.len(),
{
    if queue.len() == 0 {
        assert(queue.push(item).drop_first() =~= Seq::<TimedPayloadView>::empty());
        assert(concat_payloads(Seq::<TimedPayloadView>::empty()) =~= Seq::<u8>::empty());
        assert(concat_payloads(queue) =~= Seq::<u8>::empty());
        assert(concat_payloads(queue.push(item)) =~= concat_payloads(queue) + item.payload);
    } else {
        assert(queue.push(item).drop_first() =~= queue.drop_first().push(item));
        lemma_concat_push(queue.drop_first(), item);
        assert(concat_payloads(queue.push(item)) =~= concat_payloads(queue) + item.payload);
    }
}

/// Eviction leaves a queue that has room for the payload it was made for.
pub proof fn lemma_evicted_has_room(
    queue: Seq<TimedPayloadView>,
    max_payloads: nat,
    max_bytes: nat,
    len: nat,
)
    requires
        max_payloads >= 1,
        len <= max_bytes,
    ensures
        evicted_for(queue, max_payloads, max_bytes, len).len() < max_payloads,
        total_bytes(evicted_for(queue, max_payloads, max_bytes, len)) + len <= max_bytes,
        evicted_for(queue, max_payloads, max_bytes, len).len() <= queue.len(),
    decreases queue.len(),
{
    if queue.len() > 0 && (queue.len() >= max_payloads || total_bytes(queue) + len > max_bytes) {
        lemma_evicted_has_room(queue.drop_first(), max_payloads, max_bytes, len);
    }
}

/// A queue that has room loses nothing to a push: the payload is added as the newest.
pub proof fn lemma_push_with_room(
    queue: Seq<TimedPayloadView>,
    max_payloads: nat,
    max_bytes: nat,
    item: TimedPayloadView,
)
    requires
        item.payload.len() > 0,
        queue.len() < max_payloads,
        total_bytes(queue) + item.payload.len() <= max_bytes,
    ensures
        queue_after_push(queue, max_payloads, max_bytes, item) == queue.push(item),
{
}

/// A queue that holds its full count of payloads gives up exactly the oldest
/// for a new one that fits beside the rest: the count stays, and the new
/// payload is the newest.
pub proof fn lemma_push_on_full_queue(
    queue: Seq<TimedPayloadView>,
    max_payloads: nat,
    max_bytes: nat,
    item: TimedPayloadView,
)
    requires
        max_payloads >= 1,
        queue.len() == max_payloads,
        item.payload.len() > 0,
        total_bytes(queue.drop_first()) + item.payload.len() <= max_bytes,
    ensures
        queue_after_push(queue, max_payloads, max_bytes, item) == queue.drop_first().push(item),
        queue_after_push(queue, max_payloads, max_bytes, item).len() == max_payloads,
        queue_after_push(queue, max_payloads, max_bytes, item).last() == item,
{
    let rest = queue.drop_first();
    assert(total_bytes(queue) == queue[0].payload.len() + total_bytes(rest));
    assert(evicted_for(queue, max_payloads, max_bytes, item.payload.len()) == evicted_for(
        rest,
        max_payloads,
        max_bytes,
        item.payload.len(),
    ));
    assert(evicted_for(rest, max_payloads, max_bytes, item.payload.len()) == rest);
}

/// A bounded first-in-first-out queue of payloads.
pub struct BoundedQueue {
    queue: VecDeque<TimedPayload>,
    bytes: usize,
    max_payloads: usize,
    max_bytes: usize,
}

impl View for BoundedQueue {
    type V = Seq<TimedPayloadView>;

    closed spec fn view(&self) -> Seq<TimedPayloadView> {
        timed_view(self.queue@)
    }
}

impl BoundedQueue {
    pub closed spec fn spec_max_payloads(&self) -> nat {
        self.max_payloads as nat
    }

    pub closed spec fn spec_max_bytes(&self) -> nat {
        self.max_bytes as nat
    }

    /// The queue holds no more payloads and bytes than its limits allow, and no empty payload.
    pub closed spec fn wf(&self) -> bool {
        &&& self.max_payloads >= 1
        &&& self.queue@.len() <= self.max_payloads
        &&& self.bytes == total_bytes(self@)
        &&& self.bytes <= self.max_bytes
        &&& forall|i: int| 0 <= i < self@.len() ==> (#[trigger] self@[i]).payload.len() > 0
    }

    /// What a well-formed queue keeps to: its two limits, and no empty payload.
    pub proof fn lemma_bounds(&self)
        requires
            self.wf(),
        ensures
            self@.len() <= self.spec_max_payloads(),
            total_bytes(self@) <= self.spec_max_bytes(),
            self.spec_max_payloads() >= 1,
            forall|i: int| 0 <= i < self@.len() ==> (#[trigger] self@[i]).payload.len() > 0,
    {
    }

    pub fn new(max_payloads: usize, max_bytes: usize) -> (r: BoundedQueue)
        requires
            max_payloads >= 1,
        ensures
            r.wf(),
            r@ == Seq::<TimedPayloadView>::empty(),
            r.spec_max_payloads() == max_payloads,
            r.spec_max_bytes() == max_bytes,
    {
        let r = BoundedQueue { queue: VecDeque::new(), bytes: 0, max_payloads, max_bytes };
        assert(r@ =~= Seq::<TimedPayloadView>::empty());
        r
    }

    pub fn len(&self) -> (r: usize)
        ensures
            r == self@.len(),
    {
        self.queue.len()
    }

    pub fn is_empty(&self) -> (r: bool)
        ensures
            r == (self@.len() == 0),
    {
        self.queue.len() == 0
    }

    /// The byte limit of the queue.
    pub fn max_bytes(&self) -> (r: usize)
        ensures
            r == self.spec_max_bytes(),
    {
        self.max_bytes
    }

    /// The bytes that the queue holds.
    pub fn bytes(&self) -> (r: usize)
        requires
            self.wf(),
        ensures
            r == total_bytes(self@),
    {
        self.bytes
    }

    /// The time from which the oldest payload may leave.
    pub fn front_ready_at(&self) -> (r: Option<u64>)
        ensures
            match r {
                Some(at) => self@.len() > 0 && at == self@[0].ready_at,
                None => self@.len() == 0,
            },
    {
        if self.queue.len() == 0 {
            None
        } else {
            Some(self.queue[0].ready_at)
        }
    }

    /// A copy of the oldest payload.
    pub fn peek_front(&self) -> (r: Option<Vec<u8>>)
        ensures
            match r {
                Some(payload) => self@.len() > 0 && payload@ == self@[0].payload,
                None => self@.len() == 0,
            },
    {
        if self.queue.len() == 0 {
            None
        } else {
            Some(vstd::slice::slice_to_vec(self.queue[0].payload.as_slice()))
        }
    }

    /// Offers a copy of `payload` to the queue. An empty payload is accepted
    /// and not queued; one over the byte limit is refused; for any other the
    /// oldest payloads leave until it fits, and it becomes the newest.
    pub fn push(&mut self, payload: &[u8], ready_at: u64) -> (accepted: bool)
        requires
            old(self).wf(),
        ensures
            final(self).wf(),
            final(self).spec_max_payloads() == old(self).spec_max_payloads(),
            final(self).spec_max_bytes() == old(self).spec_max_bytes(),
            accepted == queue_accepts(old(self).spec_max_bytes(), payload@),
            final(self)@ == queue_after_push(
                old(self)@,
                old(self).spec_max_payloads(),
                old(self).spec_max_bytes(),
                TimedPayloadView { ready_at, payload: payload@ },
            ),
    {
        let len: usize = payload.len();
        if len == 0 {
            return true;
        }
        if len > self.max_bytes {
            return false;
        }
        let ghost start = self@;
        while self.queue.len() > 0 && (self.queue.len() >= self.max_payloads || len > self.max_bytes
            - self.bytes)
            invariant
                self.wf(),
                len <= self.max_bytes,
                self.max_payloads == old(self).max_payloads,
                self.max_bytes == old(self).max_bytes,
                evicted_for(self@, self.max_payloads as nat, self.max_bytes as nat, len as nat)
                    == evicted_for(start, self.max_payloads as nat, self.max_bytes as nat, len as nat),
            decreases self.queue@.len(),
        {
            let ghost before = self@;
            let evicted = self.queue.pop_front().unwrap();
            proof {
                assert(self@ =~= before.drop_first());
                assert(before[0] == evicted@);
            }
            self.bytes = self.bytes - evicted.payload.len();
        }
        proof {
            lemma_evicted_has_room(
                start,
                self.max_payloads as nat,
                self.max_bytes as nat,
                len as nat,
            );
            lemma_total_bytes_push(self@, TimedPayloadView { ready_at, payload: payload@ });
        }
        let ghost kept = self@;
        self.queue.push_back(TimedPayload { ready_at, payload: vstd::slice::slice_to_vec(payload) });
        self.bytes = self.bytes + len;
        proof {
            assert(self@ =~= kept.push(TimedPayloadView { ready_at, payload: payload@ }));
        }
        true
    }

    /// Takes the oldest payload.
    pub fn pop_front(&mut self) -> (r: Option<TimedPayload>)
        requires
            old(self).wf(),
        ensures
            final(self).wf(),
            final(self).spec_max_payloads() == old(self).spec_max_payloads(),
            final(self).spec_max_bytes() == old(self).spec_max_bytes(),
            match r {
                Some(item) => old(self)@.len() > 0 && item@ == old(self)@[0] && final(self)@ == old(
                    self,
                )@.drop_first(),
                None => old(self)@.len() == 0 && final(self)@ == old(self)@,
            },
    {
        let ghost before = self@;
        match self.queue.pop_front() {
            Some(item) => {
                proof {
                    assert(self@ =~= before.drop_first());
                    assert(before[0] == item@);
                }
                self.bytes = self.bytes - item.payload.len();
                Some(item)
            },
            None => None,
        }
    }

    /// Puts `item` back at the head of the queue, where it has room.
    pub(crate) fn push_front(&mut self, item: TimedPayload)
        requires
            old(self).wf(),
            item@.payload.len() > 0,
            old(self)@.len() < old(self).spec_max_payloads(),
            total_bytes(old(self)@) + item@.payload.len() <= old(self).spec_max_bytes(),
        ensures
            final(self).wf(),
            final(self).spec_max_payloads() == old(self).spec_max_payloads(),
            final(self).spec_max_bytes() == old(self).spec_max_bytes(),
            final(self)@ == seq![item@] + old(self)@,
    {
        let ghost before = self@;
        let len: usize = item.payload.len();
        self.queue.push_front(item);
        self.bytes = self.bytes + len;
        proof {
            assert(self@ =~= seq![item@] + before);
            assert(self@.drop_first() =~= before);
        }
    }

    /// Takes every payload out of the queue, oldest first.
    pub fn take_all(&mut self) -> (r: Vec<TimedPayload>)
        requires
            old(self).wf(),
        ensures
            final(self).wf(),
            final(self).spec_max_payloads() == old(self).spec_max_payloads(),
            final(self).spec_max_bytes() == old(self).spec_max_bytes(),
            final(self)@ == Seq::<TimedPayloadView>::empty(),
            timed_view(r@) == old(self)@,
    {
        let mut out: Vec<TimedPayload> = Vec::new();
        let ghost before = self.queue@;
        while self.queue.len() > 0
            invariant
                self.max_payloads == old(self).max_payloads,
                self.max_bytes == old(self).max_bytes,
                self.max_payloads >= 1,
                out@.len() <= before.len(),
                out@ =~= before.take(out@.len() as int),
                self.queue@ =~= before.skip(out@.len() as int),
            decreases self.queue@.len(),
        {
            let item = self.queue.pop_front().unwrap();
            out.push(item);
        }
        self.bytes = 0;
        proof {
            assert(out@ =~= before);
            assert(self@ =~= Seq::<TimedPayloadView>::empty());
        }
        out
    }
}

} // verus!
