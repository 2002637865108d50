//! The state of one flow and of the budget that admission draws on.

use crate::addr::IpAddress;
use crate::device::{TcpPacket, UdpPacket};
use crate::flow_manager::queue::{
    concat_payloads, queue_accepts, queue_after_push, timed_view, BoundedQueue, TimedPayload,
    TimedPayloadView,
};
use crate::flow_manager::sockets::{MAX_TCP_RX_BUFFER, UDP_PACKET_METADATA};
use crate::policy::ShapingConfig;
use smoltcp::iface::SocketHandle;
use vstd::prelude::*;

verus! {

pub const MAX_DIAL_ATTEMPTS: u8 = 3;

pub const DIAL_BACKOFF_BASE_MS: u64 = 50;

/// A ready UDP flow without traffic for this long is closed.
pub const UDP_IDLE_TIMEOUT_MS: u64 = 10_000;

pub const MAX_BUFFERED_PAYLOADS: usize = 8;

pub const MAX_BUFFERED_BYTES: usize = 64 * 1024;

pub const MAX_SHAPED_PAYLOADS: usize = 32;

pub const MAX_SHAPED_BYTES: usize = 256 * 1024;

pub const TCP_BACKPRESSURE_RETRY_MS: u64 = 10;

pub const TCP_BACKPRESSURE_MAX_COOLDOWN_MS: u64 = 200;

/// Maximum time a dial operation can remain pending before being timed out (30 seconds)
pub const DIAL_PENDING_TIMEOUT_MS: u64 = 30_000;

/// Maximum time a TCP flow can wait for its dial before being closed (15 seconds)
pub const TCP_SYN_SENT_TIMEOUT_MS: u64 = 15_000;

pub const DEFAULT_MEMORY_BUDGET: usize = 16 * 1024 * 1024;

pub const DEFAULT_TCP_RX_BUFFER: usize = 16 * 1024;

pub const DEFAULT_TCP_TX_BUFFER: usize = 32 * 1024;

pub const DEFAULT_UDP_BUFFER: usize = 16 * 1024;

/// The per-flow queue limits of a platform profile.
#[derive(Clone, Copy, Debug, PartialEq, Eq, Structural)]
pub struct FlowLimits {
    pub max_buffered_payloads: usize,
    pub max_buffered_bytes: usize,
    pub max_shaped_payloads: usize,
    pub max_shaped_bytes: usize,
}

impl FlowLimits {
    /// Every queue takes one payload at least.
    pub open spec fn wf(&self) -> bool {
        self.max_buffered_payloads >= 1 && self.max_shaped_payloads >= 1
    }

    /// The limits of the desktop and server profile.
    pub fn desktop() -> (r: FlowLimits)
        ensures
            r.wf(),
            r == (FlowLimits {
                max_buffered_payloads: MAX_BUFFERED_PAYLOADS,
                max_buffered_bytes: MAX_BUFFERED_BYTES,
                max_shaped_payloads: MAX_SHAPED_PAYLOADS,
                max_shaped_bytes: MAX_SHAPED_BYTES,
            }),
    {
        FlowLimits {
            max_buffered_payloads: MAX_BUFFERED_PAYLOADS,
            max_buffered_bytes: MAX_BUFFERED_BYTES,
            max_shaped_payloads: MAX_SHAPED_PAYLOADS,
            max_shaped_bytes: MAX_SHAPED_BYTES,
        }
    }

    /// The limits of the constrained, embedded profile.
    pub fn constrained() -> (r: FlowLimits)
        ensures
            r.wf(),
            r == (FlowLimits {
                max_buffered_payloads: 4,
                max_buffered_bytes: 8192,
                max_shaped_payloads: 8,
                max_shaped_bytes: 32768,
            }),
    {
        FlowLimits {
            max_buffered_payloads: 4,
            max_buffered_bytes: 8 * 1024,
            max_shaped_payloads: 8,
            max_shaped_bytes: 32 * 1024,
        }
    }
}

/// Configuration for dynamic socket allocation with memory budget.
#[derive(Clone, Copy, Debug, PartialEq, Eq, Structural)]
pub struct SocketBudget {
    /// Total memory budget for socket buffers in bytes.
    pub memory_budget: usize,
    /// TCP receive buffer size per socket.
    pub tcp_rx_buffer_size: usize,
    /// TCP transmit buffer size per socket.
    pub tcp_tx_buffer_size: usize,
    /// UDP buffer size per socket (rx + tx combined).
    pub udp_buffer_size: usize,
}

impl SocketBudget {
    /// Memory cost for a single TCP socket: its two buffers.
    pub open spec fn spec_tcp_socket_cost(&self) -> nat {
        (self.tcp_rx_buffer_size + self.tcp_tx_buffer_size) as nat
    }

    /// Memory cost for a single UDP socket: its two buffers and the packet records.
    pub open spec fn spec_udp_socket_cost(&self) -> nat {
        (self.udp_buffer_size * 2 + UDP_PACKET_METADATA * 16) as nat
    }

    /// The cost of a socket of either kind can be held in a `usize`, and a TCP
    /// receive buffer is no larger than the stack takes.
    pub open spec fn wf(&self) -> bool {
        &&& self.spec_tcp_socket_cost() <= usize::MAX
        &&& self.spec_udp_socket_cost() <= usize::MAX
        &&& self.tcp_rx_buffer_size <= MAX_TCP_RX_BUFFER
    }

    /// Whether the budget is one that sockets can be made from.
    pub fn is_valid(&self) -> (r: bool)
        ensures
            r == self.wf(),
    {
        self.tcp_rx_buffer_size <= MAX_TCP_RX_BUFFER && self.tcp_tx_buffer_size <= usize::MAX
            - self.tcp_rx_buffer_size && self.udp_buffer_size <= (usize::MAX - UDP_PACKET_METADATA
            * 16) / 2
    }

    /// Create from configuration values. Uses defaults for zero values.
    pub fn from_config(memory_budget: u32, tcp_rx: u32, tcp_tx: u32, udp_buf: u32) -> (r:
        SocketBudget)
        ensures
            r.memory_budget == if memory_budget == 0 {
                DEFAULT_MEMORY_BUDGET
            } else {
                memory_budget as usize
            },
            r.tcp_rx_buffer_size == if tcp_rx == 0 {
                DEFAULT_TCP_RX_BUFFER
            } else {
                tcp_rx as usize
            },
            r.tcp_tx_buffer_size == if tcp_tx == 0 {
                DEFAULT_TCP_TX_BUFFER
            } else {
                tcp_tx as usize
            },
            r.udp_buffer_size == if udp_buf == 0 {
                DEFAULT_UDP_BUFFER
            } else {
                udp_buf as usize
            },
    {
        SocketBudget {
            memory_budget: if memory_budget == 0 {
                DEFAULT_MEMORY_BUDGET
            } else {
                memory_budget as usize
            },
            tcp_rx_buffer_size: if tcp_rx == 0 {
                DEFAULT_TCP_RX_BUFFER
            } else {
                tcp_rx as usize
            },
            tcp_tx_buffer_size: if tcp_tx == 0 {
                DEFAULT_TCP_TX_BUFFER
            } else {
                tcp_tx as usize
            },
            udp_buffer_size: if udp_buf == 0 {
                DEFAULT_UDP_BUFFER
            } else {
                udp_buf as usize
            },
        }
    }

    /// Memory cost for a single TCP socket.
    pub fn tcp_socket_cost(&self) -> (r: usize)
        requires
            self.spec_tcp_socket_cost() <= usize::MAX,
        ensures
            r == self.spec_tcp_socket_cost(),
    {
        self.tcp_rx_buffer_size + self.tcp_tx_buffer_size
    }

    /// Memory cost for a single UDP socket.
    pub fn udp_socket_cost(&self) -> (r: usize)
        requires
            self.spec_udp_socket_cost() <= usize::MAX,
        ensures
            r == self.spec_udp_socket_cost(),
    {
        self.udp_buffer_size * 2 + UDP_PACKET_METADATA * 16
    }
}

impl Default for SocketBudget {
    fn default() -> (r: SocketBudget)
        ensures
            r.wf(),
            r == (SocketBudget {
                memory_budget: DEFAULT_MEMORY_BUDGET,
                tcp_rx_buffer_size: DEFAULT_TCP_RX_BUFFER,
                tcp_tx_buffer_size: DEFAULT_TCP_TX_BUFFER,
                udp_buffer_size: DEFAULT_UDP_BUFFER,
            }),
    {
        SocketBudget {
            memory_budget: DEFAULT_MEMORY_BUDGET,
            tcp_rx_buffer_size: DEFAULT_TCP_RX_BUFFER,
            tcp_tx_buffer_size: DEFAULT_TCP_TX_BUFFER,
            udp_buffer_size: DEFAULT_UDP_BUFFER,
        }
    }
}

/// Tracks current memory usage for dynamic socket allocation.
#[derive(Debug)]
pub struct MemoryTracker {
    pub current_usage: usize,
    pub budget: SocketBudget,
    pub tcp_socket_count: usize,
    pub udp_socket_count: usize,
}

/// The cost of one more socket.
pub proof fn lemma_cost_of_one_more(count: nat, cost: nat)
    ensures
        (count + 1) * cost == count * cost + cost,
{
    assert((count + 1) * cost == count * cost + cost) by (nonlinear_arith);
}

impl MemoryTracker {
    /// The usage is the cost of the sockets that are counted.
    pub open spec fn wf(&self) -> bool {
        &&& self.budget.wf()
        &&& self.current_usage == self.tcp_socket_count * self.budget.spec_tcp_socket_cost()
            + self.udp_socket_count * self.budget.spec_udp_socket_cost()
    }

    pub open spec fn spec_can_allocate_tcp(&self) -> bool {
        self.current_usage + self.budget.spec_tcp_socket_cost() <= self.budget.memory_budget
    }

    pub open spec fn spec_can_allocate_udp(&self) -> bool {
        self.current_usage + self.budget.spec_udp_socket_cost() <= self.budget.memory_budget
    }

    pub fn new(budget: SocketBudget) -> (r: MemoryTracker)
        requires
            budget.wf(),
        ensures
            r.wf(),
            r.current_usage == 0,
            r.budget == budget,
            r.tcp_socket_count == 0,
            r.udp_socket_count == 0,
    {
        MemoryTracker { current_usage: 0, budget, tcp_socket_count: 0, udp_socket_count: 0 }
    }

    /// Check if we can allocate a TCP socket within budget.
    pub fn can_allocate_tcp(&self) -> (r: bool)
        requires
            self.budget.spec_tcp_socket_cost() <= usize::MAX,
        ensures
            r == self.spec_can_allocate_tcp(),
    {
        let cost = self.budget.tcp_socket_cost();
        cost <= self.budget.memory_budget && self.current_usage <= self.budget.memory_budget - cost
    }

    /// Check if we can allocate a UDP socket within budget.
    pub fn can_allocate_udp(&self) -> (r: bool)
        requires
            self.budget.spec_udp_socket_cost() <= usize::MAX,
        ensures
            r == self.spec_can_allocate_udp(),
    {
        let cost = self.budget.udp_socket_cost();
        cost <= self.budget.memory_budget && self.current_usage <= self.budget.memory_budget - cost
    }

    /// Record TCP socket allocation.
    pub fn allocate_tcp(&mut self)
        requires
            old(self).wf(),
            old(self).current_usage + old(self).budget.spec_tcp_socket_cost() <= usize::MAX,
            old(self).tcp_socket_count < usize::MAX,
        ensures
            final(self).wf(),
            final(self).budget == old(self).budget,
            final(self).current_usage == old(self).current_usage + old(
                self,
            ).budget.spec_tcp_socket_cost(),
            final(self).tcp_socket_count == old(self).tcp_socket_count + 1,
            final(self).udp_socket_count == old(self).udp_socket_count,
    {
        proof {
            lemma_cost_of_one_more(
                self.tcp_socket_count as nat,
                self.budget.spec_tcp_socket_cost(),
            );
        }
        self.current_usage = self.current_usage + self.budget.tcp_socket_cost();
        self.tcp_socket_count = self.tcp_socket_count + 1;
    }

    /// Record UDP socket allocation.
    pub fn allocate_udp(&mut self)
        requires
            old(self).wf(),
            old(self).current_usage + old(self).budget.spec_udp_socket_cost() <= usize::MAX,
            old(self).udp_socket_count < usize::MAX,
        ensures
            final(self).wf(),
            final(self).budget == old(self).budget,
            final(self).current_usage == old(self).current_usage + old(
                self,
            ).budget.spec_udp_socket_cost(),
            final(self).tcp_socket_count == old(self).tcp_socket_count,
            final(self).udp_socket_count == old(self).udp_socket_count + 1,
    {
        proof {
            lemma_cost_of_one_more(
                self.udp_socket_count as nat,
                self.budget.spec_udp_socket_cost(),
            );
        }
        self.current_usage = self.current_usage + self.budget.udp_socket_cost();
        self.udp_socket_count = self.udp_socket_count + 1;
    }

    /// Record TCP socket deallocation: the cost of one TCP socket is given
    /// back, if one is counted.
    pub fn deallocate_tcp(&mut self)
        requires
            old(self).wf(),
        ensures
            final(self).wf(),
            final(self).budget == old(self).budget,
            final(self).udp_socket_count == old(self).udp_socket_count,
            old(self).tcp_socket_count > 0 ==> final(self).tcp_socket_count == old(
                self,
            ).tcp_socket_count - 1 && final(self).current_usage == old(self).current_usage - old(
                self,
            ).budget.spec_tcp_socket_cost(),
            old(self).tcp_socket_count == 0 ==> *final(self) == *old(self),
    {
        let cost = self.budget.tcp_socket_cost();
        if self.tcp_socket_count > 0 {
            proof {
                lemma_cost_of_one_more(
                    (self.tcp_socket_count - 1) as nat,
                    self.budget.spec_tcp_socket_cost(),
                );
                assert(self.udp_socket_count * self.budget.spec_udp_socket_cost() >= 0)
                    by (nonlinear_arith);
                assert((self.tcp_socket_count - 1) * self.budget.spec_tcp_socket_cost() >= 0)
                    by (nonlinear_arith)
                    requires
                        self.tcp_socket_count >= 1,
                ;
            }
            self.current_usage = self.current_usage - cost;
            self.tcp_socket_count = self.tcp_socket_count - 1;
        }
    }

    /// Record UDP socket deallocation: the cost of one UDP socket is given
    /// back, if one is counted.
    pub fn deallocate_udp(&mut self)
        requires
            old(self).wf(),
        ensures
            final(self).wf(),
            final(self).budget == old(self).budget,
            final(self).tcp_socket_count == old(self).tcp_socket_count,
            old(self).udp_socket_count > 0 ==> final(self).udp_socket_count == old(
                self,
            ).udp_socket_count - 1 && final(self).current_usage == old(self).current_usage - old(
                self,
            ).budget.spec_udp_socket_cost(),
            old(self).udp_socket_count == 0 ==> *final(self) == *old(self),
    {
        let cost = self.budget.udp_socket_cost();
        if self.udp_socket_count > 0 {
            proof {
                lemma_cost_of_one_more(
                    (self.udp_socket_count - 1) as nat,
                    self.budget.spec_udp_socket_cost(),
                );
                assert(self.tcp_socket_count * self.budget.spec_tcp_socket_cost() >= 0)
                    by (nonlinear_arith);
                assert((self.udp_socket_count - 1) * self.budget.spec_udp_socket_cost() >= 0)
                    by (nonlinear_arith)
                    requires
                        self.udp_socket_count >= 1,
                ;
            }
            self.current_usage = self.current_usage - cost;
            self.udp_socket_count = self.udp_socket_count - 1;
        }
    }
}

#[derive(Clone, Copy, Hash, Eq, PartialEq, Debug, Structural)]
pub enum FlowKind {
    Tcp,
    Udp,
}

impl FlowKind {
    /// The IP protocol number of the kind: 6 for TCP, 17 for UDP.
    pub fn protocol(&self) -> (r: u8)
        ensures
            r == (if *self is Tcp {
                6u8
            } else {
                17u8
            }),
    {
        match self {
            FlowKind::Tcp => 6,
            FlowKind::Udp => 17,
        }
    }
}

/// What came of handing a payload on towards the client.
#[derive(Clone, Copy, Debug)]
pub enum FlowStatus {
    Sent,
    Backpressure(&'static str),
    Closed(&'static str),
}

/// The five-tuple of a flow: the client is the source, the server the destination.
#[derive(Hash, Eq, PartialEq, Clone, Copy, Debug, Structural)]
pub struct FlowKey {
    pub src_ip: IpAddress,
    pub src_port: u16,
    pub dst_ip: IpAddress,
    pub dst_port: u16,
    pub kind: FlowKind,
}

impl FlowKey {
    pub fn from_tcp(packet: &TcpPacket<'_>) -> (r: FlowKey)
        ensures
            r == (FlowKey {
                src_ip: packet.src,
                src_port: packet.src_port,
                dst_ip: packet.dst,
                dst_port: packet.dst_port,
                kind: FlowKind::Tcp,
            }),
    {
        FlowKey {
            src_ip: packet.src,
            src_port: packet.src_port,
            dst_ip: packet.dst,
            dst_port: packet.dst_port,
            kind: FlowKind::Tcp,
        }
    }

    pub fn from_udp(packet: &UdpPacket<'_>) -> (r: FlowKey)
        ensures
            r == (FlowKey {
                src_ip: packet.src,
                src_port: packet.src_port,
                dst_ip: packet.dst,
                dst_port: packet.dst_port,
                kind: FlowKind::Udp,
            }),
    {
        FlowKey {
            src_ip: packet.src,
            src_port: packet.src_port,
            dst_ip: packet.dst,
            dst_port: packet.dst_port,
            kind: FlowKind::Udp,
        }
    }
}

/// The wait before the next dial after `attempt` failed attempts:
/// 50 ms, doubled with every attempt after the first, up to 800 ms.
pub open spec fn dial_backoff_ms(attempt: u8) -> u64 {
    if attempt <= 1 {
        50
    } else if attempt == 2 {
        100
    } else if attempt == 3 {
        200
    } else if attempt == 4 {
        400
    } else {
        800
    }
}

/// The wait before the next dial after `attempt` failed attempts.
pub fn dial_backoff_delay(attempt: u8) -> (r: u64)
    ensures
        r == dial_backoff_ms(attempt),
{
    let steps: u8 = if attempt == 0 {
        0
    } else if attempt - 1 > 4 {
        4
    } else {
        attempt - 1
    };
    let mut delay: u64 = DIAL_BACKOFF_BASE_MS;
    let mut i: u8 = 0;
    while i < steps
        invariant
            i <= steps,
            steps <= 4,
            delay == dial_backoff_ms((i + 1) as u8),
        decreases steps - i,
    {
        delay = delay * 2;
        i = i + 1;
    }
    delay
}

/// `a + b`, stopping at the largest time that can be held.
pub open spec fn time_after(a: u64, b: u64) -> u64 {
    if a + b > u64::MAX {
        u64::MAX
    } else {
        (a + b) as u64
    }
}

/// The time `delay_ms` after `now`, held at the largest value.
pub fn add_time(a: u64, b: u64) -> (r: u64)
    ensures
        r == time_after(a, b),
{
    if b > u64::MAX - a {
        u64::MAX
    } else {
        a + b
    }
}

/// Whether `timeout` milliseconds have passed at `now` since `since`.
pub open spec fn elapsed_at_least(now: u64, since: u64, timeout: u64) -> bool {
    now >= since && now - since >= timeout
}

/// Whether at least `limit_ms` have passed at `now` since `since`.
pub fn has_elapsed(now: u64, since: u64, timeout: u64) -> (r: bool)
    ensures
        r == elapsed_at_least(now, since, timeout),
{
    now >= since && now - since >= timeout
}

/// The delay line of a shaped flow.
pub struct FlowShaper {
    pub config: ShapingConfig,
    queue: BoundedQueue,
}

/// A shaper as a mathematical value.
pub ghost struct ShaperView {
    pub config: ShapingConfig,
    pub queue: Seq<TimedPayloadView>,
}

impl View for FlowShaper {
    type V = ShaperView;

    closed spec fn view(&self) -> ShaperView {
        ShaperView { config: self.config, queue: self.queue@ }
    }
}

/// How many payloads at the head of `queue` may leave at `now`.
pub open spec fn ready_count(queue: Seq<TimedPayloadView>, now: u64) -> nat
    decreases queue.len(),
{
    if queue.len() > 0 && queue[0].ready_at <= now {
        1 + ready_count(queue.drop_first(), now)
    } else {
        0
    }
}

/// No more payloads are ready than the line holds.
pub proof fn lemma_ready_count_bound(queue: Seq<TimedPayloadView>, now: u64)
    ensures
        ready_count(queue, now) <= queue.len(),
    decreases queue.len(),
{
    if queue.len() > 0 && queue[0].ready_at <= now {
        lemma_ready_count_bound(queue.drop_first(), now);
    }
}

impl FlowShaper {
    pub closed spec fn wf(&self) -> bool {
        self.queue.wf()
    }

    pub closed spec fn spec_max_payloads(&self) -> nat {
        self.queue.spec_max_payloads()
    }

    pub closed spec fn spec_max_bytes(&self) -> nat {
        self.queue.spec_max_bytes()
    }

    pub fn new(config: ShapingConfig, limits: FlowLimits) -> (r: FlowShaper)
        requires
            limits.wf(),
        ensures
            r.wf(),
            r@ == (ShaperView { config, queue: Seq::empty() }),
            r.spec_max_payloads() == limits.max_shaped_payloads,
            r.spec_max_bytes() == limits.max_shaped_bytes,
    {
        FlowShaper {
            config,
            queue: BoundedQueue::new(limits.max_shaped_payloads, limits.max_shaped_bytes),
        }
    }

    /// A well-formed shaper holds no empty payload.
    pub proof fn lemma_payloads(&self)
        requires
            self.wf(),
        ensures
            forall|i: int| 0 <= i < self@.queue.len() ==> (#[trigger] self@.queue[i]).payload.len() > 0,
    {
        self.queue.lemma_bounds();
    }

    /// The latency and jitter of the shaper.
    pub fn config(&self) -> (r: ShapingConfig)
        ensures
            r == self@.config,
    {
        self.config
    }

    /// Queues a copy of `payload` to leave at `ready_at`.
    pub fn enqueue(&mut self, payload: &[u8], ready_at: u64) -> (accepted: bool)
        requires
            old(self).wf(),
        ensures
            final(self).wf(),
            final(self).spec_max_payloads() == old(self).spec_max_payloads(),
            final(self).spec_max_bytes() == old(self).spec_max_bytes(),
            final(self)@.config == old(self)@.config,
            accepted == queue_accepts(old(self).spec_max_bytes(), payload@),
            final(self)@.queue == queue_after_push(
                old(self)@.queue,
                old(self).spec_max_payloads(),
                old(self).spec_max_bytes(),
                TimedPayloadView { ready_at, payload: payload@ },
            ),
    {
        self.queue.push(payload, ready_at)
    }

    /// Takes the payloads at the head of the queue that may leave at `now`,
    /// oldest first: the walk stops at the first payload that must wait.
    pub fn drain_ready(&mut self, now: u64) -> (ready: Vec<TimedPayload>)
        requires
            old(self).wf(),
        ensures
            final(self).wf(),
            final(self).spec_max_payloads() == old(self).spec_max_payloads(),
            final(self).spec_max_bytes() == old(self).spec_max_bytes(),
            final(self)@.config == old(self)@.config,
            ready@.len() == ready_count(old(self)@.queue, now),
            timed_view(ready@) == old(self)@.queue.take(ready@.len() as int),
            final(self)@.queue == old(self)@.queue.skip(ready@.len() as int),
    {
        let mut ready: Vec<TimedPayload> = Vec::new();
        let ghost start = self@.queue;
        proof {
            assert(start.skip(0) =~= start);
            assert(timed_view(ready@) =~= start.take(0));
            lemma_ready_count_bound(start, now);
        }
        let mut due = match self.queue.front_ready_at() {
            Some(at) => at <= now,
            None => false,
        };
        while due
            invariant
                self.wf(),
                self.queue.spec_max_payloads() == old(self).queue.spec_max_payloads(),
                self.queue.spec_max_bytes() == old(self).queue.spec_max_bytes(),
                self.config == old(self).config,
                ready@.len() <= start.len(),
                due == (self@.queue.len() > 0 && self@.queue[0].ready_at <= now),
                ready_count(start, now) == ready@.len() + ready_count(self@.queue, now),
                timed_view(ready@) == start.take(ready@.len() as int),
                self@.queue == start.skip(ready@.len() as int),
            decreases self@.queue.len(),
        {
            let ghost before = self@.queue;
            let ghost taken = timed_view(ready@);
            let item = self.queue.pop_front().unwrap();
            ready.push(item);
            proof {
                let n = ready@.len() as int;
                assert(before[0] == start[n - 1]);
                assert(timed_view(ready@) =~= taken.push(before[0]));
                assert(timed_view(ready@) =~= start.take(n));
                assert(self@.queue =~= start.skip(n));
            }
            due = match self.queue.front_ready_at() {
                Some(at) => at <= now,
                None => false,
            };
        }
        ready
    }

    /// Takes the oldest payload, whether or not it may leave yet.
    pub fn pop_head(&mut self) -> (r: Option<TimedPayload>)
        requires
            old(self).wf(),
        ensures
            final(self).wf(),
            final(self).spec_max_payloads() == old(self).spec_max_payloads(),
            final(self).spec_max_bytes() == old(self).spec_max_bytes(),
            final(self)@.config == old(self)@.config,
            match r {
                Some(item) => old(self)@.queue.len() > 0 && item@ == old(self)@.queue[0]
                    && final(self)@.queue == old(self)@.queue.drop_first(),
                None => old(self)@.queue.len() == 0 && final(self)@.queue == old(self)@.queue,
            },
    {
        self.queue.pop_front()
    }

    /// A copy of the oldest payload, if it may leave at `now`.
    pub fn peek_ready(&self, now: u64) -> (r: Option<Vec<u8>>)
        ensures
            match r {
                Some(payload) => self@.queue.len() > 0 && self@.queue[0].ready_at <= now
                    && payload@ == self@.queue[0].payload,
                None => self@.queue.len() == 0 || self@.queue[0].ready_at > now,
            },
    {
        match self.queue.front_ready_at() {
            Some(at) => if at <= now {
                self.queue.peek_front()
            } else {
                None
            },
            None => None,
        }
    }

    pub fn has_pending(&self) -> (r: bool)
        ensures
            r == (self@.queue.len() > 0),
    {
        !self.queue.is_empty()
    }

    /// How many payloads wait.
    pub fn pending(&self) -> (r: usize)
        ensures
            r == self@.queue.len(),
    {
        self.queue.len()
    }
}

/// One admitted flow.
pub struct FlowEntry {
    pub key: FlowKey,
    pub socket: SocketHandle,
    pub kind: FlowKind,
    pub handle: u64,
    pub ready: bool,
    pub pending_dial: bool,
    pub dial_attempts: u8,
    pub next_redial_at: Option<u64>,
    pub last_activity: u64,
    pub buffered: BoundedQueue,
    pub client_closed: bool,
    /// Server/bypass side closed
    pub server_closed: bool,
    pub shaping: Option<FlowShaper>,
    pub backpressure_retry_at: Option<u64>,
    pub backpressure_cooldown_ms: u64,
    /// When the current dial operation started (for timeout tracking)
    pub dial_started_at: Option<u64>,
    /// When the flow was created
    pub created_at: u64,
    /// Every byte that the host delivered for the client, in order.
    pub delivered: Ghost<Seq<u8>>,
    /// Every byte that the embedded socket took, in order.
    pub pushed: Ghost<Seq<u8>>,
    /// Whether no payload was refused or evicted so far.
    pub lossless: Ghost<bool>,
    /// How many dial requests were made for the flow.
    pub dials_requested: Ghost<nat>,
}

/// A flow as a mathematical value.
pub ghost struct FlowView {
    pub key: FlowKey,
    pub socket: SocketHandle,
    pub kind: FlowKind,
    pub handle: u64,
    pub ready: bool,
    pub pending_dial: bool,
    pub dial_attempts: u8,
    pub next_redial_at: Option<u64>,
    pub last_activity: u64,
    pub buffered: Seq<TimedPayloadView>,
    pub client_closed: bool,
    pub server_closed: bool,
    pub shaping: Option<ShaperView>,
    pub backpressure_retry_at: Option<u64>,
    pub backpressure_cooldown_ms: u64,
    pub dial_started_at: Option<u64>,
    pub created_at: u64,
    pub delivered: Seq<u8>,
    pub pushed: Seq<u8>,
    pub lossless: bool,
    pub dials_requested: nat,
}

impl View for FlowEntry {
    type V = FlowView;

    open spec fn view(&self) -> FlowView {
        FlowView {
            key: self.key,
            socket: self.socket,
            kind: self.kind,
            handle: self.handle,
            ready: self.ready,
            pending_dial: self.pending_dial,
            dial_attempts: self.dial_attempts,
            next_redial_at: self.next_redial_at,
            last_activity: self.last_activity,
            buffered: self.buffered@,
            client_closed: self.client_closed,
            server_closed: self.server_closed,
            shaping: match self.shaping {
                Some(shaper) => Some(shaper@),
                None => None,
            },
            backpressure_retry_at: self.backpressure_retry_at,
            backpressure_cooldown_ms: self.backpressure_cooldown_ms,
            dial_started_at: self.dial_started_at,
            created_at: self.created_at,
            delivered: self.delivered@,
            pushed: self.pushed@,
            lossless: self.lossless@,
            dials_requested: self.dials_requested@,
        }
    }
}

/// The bytes that wait in the shaper of a flow, in order.
pub open spec fn shaped_bytes(flow: FlowView) -> Seq<u8> {
    match flow.shaping {
        Some(shaper) => concat_payloads(shaper.queue),
        None => Seq::empty(),
    }
}

/// No byte is lost: what the host delivered is what the socket took, then
/// what the buffer holds, then what the shaper holds.
pub open spec fn stream_intact(flow: FlowView) -> bool {
    flow.delivered == flow.pushed + concat_payloads(flow.buffered) + shaped_bytes(flow)
}

/// What holds of every flow in the table.
pub open spec fn flow_invariant(flow: FlowView) -> bool {
    &&& flow.key.kind == flow.kind
    &&& flow.dial_attempts <= MAX_DIAL_ATTEMPTS
    &&& flow.dials_requested == flow.dial_attempts
    &&& flow.pending_dial ==> !flow.ready
    &&& flow.handle >= 1
    &&& (flow.shaping matches Some(shaper) && shaper.queue.len() > 0) ==> flow.ready
    &&& (flow.kind is Tcp && flow.lossless) ==> stream_intact(flow)
}

/// Whether a dial is due for a flow at `now`.
pub open spec fn dial_due(flow: FlowView, now: u64) -> bool {
    &&& flow.next_redial_at matches Some(deadline) && deadline <= now
    &&& !flow.ready
    &&& !flow.pending_dial
    &&& flow.dial_attempts < MAX_DIAL_ATTEMPTS
}

/// The flow after a dial was requested for it at `now`.
pub open spec fn dial_begun(flow: FlowView, now: u64) -> FlowView {
    FlowView {
        pending_dial: true,
        dial_attempts: (flow.dial_attempts + 1) as u8,
        next_redial_at: None,
        dial_started_at: Some(now),
        dials_requested: flow.dials_requested + 1,
        ..flow
    }
}

/// The flow after the host reported at `now` that its dial succeeded.
pub open spec fn dial_succeeded(flow: FlowView, now: u64) -> FlowView {
    FlowView {
        pending_dial: false,
        dial_started_at: None,
        ready: true,
        next_redial_at: None,
        last_activity: now,
        backpressure_cooldown_ms: TCP_BACKPRESSURE_RETRY_MS,
        backpressure_retry_at: None,
        ..flow
    }
}

/// The flow after the host reported at `now` that its dial failed, where
/// another attempt is left: the next dial waits for the back-off.
pub open spec fn dial_retrying(flow: FlowView, now: u64) -> FlowView {
    FlowView {
        pending_dial: false,
        dial_started_at: None,
        next_redial_at: Some(time_after(now, dial_backoff_ms(flow.dial_attempts))),
        ..flow
    }
}

/// The flow after a packet of the client was seen for it at `now`; `closing`
/// says whether the packet carried FIN or RST.
pub open spec fn touched(flow: FlowView, now: u64, closing: bool) -> FlowView {
    FlowView { last_activity: now, client_closed: flow.client_closed || closing, ..flow }
}

/// The flow after its last dial failed: no dial is out, and none is due.
pub open spec fn dial_given_up(flow: FlowView) -> FlowView {
    FlowView { pending_dial: false, dial_started_at: None, ..flow }
}

impl FlowEntry {
    /// The queues of the entry keep their limits.
    pub open spec fn wf(&self) -> bool {
        &&& self.buffered.wf()
        &&& self.shaping matches Some(shaper) ==> shaper.wf()
        &&& flow_invariant(self@)
    }

    /// A new flow, taken in at `now`: not ready, with a dial due at once.
    pub(crate) fn create(
        key: FlowKey,
        handle: u64,
        socket: SocketHandle,
        now: u64,
        shaping: Option<ShapingConfig>,
        client_closed: bool,
        limits: FlowLimits,
    ) -> (r: FlowEntry)
        requires
            limits.wf(),
            handle >= 1,
        ensures
            r.wf(),
            r.buffered.spec_max_payloads() == limits.max_buffered_payloads,
            r.buffered.spec_max_bytes() == limits.max_buffered_bytes,
            r.shaping matches Some(shaper) ==> shaper.spec_max_payloads()
                == limits.max_shaped_payloads && shaper.spec_max_bytes()
                == limits.max_shaped_bytes,
            r@ == (FlowView {
                key,
                socket,
                kind: key.kind,
                handle,
                ready: false,
                pending_dial: false,
                dial_attempts: 0,
                next_redial_at: Some(now),
                last_activity: now,
                buffered: Seq::empty(),
                client_closed,
                server_closed: false,
                shaping: match shaping {
                    Some(config) => Some(ShaperView { config, queue: Seq::empty() }),
                    None => None,
                },
                backpressure_retry_at: None,
                backpressure_cooldown_ms: TCP_BACKPRESSURE_RETRY_MS,
                dial_started_at: None,
                created_at: now,
                delivered: Seq::empty(),
                pushed: Seq::empty(),
                lossless: true,
                dials_requested: 0,
            }),
    {
        let shaper = match shaping {
            Some(config) => Some(FlowShaper::new(config, limits)),
            None => None,
        };
        let r = FlowEntry {
            key,
            socket,
            kind: key.kind,
            handle,
            ready: false,
            pending_dial: false,
            dial_attempts: 0,
            next_redial_at: Some(now),
            last_activity: now,
            buffered: BoundedQueue::new(limits.max_buffered_payloads, limits.max_buffered_bytes),
            client_closed,
            server_closed: false,
            shaping: shaper,
            backpressure_retry_at: None,
            backpressure_cooldown_ms: TCP_BACKPRESSURE_RETRY_MS,
            dial_started_at: None,
            created_at: now,
            delivered: Ghost(Seq::empty()),
            pushed: Ghost(Seq::empty()),
            lossless: Ghost(true),
            dials_requested: Ghost(0),
        };
        proof {
            assert(concat_payloads(Seq::<TimedPayloadView>::empty()) =~= Seq::<u8>::empty());
            assert(r@.delivered =~= r@.pushed + concat_payloads(r@.buffered) + shaped_bytes(r@));
        }
        r
    }

    /// Whether a dial is due for the flow at `now`.
    pub fn due_for_dial(&self, now: u64) -> (r: bool)
        ensures
            r == dial_due(self@, now),
    {
        match self.next_redial_at {
            Some(deadline) => !self.ready && !self.pending_dial && self.dial_attempts
                < MAX_DIAL_ATTEMPTS && deadline <= now,
            None => false,
        }
    }

    /// Marks that a dial was requested at `now`: one more attempt is counted.
    pub(crate) fn begin_dial(&mut self, now: u64)
        requires
            old(self).wf(),
            dial_due(old(self)@, now),
        ensures
            final(self).wf(),
            final(self)@ == dial_begun(old(self)@, now),
            final(self).buffered == old(self).buffered,
            final(self).shaping == old(self).shaping,
    {
        self.pending_dial = true;
        self.dial_attempts = self.dial_attempts + 1;
        self.next_redial_at = None;
        self.dial_started_at = Some(now);
        proof {
            self.dials_requested@ = self.dials_requested@ + 1;
        }
    }

    /// Marks that the dial succeeded at `now`: the flow is ready.
    pub fn mark_ready(&mut self, now: u64)
        requires
            old(self).wf(),
        ensures
            final(self).wf(),
            final(self)@ == dial_succeeded(old(self)@, now),
            final(self).buffered == old(self).buffered,
            final(self).shaping == old(self).shaping,
    {
        self.pending_dial = false;
        self.dial_started_at = None;
        self.ready = true;
        self.next_redial_at = None;
        self.last_activity = now;
        self.backpressure_cooldown_ms = TCP_BACKPRESSURE_RETRY_MS;
        self.backpressure_retry_at = None;
    }

    /// Notes a packet of the client for the flow.
    pub fn touch(&mut self, now: u64, closing: bool)
        requires
            old(self).wf(),
        ensures
            final(self).wf(),
            final(self)@ == touched(old(self)@, now, closing),
            final(self).buffered == old(self).buffered,
            final(self).shaping == old(self).shaping,
    {
        self.last_activity = now;
        if closing {
            self.client_closed = true;
        }
    }

    /// Clears the time of the next try under backpressure.
    pub fn clear_retry(&mut self)
        requires
            old(self).wf(),
        ensures
            final(self).wf(),
            final(self)@ == (FlowView { backpressure_retry_at: None, ..old(self)@ }),
            final(self).buffered == old(self).buffered,
            final(self).shaping == old(self).shaping,
    {
        self.backpressure_retry_at = None;
    }

    /// Marks that the host closed its side of the flow.
    pub fn mark_server_closed(&mut self)
        requires
            old(self).wf(),
        ensures
            final(self).wf(),
            final(self)@ == (FlowView { server_closed: true, ..old(self)@ }),
            final(self).buffered == old(self).buffered,
            final(self).shaping == old(self).shaping,
    {
        self.server_closed = true;
    }

    /// Marks that the last dial failed.
    pub fn clear_dial(&mut self)
        requires
            old(self).wf(),
        ensures
            final(self).wf(),
            final(self)@ == dial_given_up(old(self)@),
            final(self).buffered == old(self).buffered,
            final(self).shaping == old(self).shaping,
    {
        self.pending_dial = false;
        self.dial_started_at = None;
    }

    /// Marks that the dial failed at `now` with another attempt left.
    pub fn schedule_redial(&mut self, now: u64)
        requires
            old(self).wf(),
        ensures
            final(self).wf(),
            final(self)@ == dial_retrying(old(self)@, now),
            final(self).buffered == old(self).buffered,
            final(self).shaping == old(self).shaping,
    {
        self.pending_dial = false;
        self.dial_started_at = None;
        self.next_redial_at = Some(add_time(now, dial_backoff_delay(self.dial_attempts)));
    }
}

} // verus!
