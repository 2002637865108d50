//! The telemetry ring: a bounded buffer of traffic events that the host
//! drains in batches, with a count of the events that had to give way.

use crate::addr::IpAddress;
use std::collections::VecDeque;
use vstd::prelude::*;

verus! {

pub const MAX_EVENTS: usize = 4096;

pub const TELEMETRY_FLAG_DNS: u8 = 0x01;

pub const TELEMETRY_FLAG_DNS_RESPONSE: u8 = 0x02;

pub const TELEMETRY_FLAG_POLICY_BLOCK: u8 = 0x04;

pub const TELEMETRY_FLAG_POLICY_SHAPE: u8 = 0x08;

#[derive(Clone, Copy, Debug, PartialEq, Eq, Structural)]
pub enum PacketDirection {
    ClientToNetwork,
    NetworkToClient,
}

#[derive(Clone, Debug)]
pub struct TelemetryEvent {
    pub timestamp_ms: u64,
    pub protocol: u8,
    pub direction: PacketDirection,
    pub payload_len: u32,
    pub src: IpAddress,
    pub dst: IpAddress,
    pub dns_qname: Option<String>,
    pub dns_response: bool,
    pub flags: u8,
}

/// An event as a mathematical value.
pub ghost struct TelemetryEventView {
    pub timestamp_ms: u64,
    pub protocol: u8,
    pub direction: PacketDirection,
    pub payload_len: u32,
    pub src: IpAddress,
    pub dst: IpAddress,
    pub dns_qname: Option<Seq<char>>,
    pub dns_response: bool,
    pub flags: u8,
}

impl View for TelemetryEvent {
    type V = TelemetryEventView;

    open spec fn view(&self) -> TelemetryEventView {
        TelemetryEventView {
            timestamp_ms: self.timestamp_ms,
            protocol: self.protocol,
            direction: self.direction,
            payload_len: self.payload_len,
            src: self.src,
            dst: self.dst,
            dns_qname: match self.dns_qname {
                Some(name) => Some(name@),
                None => None,
            },
            dns_response: self.dns_response,
            flags: self.flags,
        }
    }
}

impl TelemetryEvent {
    /// An event at `timestamp_ms` without a DNS name and without flags.
    pub fn new(
        protocol: u8,
        direction: PacketDirection,
        payload_len: u32,
        src: IpAddress,
        dst: IpAddress,
        timestamp_ms: u64,
    ) -> (r: TelemetryEvent)
        ensures
            r@ == (TelemetryEventView {
                timestamp_ms,
                protocol,
                direction,
                payload_len,
                src,
                dst,
                dns_qname: None,
                dns_response: false,
                flags: 0,
            }),
    {
        TelemetryEvent {
            timestamp_ms,
            protocol,
            direction,
            payload_len,
            src,
            dst,
            dns_qname: None,
            dns_response: false,
            flags: 0,
        }
    }
}

/// The views of a list of events.
pub open spec fn events_view(events: Seq<TelemetryEvent>) -> Seq<TelemetryEventView> {
    events.map_values(|e: TelemetryEvent| e@)
}

/// `events` with `event` as the newest: where 4096 events wait, the oldest gives way.
pub open spec fn recorded(events: Seq<TelemetryEventView>, event: TelemetryEventView) -> Seq<
    TelemetryEventView,
> {
    if events.len() >= MAX_EVENTS {
        events.drop_first().push(event)
    } else {
        events.push(event)
    }
}

pub struct Telemetry {
    events: VecDeque<TelemetryEvent>,
    dropped: u64,
}

/// The ring as a mathematical value: the events that wait, oldest first, and
/// the count of the events that gave way since the last drain.
pub ghost struct TelemetryView {
    pub events: Seq<TelemetryEventView>,
    pub dropped: u64,
}

/// The ring after `event` was recorded.
pub open spec fn after_record(ring: TelemetryView, event: TelemetryEventView) -> TelemetryView {
    TelemetryView {
        events: recorded(ring.events, event),
        dropped: if ring.events.len() < MAX_EVENTS || ring.dropped == u64::MAX {
            ring.dropped
        } else {
            (ring.dropped + 1) as u64
        },
    }
}

impl View for Telemetry {
    type V = TelemetryView;

    closed spec fn view(&self) -> TelemetryView {
        TelemetryView { events: events_view(self.events@), dropped: self.dropped }
    }
}

impl Telemetry {
    /// The events that wait, oldest first.
    pub open spec fn events(&self) -> Seq<TelemetryEventView> {
        self@.events
    }

    /// How many events gave way since the last drain; the count stops at `u64::MAX`.
    pub open spec fn dropped(&self) -> u64 {
        self@.dropped
    }

    pub closed spec fn wf(&self) -> bool {
        self.events@.len() <= MAX_EVENTS
    }

    pub fn new() -> (r: Telemetry)
        ensures
            r.wf(),
            r.events() == Seq::<TelemetryEventView>::empty(),
            r.dropped() == 0,
    {
        let r = Telemetry { events: VecDeque::new(), dropped: 0 };
        assert(r.events() =~= Seq::<TelemetryEventView>::empty());
        r
    }

    /// Adds an event as the newest; on a full ring the oldest gives way and is counted.
    pub fn record(&mut self, event: TelemetryEvent)
        requires
            old(self).wf(),
        ensures
            final(self).wf(),
            final(self)@ == after_record(old(self)@, event@),
    {
        let ghost before = self.events();
        if self.events.len() >= MAX_EVENTS {
            let _ = self.events.pop_front();
            if self.dropped < u64::MAX {
                self.dropped = self.dropped + 1;
            }
            assert(self.events() =~= before.drop_first());
        }
        self.events.push_back(event);
        assert(self.events() =~= recorded(before, event@));
    }

    /// Takes up to `max_events` events, oldest first, and the count of
    /// dropped events, which starts again at zero.
    pub fn drain(&mut self, max_events: usize) -> (r: (Vec<TelemetryEvent>, u64))
        requires
            old(self).wf(),
        ensures
            final(self).wf(),
            r.1 == old(self).dropped(),
            final(self).dropped() == 0,
            r.0@.len() == if old(self).events().len() <= max_events {
                old(self).events().len()
            } else {
                max_events as nat
            },
            events_view(r.0@) == old(self).events().take(r.0@.len() as int),
            final(self).events() == old(self).events().skip(r.0@.len() as int),
    {
        let mut drained: Vec<TelemetryEvent> = Vec::new();
        let ghost before = self.events@;
        while drained.len() < max_events && self.events.len() > 0
            invariant
                self.wf(),
                self.dropped == old(self).dropped,
                drained@.len() <= max_events,
                drained@.len() <= before.len(),
                drained@ =~= before.take(drained@.len() as int),
                self.events@ =~= before.skip(drained@.len() as int),
            decreases self.events@.len(),
        {
            let event = self.events.pop_front().unwrap();
            drained.push(event);
        }
        let dropped = self.dropped;
        self.dropped = 0;
        proof {
            let n = drained@.len() as int;
            assert(events_view(drained@) =~= events_view(before).take(n));
            assert(self.events() =~= events_view(before).skip(n));
        }
        (drained, dropped)
    }
}

} // verus!
