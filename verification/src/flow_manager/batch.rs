//! Callback batching: the frames and requests that the engine collects for
//! the host while it works, to be carried out once the engine is left alone.

use crate::addr::{ip_string, IpAddress};
use crate::flow_manager::state::FlowKind;
use vstd::prelude::*;

verus! {

/// A dial request to be sent to the host.
#[derive(Debug)]
pub struct DialRequest {
    pub handle: u64,
    pub host: String,
    pub port: u16,
    pub kind: FlowKind,
}

/// A close notification to be sent to the host.
#[derive(Debug)]
pub struct CloseRequest {
    pub handle: u64,
    pub reason: String,
    pub kind: FlowKind,
}

/// Data to be sent on a flow.
#[derive(Debug)]
pub struct SendRequest {
    pub handle: u64,
    pub payload: Vec<u8>,
    pub kind: FlowKind,
}

/// A DNS mapping to record.
#[derive(Debug)]
pub struct DnsRecord {
    pub host: String,
    pub addresses: Vec<String>,
    pub ttl_seconds: u32,
}

pub ghost struct DialRequestView {
    pub handle: u64,
    pub host: Seq<char>,
    pub port: u16,
    pub kind: FlowKind,
}

pub ghost struct CloseRequestView {
    pub handle: u64,
    pub reason: Seq<char>,
    pub kind: FlowKind,
}

pub ghost struct SendRequestView {
    pub handle: u64,
    pub payload: Seq<u8>,
    pub kind: FlowKind,
}

pub ghost struct DnsRecordView {
    pub host: Seq<char>,
    pub addresses: Seq<Seq<char>>,
    pub ttl_seconds: u32,
}

impl View for DialRequest {
    type V = DialRequestView;

    open spec fn view(&self) -> DialRequestView {
        DialRequestView { handle: self.handle, host: self.host@, port: self.port, kind: self.kind }
    }
}

impl View for CloseRequest {
    type V = CloseRequestView;

    open spec fn view(&self) -> CloseRequestView {
        CloseRequestView { handle: self.handle, reason: self.reason@, kind: self.kind }
    }
}

impl View for SendRequest {
    type V = SendRequestView;

    open spec fn view(&self) -> SendRequestView {
        SendRequestView { handle: self.handle, payload: self.payload@, kind: self.kind }
    }
}

impl View for DnsRecord {
    type V = DnsRecordView;

    open spec fn view(&self) -> DnsRecordView {
        DnsRecordView {
            host: self.host@,
            addresses: self.addresses@.map_values(|a: String| a@),
            ttl_seconds: self.ttl_seconds,
        }
    }
}

/// The text forms of a list of addresses.
pub open spec fn address_texts(addresses: Seq<IpAddress>) -> Seq<Seq<char>> {
    addresses.map_values(|a: IpAddress| a.text())
}

/// Which IP version a frame is of.
#[derive(Clone, Copy, Debug, PartialEq, Eq, Structural)]
pub enum AddressFamily {
    Inet,
    Inet6,
}

/// The family of a frame: IPv6 where its first four bits say six, IPv4 otherwise.
pub open spec fn family_of(frame: Seq<u8>) -> AddressFamily {
    if frame.len() > 0 && frame[0] / 16 == 6 {
        AddressFamily::Inet6
    } else {
        AddressFamily::Inet
    }
}

/// The family of a frame, as the host is told it.
pub fn protocol_number(frame: &[u8]) -> (r: AddressFamily)
    ensures
        r == family_of(frame@),
{
    if frame.len() > 0 && frame[0] / 16 == 6 {
        AddressFamily::Inet6
    } else {
        AddressFamily::Inet
    }
}

/// Batched callbacks, in the order in which each kind was collected. The
/// host carries them out kind by kind: frames, dials, TCP sends, UDP sends,
/// closes, DNS records.
#[derive(Debug)]
pub struct CallbackBatch {
    /// Frames to emit back to the tunnel (IP packets).
    pub frames: Vec<Vec<u8>>,
    /// TCP data to send to bypass connections.
    pub tcp_sends: Vec<SendRequest>,
    /// UDP data to send to bypass connections.
    pub udp_sends: Vec<SendRequest>,
    /// Close notifications.
    pub closes: Vec<CloseRequest>,
    /// Dial requests.
    pub dials: Vec<DialRequest>,
    /// DNS mappings to record.
    pub dns_records: Vec<DnsRecord>,
}

/// A batch as a mathematical value.
pub ghost struct BatchView {
    pub frames: Seq<Seq<u8>>,
    pub tcp_sends: Seq<SendRequestView>,
    pub udp_sends: Seq<SendRequestView>,
    pub closes: Seq<CloseRequestView>,
    pub dials: Seq<DialRequestView>,
    pub dns_records: Seq<DnsRecordView>,
}

impl View for CallbackBatch {
    type V = BatchView;

    open spec fn view(&self) -> BatchView {
        BatchView {
            frames: self.frames@.map_values(|f: Vec<u8>| f@),
            tcp_sends: self.tcp_sends@.map_values(|s: SendRequest| s@),
            udp_sends: self.udp_sends@.map_values(|s: SendRequest| s@),
            closes: self.closes@.map_values(|c: CloseRequest| c@),
            dials: self.dials@.map_values(|d: DialRequest| d@),
            dns_records: self.dns_records@.map_values(|d: DnsRecord| d@),
        }
    }
}

/// The batch without anything in it.
pub open spec fn empty_batch() -> BatchView {
    BatchView {
        frames: Seq::empty(),
        tcp_sends: Seq::empty(),
        udp_sends: Seq::empty(),
        closes: Seq::empty(),
        dials: Seq::empty(),
        dns_records: Seq::empty(),
    }
}

/// Whether `new` holds everything that `old` holds, in the same order and
/// before anything else: nothing that was collected is taken back.
pub open spec fn batch_extends(old: BatchView, new: BatchView) -> bool {
    &&& old.frames.is_prefix_of(new.frames)
    &&& old.tcp_sends.is_prefix_of(new.tcp_sends)
    &&& old.udp_sends.is_prefix_of(new.udp_sends)
    &&& old.closes.is_prefix_of(new.closes)
    &&& old.dials.is_prefix_of(new.dials)
    &&& old.dns_records.is_prefix_of(new.dns_records)
}

/// A sequence begins what is made of it by adding behind it.
pub proof fn lemma_prefix_of_concat<T>(a: Seq<T>, b: Seq<T>)
    ensures
        a.is_prefix_of(a + b),
        a.is_prefix_of(a),
        forall|x: T| a.is_prefix_of(#[trigger] a.push(x)),
{
    assert(a =~= (a + b).subrange(0, a.len() as int));
    assert(a =~= a.subrange(0, a.len() as int));
    assert forall|x: T| a.is_prefix_of(#[trigger] a.push(x)) by {
        assert(a =~= a.push(x).subrange(0, a.len() as int));
    }
}

/// The beginning of a beginning is a beginning.
pub proof fn lemma_prefix_chain<T>(a: Seq<T>, b: Seq<T>, c: Seq<T>)
    requires
        a.is_prefix_of(b),
        b.is_prefix_of(c),
    ensures
        a.is_prefix_of(c),
{
    assert(a =~= c.subrange(0, a.len() as int)) by {
        assert forall|i: int| 0 <= i < a.len() implies a[i] == c[i] by {
            assert(a[i] == b.subrange(0, a.len() as int)[i]);
            assert(b[i] == c.subrange(0, b.len() as int)[i]);
        }
    }
}

/// Every batch extends itself.
pub proof fn lemma_extends_self(batch: BatchView)
    ensures
        batch_extends(batch, batch),
{
    lemma_prefix_of_concat(batch.frames, Seq::empty());
    lemma_prefix_of_concat(batch.tcp_sends, Seq::empty());
    lemma_prefix_of_concat(batch.udp_sends, Seq::empty());
    lemma_prefix_of_concat(batch.closes, Seq::empty());
    lemma_prefix_of_concat(batch.dials, Seq::empty());
    lemma_prefix_of_concat(batch.dns_records, Seq::empty());
}

/// Extension goes on through a batch in between.
pub proof fn lemma_extends_chain(a: BatchView, b: BatchView, c: BatchView)
    requires
        batch_extends(a, b),
        batch_extends(b, c),
    ensures
        batch_extends(a, c),
{
    lemma_prefix_chain(a.frames, b.frames, c.frames);
    lemma_prefix_chain(a.tcp_sends, b.tcp_sends, c.tcp_sends);
    lemma_prefix_chain(a.udp_sends, b.udp_sends, c.udp_sends);
    lemma_prefix_chain(a.closes, b.closes, c.closes);
    lemma_prefix_chain(a.dials, b.dials, c.dials);
    lemma_prefix_chain(a.dns_records, b.dns_records, c.dns_records);
}

/// A batch that grew in one of its lists and kept the others extends the batch that it was.
pub proof fn lemma_extends_by(old: BatchView, new: BatchView)
    requires
        old.frames.is_prefix_of(new.frames) || exists|s: Seq<Seq<u8>>| new.frames == old.frames + s,
        new.tcp_sends == old.tcp_sends || exists|s: Seq<SendRequestView>|
            new.tcp_sends == old.tcp_sends + s,
        new.udp_sends == old.udp_sends || exists|s: Seq<SendRequestView>|
            new.udp_sends == old.udp_sends + s,
        new.closes == old.closes || exists|s: Seq<CloseRequestView>| new.closes == old.closes + s,
        new.dials == old.dials || exists|s: Seq<DialRequestView>| new.dials == old.dials + s,
        new.dns_records == old.dns_records || exists|s: Seq<DnsRecordView>|
            new.dns_records == old.dns_records + s,
    ensures
        batch_extends(old, new),
{
    lemma_extends_self(old);
    if !old.frames.is_prefix_of(new.frames) {
        let s = choose|s: Seq<Seq<u8>>| new.frames == old.frames + s;
        lemma_prefix_of_concat(old.frames, s);
    }
    if new.tcp_sends != old.tcp_sends {
        let s = choose|s: Seq<SendRequestView>| new.tcp_sends == old.tcp_sends + s;
        lemma_prefix_of_concat(old.tcp_sends, s);
    }
    if new.udp_sends != old.udp_sends {
        let s = choose|s: Seq<SendRequestView>| new.udp_sends == old.udp_sends + s;
        lemma_prefix_of_concat(old.udp_sends, s);
    }
    if new.closes != old.closes {
        let s = choose|s: Seq<CloseRequestView>| new.closes == old.closes + s;
        lemma_prefix_of_concat(old.closes, s);
    }
    if new.dials != old.dials {
        let s = choose|s: Seq<DialRequestView>| new.dials == old.dials + s;
        lemma_prefix_of_concat(old.dials, s);
    }
    if new.dns_records != old.dns_records {
        let s = choose|s: Seq<DnsRecordView>| new.dns_records == old.dns_records + s;
        lemma_prefix_of_concat(old.dns_records, s);
    }
}

impl CallbackBatch {
    /// Create a new empty callback batch.
    pub fn new() -> (r: CallbackBatch)
        ensures
            r@ == empty_batch(),
    {
        let r = CallbackBatch {
            frames: Vec::new(),
            tcp_sends: Vec::new(),
            udp_sends: Vec::new(),
            closes: Vec::new(),
            dials: Vec::new(),
            dns_records: Vec::new(),
        };
        proof {
            assert(r@.frames =~= Seq::empty());
            assert(r@.tcp_sends =~= Seq::empty());
            assert(r@.udp_sends =~= Seq::empty());
            assert(r@.closes =~= Seq::empty());
            assert(r@.dials =~= Seq::empty());
            assert(r@.dns_records =~= Seq::empty());
        }
        r
    }

    /// Check if any work was batched.
    pub fn has_work(&self) -> (r: bool)
        ensures
            r == (self@ != empty_batch()),
    {
        proof {
            if self@.frames.len() == 0 && self@.tcp_sends.len() == 0 && self@.udp_sends.len() == 0
                && self@.closes.len() == 0 && self@.dials.len() == 0 && self@.dns_records.len()
                == 0 {
                assert(self@.frames =~= Seq::empty());
                assert(self@.tcp_sends =~= Seq::empty());
                assert(self@.udp_sends =~= Seq::empty());
                assert(self@.closes =~= Seq::empty());
                assert(self@.dials =~= Seq::empty());
                assert(self@.dns_records =~= Seq::empty());
            }
        }
        self.frames.len() > 0 || self.tcp_sends.len() > 0 || self.udp_sends.len() > 0
            || self.closes.len() > 0 || self.dials.len() > 0 || self.dns_records.len() > 0
    }

    /// Add frames to emit.
    pub fn add_frames(&mut self, frames: Vec<Vec<u8>>)
        ensures
            final(self)@ == (BatchView {
                frames: old(self)@.frames + frames@.map_values(|f: Vec<u8>| f@),
                ..old(self)@
            }),
    {
        let mut frames = frames;
        let ghost given = frames@;
        self.frames.append(&mut frames);
        proof {
            assert(self@.frames =~= old(self)@.frames + given.map_values(|f: Vec<u8>| f@));
        }
    }

    /// Add a single frame to emit.
    pub fn add_frame(&mut self, frame: Vec<u8>)
        ensures
            final(self)@ == (BatchView { frames: old(self)@.frames.push(frame@), ..old(self)@ }),
    {
        self.frames.push(frame);
        proof {
            assert(self@.frames =~= old(self)@.frames.push(frame@));
        }
    }

    /// Add a TCP send request.
    pub fn add_tcp_send(&mut self, handle: u64, payload: Vec<u8>)
        ensures
            final(self)@ == (BatchView {
                tcp_sends: old(self)@.tcp_sends.push(
                    SendRequestView { handle, payload: payload@, kind: FlowKind::Tcp },
                ),
                ..old(self)@
            }),
    {
        self.tcp_sends.push(SendRequest { handle, payload, kind: FlowKind::Tcp });
        proof {
            assert(self@.tcp_sends =~= old(self)@.tcp_sends.push(
                SendRequestView { handle, payload: payload@, kind: FlowKind::Tcp },
            ));
        }
    }

    /// Add a UDP send request.
    pub fn add_udp_send(&mut self, handle: u64, payload: Vec<u8>)
        ensures
            final(self)@ == (BatchView {
                udp_sends: old(self)@.udp_sends.push(
                    SendRequestView { handle, payload: payload@, kind: FlowKind::Udp },
                ),
                ..old(self)@
            }),
    {
        self.udp_sends.push(SendRequest { handle, payload, kind: FlowKind::Udp });
        proof {
            assert(self@.udp_sends =~= old(self)@.udp_sends.push(
                SendRequestView { handle, payload: payload@, kind: FlowKind::Udp },
            ));
        }
    }

    /// Add a close notification.
    pub fn add_close(&mut self, handle: u64, reason: &str, kind: FlowKind)
        ensures
            final(self)@ == (BatchView {
                closes: old(self)@.closes.push(CloseRequestView { handle, reason: reason@, kind }),
                ..old(self)@
            }),
    {
        self.closes.push(CloseRequest { handle, reason: String::from_str(reason), kind });
        proof {
            assert(self@.closes =~= old(self)@.closes.push(
                CloseRequestView { handle, reason: reason@, kind },
            ));
        }
    }

    /// Add a dial request to the address `ip`, which is given to the host as text.
    pub fn add_dial(&mut self, handle: u64, ip: IpAddress, port: u16, kind: FlowKind)
        ensures
            final(self)@ == (BatchView {
                dials: old(self)@.dials.push(
                    DialRequestView { handle, host: ip.text(), port, kind },
                ),
                ..old(self)@
            }),
    {
        self.dials.push(DialRequest { handle, host: ip_string(ip), port, kind });
        proof {
            assert(self@.dials =~= old(self)@.dials.push(
                DialRequestView { handle, host: ip.text(), port, kind },
            ));
        }
    }

    /// Add a DNS mapping to record; a mapping without addresses is passed over.
    pub fn add_dns_record(&mut self, host: &str, addresses: &[IpAddress], ttl_seconds: u32)
        ensures
            final(self)@ == if addresses@.len() == 0 {
                old(self)@
            } else {
                BatchView {
                    dns_records: old(self)@.dns_records.push(
                        DnsRecordView {
                            host: host@,
                            addresses: address_texts(addresses@),
                            ttl_seconds,
                        },
                    ),
                    ..old(self)@
                }
            },
    {
        if addresses.len() == 0 {
            return ;
        }
        let mut texts: Vec<String> = Vec::new();
        let mut i: usize = 0;
        while i < addresses.len()
            invariant
                i <= addresses@.len(),
                texts@.map_values(|a: String| a@) =~= address_texts(addresses@).take(i as int),
            decreases addresses@.len() - i,
        {
            let ghost before = texts@.map_values(|a: String| a@);
            let text = ip_string(addresses[i]);
            texts.push(text);
            assert(texts@.map_values(|a: String| a@) =~= before.push(addresses@[i as int].text()));
            i = i + 1;
        }
        assert(address_texts(addresses@).take(addresses@.len() as int) =~= address_texts(
            addresses@,
        ));
        self.dns_records.push(DnsRecord { host: String::from_str(host), addresses: texts, ttl_seconds });
        proof {
            assert(self@.dns_records =~= old(self)@.dns_records.push(
                DnsRecordView { host: host@, addresses: address_texts(addresses@), ttl_seconds },
            ));
        }
    }
}

/// One call of the host, with what it is handed.
#[derive(Debug)]
pub enum HostCall<'a> {
    /// All frames for the tunnel at once, each with its family.
    EmitPackets { frames: &'a Vec<Vec<u8>>, families: Vec<AddressFamily> },
    /// A connection to open, TCP or UDP by the kind of the request.
    RequestDial(&'a DialRequest),
    /// Bytes for a connection, TCP or UDP by the kind of the request.
    Send(&'a SendRequest),
    /// The end of a flow, with its reason.
    Close(&'a CloseRequest),
    /// A name and the addresses that it was seen to resolve to.
    RecordDns(&'a DnsRecord),
}

pub ghost enum HostCallView {
    EmitPackets { frames: Seq<Seq<u8>>, families: Seq<AddressFamily> },
    RequestDial(DialRequestView),
    Send(SendRequestView),
    Close(CloseRequestView),
    RecordDns(DnsRecordView),
}

impl<'a> View for HostCall<'a> {
    type V = HostCallView;

    open spec fn view(&self) -> HostCallView {
        match *self {
            HostCall::EmitPackets { frames, families } => HostCallView::EmitPackets {
                frames: frames@.map_values(|f: Vec<u8>| f@),
                families: families@,
            },
            HostCall::RequestDial(dial) => HostCallView::RequestDial(dial@),
            HostCall::Send(send) => HostCallView::Send(send@),
            HostCall::Close(close) => HostCallView::Close(close@),
            HostCall::RecordDns(record) => HostCallView::RecordDns(record@),
        }
    }
}

/// The one call that hands the frames over; none where there is no frame.
pub open spec fn emit_calls(frames: Seq<Seq<u8>>) -> Seq<HostCallView> {
    if frames.len() > 0 {
        seq![
            HostCallView::EmitPackets {
                frames,
                families: frames.map_values(|f: Seq<u8>| family_of(f)),
            },
        ]
    } else {
        Seq::empty()
    }
}

/// One call for each dial request.
pub open spec fn dial_calls(dials: Seq<DialRequestView>) -> Seq<HostCallView> {
    dials.map_values(|d: DialRequestView| HostCallView::RequestDial(d))
}

/// One call for each send request.
pub open spec fn send_calls(sends: Seq<SendRequestView>) -> Seq<HostCallView> {
    sends.map_values(|s: SendRequestView| HostCallView::Send(s))
}

/// One call for each close notification.
pub open spec fn close_calls(closes: Seq<CloseRequestView>) -> Seq<HostCallView> {
    closes.map_values(|c: CloseRequestView| HostCallView::Close(c))
}

/// One call for each DNS record.
pub open spec fn record_calls(records: Seq<DnsRecordView>) -> Seq<HostCallView> {
    records.map_values(|r: DnsRecordView| HostCallView::RecordDns(r))
}

/// The calls that carry a batch out, in their fixed order: the frames,
/// the dials, the TCP sends, the UDP sends, the closes, the DNS records;
/// within a kind, in the order of collection.
pub open spec fn host_calls(batch: BatchView) -> Seq<HostCallView> {
    emit_calls(batch.frames) + dial_calls(batch.dials) + send_calls(batch.tcp_sends) + send_calls(
        batch.udp_sends,
    ) + close_calls(batch.closes) + record_calls(batch.dns_records)
}

/// A list of calls as a mathematical value.
pub open spec fn call_views(calls: Seq<HostCall<'_>>) -> Seq<HostCallView> {
    calls.map_values(|c: HostCall<'_>| c@)
}

impl CallbackBatch {
    /// The family of every frame of the batch, in the order of the frames.
    fn families(&self) -> (families: Vec<AddressFamily>)
        ensures
            families@ == self@.frames.map_values(|f: Seq<u8>| family_of(f)),
    {
        let mut families: Vec<AddressFamily> = Vec::new();
        let mut i: usize = 0;
        while i < self.frames.len()
            invariant
                i <= self.frames@.len(),
                families@ =~= self@.frames.take(i as int).map_values(|f: Seq<u8>| family_of(f)),
            decreases self.frames@.len() - i,
        {
            families.push(protocol_number(self.frames[i].as_slice()));
            i = i + 1;
        }
        assert(self@.frames.take(self.frames@.len() as int) =~= self@.frames);
        families
    }

    /// Lays the batch out as the calls of the host that carry it out, in
    /// the order in which they are to be made.
    pub fn execute(&self) -> (calls: Vec<HostCall<'_>>)
        ensures
            call_views(calls@) == host_calls(self@),
    {
        let mut calls: Vec<HostCall<'_>> = Vec::new();
        if self.frames.len() > 0 {
            let families = self.families();
            calls.push(HostCall::EmitPackets { frames: &self.frames, families });
        }
        assert(call_views(calls@) =~= emit_calls(self@.frames));
        let ghost done = call_views(calls@);
        let mut i: usize = 0;
        while i < self.dials.len()
            invariant
                i <= self.dials@.len(),
                call_views(calls@) =~= done + dial_calls(self@.dials.take(i as int)),
            decreases self.dials@.len() - i,
        {
            let ghost before = calls@;
            let ghost call = HostCallView::RequestDial(self@.dials[i as int]);
            calls.push(HostCall::RequestDial(&self.dials[i]));
            proof {
                assert(call_views(calls@) =~= call_views(before).push(call));
                assert(dial_calls(self@.dials.take(i + 1)) =~= dial_calls(self@.dials.take(i as int)).push(call));
            }
            i = i + 1;
        }
        assert(self@.dials.take(self.dials@.len() as int) =~= self@.dials);
        let ghost done = call_views(calls@);
        let mut i: usize = 0;
        while i < self.tcp_sends.len()
            invariant
                i <= self.tcp_sends@.len(),
                call_views(calls@) =~= done + send_calls(self@.tcp_sends.take(i as int)),
            decreases self.tcp_sends@.len() - i,
        {
            let ghost before = calls@;
            let ghost call = HostCallView::Send(self@.tcp_sends[i as int]);
            calls.push(HostCall::Send(&self.tcp_sends[i]));
            proof {
                assert(call_views(calls@) =~= call_views(before).push(call));
                assert(send_calls(self@.tcp_sends.take(i + 1)) =~= send_calls(self@.tcp_sends.take(i as int)).push(call));
            }
            i = i + 1;
        }
        assert(self@.tcp_sends.take(self.tcp_sends@.len() as int) =~= self@.tcp_sends);
        let ghost done = call_views(calls@);
        let mut i: usize = 0;
        while i < self.udp_sends.len()
            invariant
                i <= self.udp_sends@.len(),
                call_views(calls@) =~= done + send_calls(self@.udp_sends.take(i as int)),
            decreases self.udp_sends@.len() - i,
        {
            let ghost before = calls@;
            let ghost call = HostCallView::Send(self@.udp_sends[i as int]);
            calls.push(HostCall::Send(&self.udp_sends[i]));
            proof {
                assert(call_views(calls@) =~= call_views(before).push(call));
                assert(send_calls(self@.udp_sends.take(i + 1)) =~= send_calls(self@.udp_sends.take(i as int)).push(call));
            }
            i = i + 1;
        }
        assert(self@.udp_sends.take(self.udp_sends@.len() as int) =~= self@.udp_sends);
        let ghost done = call_views(calls@);
        let mut i: usize = 0;
        while i < self.closes.len()
            invariant
                i <= self.closes@.len(),
                call_views(calls@) =~= done + close_calls(self@.closes.take(i as int)),
            decreases self.closes@.len() - i,
        {
            let ghost before = calls@;
            let ghost call = HostCallView::Close(self@.closes[i as int]);
            calls.push(HostCall::Close(&self.closes[i]));
            proof {
                assert(call_views(calls@) =~= call_views(before).push(call));
                assert(close_calls(self@.closes.take(i + 1)) =~= close_calls(self@.closes.take(i as int)).push(call));
            }
            i = i + 1;
        }
        assert(self@.closes.take(self.closes@.len() as int) =~= self@.closes);
        let ghost done = call_views(calls@);
        let mut i: usize = 0;
        while i < self.dns_records.len()
            invariant
                i <= self.dns_records@.len(),
                call_views(calls@) =~= done + record_calls(self@.dns_records.take(i as int)),
            decreases self.dns_records@.len() - i,
        {
            let ghost before = calls@;
            let ghost call = HostCallView::RecordDns(self@.dns_records[i as int]);
            calls.push(HostCall::RecordDns(&self.dns_records[i]));
            proof {
                assert(call_views(calls@) =~= call_views(before).push(call));
                assert(record_calls(self@.dns_records.take(i + 1)) =~= record_calls(self@.dns_records.take(i as int)).push(call));
            }
            i = i + 1;
        }
        assert(self@.dns_records.take(self.dns_records@.len() as int) =~= self@.dns_records);
        calls
    }
}

} // verus!
