//! The sockets of the embedded TCP/IP stack, as the flow engine uses them.
//! The stack is smoltcp; what the engine relies on is stated here and is not
//! proved: which handles a socket set holds, and of which kind each socket
//! is. What a socket answers when it is written to or read is given a name:
//! the state of the socket decides it. Of the state of a TCP socket, of the
//! bytes that wait in its transmit buffer, and of whether a UDP socket is
//! bound, the contracts say what the calls of the engine do to them. That
//! the storage of a set grows with its sockets is a name too: the calls
//! that add a socket ask for it, and no call takes it away.

use crate::addr::IpAddress;
use smoltcp::iface::{SocketHandle, SocketSet};
use vstd::prelude::*;

verus! {

#[verifier::external_type_specification]
#[verifier::external_body]
pub struct ExSocketSet<'a>(SocketSet<'a>);

#[verifier::external_type_specification]
#[verifier::external_body]
pub struct ExSocketHandle(SocketHandle);

/// The sockets that a set holds: each handle with `true` for a TCP socket and
/// `false` for a UDP socket.
pub uninterp spec fn socket_kinds(set: SocketSet<'static>) -> Map<SocketHandle, bool>;

/// The largest receive buffer that a TCP socket takes: 1 GiB.
pub const MAX_TCP_RX_BUFFER: usize = 0x4000_0000;

/// How many packets the buffers of a UDP socket hold.
pub const UDP_PACKET_METADATA: usize = 32;

/// The state of a TCP socket.
#[derive(Clone, Copy, Debug, PartialEq, Eq, Structural)]
pub enum TcpState {
    Closed,
    Listen,
    SynSent,
    SynReceived,
    Established,
    FinWait1,
    FinWait2,
    CloseWait,
    Closing,
    LastAck,
    TimeWait,
}

/// What came of writing to a TCP socket: how many bytes its transmit buffer
/// took, or that the socket is in no state to send.
#[derive(Clone, Copy, Debug, PartialEq, Eq, Structural)]
pub enum TcpSendOutcome {
    Sent(usize),
    InvalidState,
}

/// Whether the storage of the set grows with its sockets: a set that was
/// made over a `Vec` does, and then `SocketSet::add` always finds room; a
/// set over a borrowed slice does not.
pub uninterp spec fn set_grows(set: SocketSet<'static>) -> bool;

/// What `tcp::Socket::can_send` answers for the socket at `handle`, as the
/// set stands.
pub uninterp spec fn tcp_writable(set: SocketSet<'static>, handle: SocketHandle) -> bool;

/// What `tcp::Socket::send_slice` answers when `data` is offered to the
/// socket at `handle`, as the set stands.
pub uninterp spec fn tcp_send_answer(
    set: SocketSet<'static>,
    handle: SocketHandle,
    data: Seq<u8>,
) -> TcpSendOutcome;

/// What `tcp::Socket::can_recv` answers for the socket at `handle`, as the
/// set stands.
pub uninterp spec fn tcp_readable(set: SocketSet<'static>, handle: SocketHandle) -> bool;

/// The run of received bytes that `tcp::Socket::recv` offers on the socket
/// at `handle`, as the set stands; `None` where the socket cannot be read.
pub uninterp spec fn tcp_recv_answer(set: SocketSet<'static>, handle: SocketHandle) -> Option<Seq<u8>>;

/// The payload of the datagram that `udp::Socket::recv` gives on the socket
/// at `handle`, as the set stands; `None` where none waits.
pub uninterp spec fn udp_recv_answer(set: SocketSet<'static>, handle: SocketHandle) -> Option<Seq<u8>>;

/// The state that `tcp::Socket::state` gives for the socket at `handle`, as
/// the set stands.
pub uninterp spec fn tcp_state_answer(set: SocketSet<'static>, handle: SocketHandle) -> TcpState;

/// The bytes that wait in the transmit buffer of the TCP socket at
/// `handle`, as the set stands, oldest first.
pub uninterp spec fn tcp_queued(set: SocketSet<'static>, handle: SocketHandle) -> Seq<u8>;

/// Whether the UDP socket at `handle` is bound to a port, as the set stands:
/// what `udp::Socket::is_open` answers.
pub uninterp spec fn udp_bound(set: SocketSet<'static>, handle: SocketHandle) -> bool;

/// The state of a TCP socket after `tcp::Socket::close`: the sending half is
/// closed where it was open, and a socket without a connection is closed.
pub open spec fn state_after_close(state: TcpState) -> TcpState {
    match state {
        TcpState::Listen => TcpState::Closed,
        TcpState::SynSent => TcpState::Closed,
        TcpState::SynReceived => TcpState::FinWait1,
        TcpState::Established => TcpState::FinWait1,
        TcpState::CloseWait => TcpState::LastAck,
        _ => state,
    }
}

/// The state of a TCP socket after `tcp::Socket::listen` on `port`: a socket
/// that is not open listens, unless the port is zero; any other socket
/// stays in its state.
pub open spec fn state_after_listen(state: TcpState, port: u16) -> TcpState {
    if port != 0 && (state is Closed || state is TimeWait) {
        TcpState::Listen
    } else {
        state
    }
}

/// The first part of `data` that a socket took when it answered `outcome`.
pub open spec fn sent_part(data: Seq<u8>, outcome: TcpSendOutcome) -> Seq<u8> {
    match outcome {
        TcpSendOutcome::Sent(taken) => data.take(taken as int),
        TcpSendOutcome::InvalidState => Seq::empty(),
    }
}

/// What a socket gave, as a mathematical value.
pub open spec fn chunk_view(chunk: Option<Vec<u8>>) -> Option<Seq<u8>> {
    match chunk {
        Some(bytes) => Some(bytes@),
        None => None,
    }
}

/// `SocketSet::new` over an empty `Vec`: a set without sockets.
#[verifier::external_body]
pub(crate) fn new_socket_set() -> (r: SocketSet<'static>)
    ensures
        socket_kinds(r) =~= Map::empty(),
        set_grows(r),
{
    SocketSet::new(Vec::new())
}

/// `SocketSet::add` of a new `tcp::Socket` with zeroed buffers of the given
/// lengths: the set gains one handle, which it did not hold, for a TCP
/// socket that is closed and has nothing to send.
#[verifier::external_body]
pub(crate) fn add_tcp_socket(set: &mut SocketSet<'static>, rx_len: usize, tx_len: usize) -> (r:
    SocketHandle)
    requires
        rx_len <= MAX_TCP_RX_BUFFER,
        set_grows(*old(set)),
    ensures
        !socket_kinds(*old(set)).dom().contains(r),
        socket_kinds(*final(set)) == socket_kinds(*old(set)).insert(r, true),
        set_grows(*final(set)) == set_grows(*old(set)),
        tcp_state_answer(*final(set), r) == TcpState::Closed,
        tcp_queued(*final(set), r) =~= Seq::empty(),
{
    set.add(
        smoltcp::socket::tcp::Socket::new(
            smoltcp::socket::tcp::SocketBuffer::new(vec![0; rx_len]),
            smoltcp::socket::tcp::SocketBuffer::new(vec![0; tx_len]),
        ),
    )
}

/// `SocketSet::add` of a new `udp::Socket` with zeroed buffers of the given
/// length for 32 packets each way: the set gains one handle, which it did not
/// hold, for a UDP socket that is not bound.
#[verifier::external_body]
pub(crate) fn add_udp_socket(set: &mut SocketSet<'static>, buffer_len: usize) -> (r: SocketHandle)
    requires
        set_grows(*old(set)),
    ensures
        !socket_kinds(*old(set)).dom().contains(r),
        socket_kinds(*final(set)) == socket_kinds(*old(set)).insert(r, false),
        set_grows(*final(set)) == set_grows(*old(set)),
        !udp_bound(*final(set), r),
{
    let rx_meta = vec![smoltcp::socket::udp::PacketMetadata::EMPTY; UDP_PACKET_METADATA];
    let tx_meta = vec![smoltcp::socket::udp::PacketMetadata::EMPTY; UDP_PACKET_METADATA];
    set.add(
        smoltcp::socket::udp::Socket::new(
            smoltcp::socket::udp::PacketBuffer::new(rx_meta, vec![0; buffer_len]),
            smoltcp::socket::udp::PacketBuffer::new(tx_meta, vec![0; buffer_len]),
        ),
    )
}

/// `SocketSet::remove`: the handle leaves the set.
#[verifier::external_body]
pub(crate) fn remove_socket(set: &mut SocketSet<'static>, handle: SocketHandle)
    requires
        socket_kinds(*old(set)).dom().contains(handle),
    ensures
        socket_kinds(*final(set)) == socket_kinds(*old(set)).remove(handle),
        set_grows(*final(set)) == set_grows(*old(set)),
{
    set.remove(handle);
}

/// `tcp::Socket::listen` on the given address and port; the set holds the
/// sockets it held. A socket that is not open listens afterwards, unless
/// the port is zero; any other socket stays in its state.
#[verifier::external_body]
pub(crate) fn tcp_listen(set: &mut SocketSet<'static>, handle: SocketHandle, ip: IpAddress, port: u16)
    requires
        socket_kinds(*old(set)).dom().contains(handle),
        socket_kinds(*old(set))[handle],
    ensures
        socket_kinds(*final(set)) == socket_kinds(*old(set)),
        set_grows(*final(set)) == set_grows(*old(set)),
        tcp_state_answer(*final(set), handle) == state_after_listen(
            tcp_state_answer(*old(set), handle),
            port,
        ),
{
    let addr = match ip {
        IpAddress::V4(bits) => smoltcp::wire::IpAddress::Ipv4(
            smoltcp::wire::Ipv4Address(bits.to_be_bytes()),
        ),
        IpAddress::V6(bits) => smoltcp::wire::IpAddress::Ipv6(
            smoltcp::wire::Ipv6Address(bits.to_be_bytes()),
        ),
    };
    let endpoint = smoltcp::wire::IpListenEndpoint { addr: Some(addr), port };
    let _ = set.get_mut::<smoltcp::socket::tcp::Socket>(handle).listen(endpoint);
}

/// `udp::Socket::bind` on the given address and port; the set holds the
/// sockets it held. The socket is bound afterwards if it was, or if the
/// port is not zero.
#[verifier::external_body]
pub(crate) fn udp_bind(set: &mut SocketSet<'static>, handle: SocketHandle, ip: IpAddress, port: u16)
    requires
        socket_kinds(*old(set)).dom().contains(handle),
        !socket_kinds(*old(set))[handle],
    ensures
        socket_kinds(*final(set)) == socket_kinds(*old(set)),
        set_grows(*final(set)) == set_grows(*old(set)),
        udp_bound(*final(set), handle) == (udp_bound(*old(set), handle) || port != 0),
{
    let addr = match ip {
        IpAddress::V4(bits) => smoltcp::wire::IpAddress::Ipv4(
            smoltcp::wire::Ipv4Address(bits.to_be_bytes()),
        ),
        IpAddress::V6(bits) => smoltcp::wire::IpAddress::Ipv6(
            smoltcp::wire::Ipv6Address(bits.to_be_bytes()),
        ),
    };
    let endpoint = smoltcp::wire::IpListenEndpoint { addr: Some(addr), port };
    let _ = set.get_mut::<smoltcp::socket::udp::Socket>(handle).bind(endpoint);
}

/// `tcp::Socket::state`, variant for variant: the contract names the state,
/// which is what the stack made of the traffic so far.
#[verifier::external_body]
pub(crate) fn tcp_state(set: &SocketSet<'static>, handle: SocketHandle) -> (r: TcpState)
    requires
        socket_kinds(*set).dom().contains(handle),
        socket_kinds(*set)[handle],
    ensures
        r == tcp_state_answer(*set, handle),
{
    match set.get::<smoltcp::socket::tcp::Socket>(handle).state() {
        smoltcp::socket::tcp::State::Closed => TcpState::Closed,
        smoltcp::socket::tcp::State::Listen => TcpState::Listen,
        smoltcp::socket::tcp::State::SynSent => TcpState::SynSent,
        smoltcp::socket::tcp::State::SynReceived => TcpState::SynReceived,
        smoltcp::socket::tcp::State::Established => TcpState::Established,
        smoltcp::socket::tcp::State::FinWait1 => TcpState::FinWait1,
        smoltcp::socket::tcp::State::FinWait2 => TcpState::FinWait2,
        smoltcp::socket::tcp::State::CloseWait => TcpState::CloseWait,
        smoltcp::socket::tcp::State::Closing => TcpState::Closing,
        smoltcp::socket::tcp::State::LastAck => TcpState::LastAck,
        smoltcp::socket::tcp::State::TimeWait => TcpState::TimeWait,
    }
}

/// `tcp::Socket::close`: the set holds the sockets it held, and the sending
/// half of the socket is closed.
#[verifier::external_body]
pub(crate) fn tcp_close(set: &mut SocketSet<'static>, handle: SocketHandle)
    requires
        socket_kinds(*old(set)).dom().contains(handle),
        socket_kinds(*old(set))[handle],
    ensures
        socket_kinds(*final(set)) == socket_kinds(*old(set)),
        set_grows(*final(set)) == set_grows(*old(set)),
        tcp_state_answer(*final(set), handle) == state_after_close(
            tcp_state_answer(*old(set), handle),
        ),
{
    set.get_mut::<smoltcp::socket::tcp::Socket>(handle).close();
}

/// `tcp::Socket::abort`: the set holds the sockets it held, and the socket
/// is closed.
#[verifier::external_body]
pub(crate) fn tcp_abort(set: &mut SocketSet<'static>, handle: SocketHandle)
    requires
        socket_kinds(*old(set)).dom().contains(handle),
        socket_kinds(*old(set))[handle],
    ensures
        socket_kinds(*final(set)) == socket_kinds(*old(set)),
        set_grows(*final(set)) == set_grows(*old(set)),
        tcp_state_answer(*final(set), handle) == TcpState::Closed,
{
    set.get_mut::<smoltcp::socket::tcp::Socket>(handle).abort();
}

/// `udp::Socket::close`: the set holds the sockets it held, and the socket
/// is bound no more.
#[verifier::external_body]
pub(crate) fn udp_close(set: &mut SocketSet<'static>, handle: SocketHandle)
    requires
        socket_kinds(*old(set)).dom().contains(handle),
        !socket_kinds(*old(set))[handle],
    ensures
        socket_kinds(*final(set)) == socket_kinds(*old(set)),
        set_grows(*final(set)) == set_grows(*old(set)),
        !udp_bound(*final(set), handle),
{
    set.get_mut::<smoltcp::socket::udp::Socket>(handle).close();
}

/// `tcp::Socket::can_send`: the contract names the answer, which the state
/// of the socket decides.
#[verifier::external_body]
pub(crate) fn tcp_can_send(set: &SocketSet<'static>, handle: SocketHandle) -> (r: bool)
    requires
        socket_kinds(*set).dom().contains(handle),
        socket_kinds(*set)[handle],
    ensures
        r == tcp_writable(*set, handle),
{
    set.get::<smoltcp::socket::tcp::Socket>(handle).can_send()
}

/// `tcp::Socket::send_slice`: the transmit buffer takes a first part of
/// `data`, as long as it has room, and the call says how many bytes it took;
/// these bytes wait behind what waited in the buffer. A socket in no state
/// to send takes nothing. The set holds the sockets it held, and the socket
/// stays in its state. The contract names the answer, which the state of
/// the socket and the data decide.
#[verifier::external_body]
pub(crate) fn tcp_send_slice(set: &mut SocketSet<'static>, handle: SocketHandle, data: &[u8]) -> (r:
    TcpSendOutcome)
    requires
        socket_kinds(*old(set)).dom().contains(handle),
        socket_kinds(*old(set))[handle],
    ensures
        socket_kinds(*final(set)) == socket_kinds(*old(set)),
        set_grows(*final(set)) == set_grows(*old(set)),
        r == tcp_send_answer(*old(set), handle, data@),
        r matches TcpSendOutcome::Sent(taken) ==> taken <= data@.len(),
        tcp_queued(*final(set), handle) == tcp_queued(*old(set), handle) + sent_part(data@, r),
        tcp_state_answer(*final(set), handle) == tcp_state_answer(*old(set), handle),
{
    match set.get_mut::<smoltcp::socket::tcp::Socket>(handle).send_slice(data) {
        Ok(taken) => TcpSendOutcome::Sent(taken),
        Err(smoltcp::socket::tcp::SendError::InvalidState) => TcpSendOutcome::InvalidState,
    }
}

/// `tcp::Socket::can_recv`: the contract names the answer, which the state
/// of the socket decides.
#[verifier::external_body]
pub(crate) fn tcp_can_recv(set: &SocketSet<'static>, handle: SocketHandle) -> (r: bool)
    requires
        socket_kinds(*set).dom().contains(handle),
        socket_kinds(*set)[handle],
    ensures
        r == tcp_readable(*set, handle),
{
    set.get::<smoltcp::socket::tcp::Socket>(handle).can_recv()
}

/// `tcp::Socket::recv`, taking the whole of the run of received bytes that it
/// offers: `None` where the socket cannot be read; the set holds the sockets
/// it held, and the socket keeps its state and what it has to send. The
/// contract names the run, which the state of the socket decides.
#[verifier::external_body]
pub(crate) fn tcp_recv(set: &mut SocketSet<'static>, handle: SocketHandle) -> (r: Option<Vec<u8>>)
    requires
        socket_kinds(*old(set)).dom().contains(handle),
        socket_kinds(*old(set))[handle],
    ensures
        socket_kinds(*final(set)) == socket_kinds(*old(set)),
        set_grows(*final(set)) == set_grows(*old(set)),
        chunk_view(r) == tcp_recv_answer(*old(set), handle),
        tcp_state_answer(*final(set), handle) == tcp_state_answer(*old(set), handle),
        tcp_queued(*final(set), handle) == tcp_queued(*old(set), handle),
{
    match set.get_mut::<smoltcp::socket::tcp::Socket>(handle).recv(
        |bytes| (bytes.len(), bytes.to_vec()),
    ) {
        Ok(bytes) => Some(bytes),
        Err(_) => None,
    }
}

/// `udp::Socket::recv`, with a copy of the datagram's payload: `None` where
/// none waits; the set holds the sockets it held, and the socket stays
/// bound as it was. The contract names the payload, which the state of the
/// socket decides.
#[verifier::external_body]
pub(crate) fn udp_recv(set: &mut SocketSet<'static>, handle: SocketHandle) -> (r: Option<Vec<u8>>)
    requires
        socket_kinds(*old(set)).dom().contains(handle),
        !socket_kinds(*old(set))[handle],
    ensures
        socket_kinds(*final(set)) == socket_kinds(*old(set)),
        set_grows(*final(set)) == set_grows(*old(set)),
        chunk_view(r) == udp_recv_answer(*old(set), handle),
        udp_bound(*final(set), handle) == udp_bound(*old(set), handle),
{
    match set.get_mut::<smoltcp::socket::udp::Socket>(handle).recv() {
        Ok((payload, _)) => Some(payload.to_vec()),
        Err(_) => None,
    }
}

} // verus!
