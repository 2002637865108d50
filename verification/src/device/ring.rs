//! The TUN ring: two bounded queues of frames between the producer of inbound
//! packets and the embedded stack. A full queue gives up its oldest frame, so
//! the producer never waits.

use crate::bytes::{be_value, read_be16, read_be32};
use crate::device::{valid_ip_frame, validate_packet, word_at, MAX_EMIT_BATCH};
use crate::flow_manager::checksum::{ones_complement_spec, pseudo_header_v4, tcp_ipv4};
use std::collections::VecDeque;
use vstd::prelude::*;

verus! {

/// The smallest ring that a device is made with.
pub const MIN_RING_CAPACITY: usize = 16;

/// The smallest MTU that a device is made with.
pub const MIN_DEVICE_MTU: usize = 576;

/// Whether `frame` is an IPv4 TCP SYN-ACK that carries ECE or CWR.
pub open spec fn is_ecn_syn_ack(frame: Seq<u8>) -> bool {
    &&& frame.len() >= 40
    &&& frame[0] / 16 == 4
    &&& frame[9] == 6
    &&& frame.len() >= (frame[0] % 16) * 4 + 20
    &&& ({
        let flags = frame[(frame[0] % 16) * 4 + 13];
        (flags / 2) % 2 == 1 && (flags / 16) % 2 == 1 && flags >= 64
    })
}

/// `packet` with the checksum of the TCP segment behind an IPv4 header of
/// `ip_header_len` bytes computed anew; a packet too short for its own lengths
/// is left as it is.
pub open spec fn tcp_checksum_refreshed(packet: Seq<u8>, ip_header_len: int) -> Seq<u8> {
    let total = word_at(packet, 2) as int;
    let tcp_len = if total >= ip_header_len {
        total - ip_header_len
    } else {
        0
    };
    if packet.len() < ip_header_len + 20 || tcp_len < 20 || packet.len() < ip_header_len + tcp_len {
        packet
    } else {
        let zeroed = packet.update(ip_header_len + 16, 0u8).update(ip_header_len + 17, 0u8);
        let sum = ones_complement_spec(
            0,
            pseudo_header_v4(
                be_value(zeroed.subrange(12, 16)) as u32,
                be_value(zeroed.subrange(16, 20)) as u32,
                6,
                tcp_len as nat,
            ) + zeroed.subrange(ip_header_len, ip_header_len + tcp_len),
        );
        zeroed.update(ip_header_len + 16, (sum / 256) as u8).update(
            ip_header_len + 17,
            (sum % 256) as u8,
        )
    }
}

/// The frame that leaves for the TUN interface in place of `frame`: a SYN-ACK
/// loses ECE and CWR and gets a fresh TCP checksum, any other frame is kept.
pub open spec fn ecn_stripped(frame: Seq<u8>) -> Seq<u8> {
    if is_ecn_syn_ack(frame) {
        let header_len = ((frame[0] % 16) * 4) as int;
        tcp_checksum_refreshed(
            frame.update(header_len + 13, (frame[header_len + 13] % 64) as u8),
            header_len,
        )
    } else {
        frame
    }
}

/// Whether the TCP checksum holds of the segment that an IPv4 packet with
/// a header of `ip_header_len` bytes declares by its total length: with
/// the pseudo-header before it, the segment sums to all ones.
pub open spec fn declared_tcp_checksum_ok(packet: Seq<u8>, ip_header_len: int) -> bool {
    let tcp_len = word_at(packet, 2) - ip_header_len;
    ones_complement_spec(
        0,
        pseudo_header_v4(
            be_value(packet.subrange(12, 16)) as u32,
            be_value(packet.subrange(16, 20)) as u32,
            6,
            tcp_len as nat,
        ) + packet.subrange(ip_header_len, ip_header_len + tcp_len),
    ) == 0
}

/// A checksum that was computed anew holds of the segment that the packet
/// declares.
pub proof fn lemma_refreshed_checksum_holds(packet: Seq<u8>, ip_header_len: int)
    requires
        20 <= ip_header_len,
        ip_header_len + 20 <= word_at(packet, 2) <= packet.len(),
    ensures
        declared_tcp_checksum_ok(tcp_checksum_refreshed(packet, ip_header_len), ip_header_len),
{
    let tcp_len = word_at(packet, 2) - ip_header_len;
    let zeroed = packet.update(ip_header_len + 16, 0u8).update(ip_header_len + 17, 0u8);
    let src = be_value(zeroed.subrange(12, 16)) as u32;
    let dst = be_value(zeroed.subrange(16, 20)) as u32;
    let pseudo = pseudo_header_v4(src, dst, 6, tcp_len as nat);
    let segment = zeroed.subrange(ip_header_len, ip_header_len + tcp_len);
    let sum = ones_complement_spec(0, pseudo + segment);
    let fresh = tcp_checksum_refreshed(packet, ip_header_len);
    crate::bytes::lemma_be_bytes_len(src as nat, 4);
    crate::bytes::lemma_be_bytes_len(dst as nat, 4);
    crate::bytes::lemma_be_bytes_len((tcp_len as nat) % 0x1_0000, 2);
    assert(pseudo.len() == 12);
    crate::flow_manager::checksum::lemma_checksum_verifies(pseudo, segment, 16);
    let filled = segment.update(16, (sum / 256) as u8).update(17, (sum % 256) as u8);
    assert(fresh.subrange(ip_header_len, ip_header_len + tcp_len) =~= filled);
    assert(fresh.subrange(12, 16) =~= zeroed.subrange(12, 16));
    assert(fresh.subrange(16, 20) =~= zeroed.subrange(16, 20));
    assert(word_at(fresh, 2) == word_at(packet, 2));
}

/// The SYN-ACK that leaves without its ECN flags carries a TCP checksum that
/// holds of its segment, where the frame holds all that its header declares.
pub proof fn lemma_stripped_checksum_holds(frame: Seq<u8>)
    requires
        is_ecn_syn_ack(frame),
        (frame[0] % 16) * 4 >= 20,
        (frame[0] % 16) * 4 + 20 <= word_at(frame, 2) <= frame.len(),
    ensures
        declared_tcp_checksum_ok(ecn_stripped(frame), ((frame[0] % 16) * 4) as int),
{
    let header_len = ((frame[0] % 16) * 4) as int;
    let cleared = frame.update(header_len + 13, (frame[header_len + 13] % 64) as u8);
    assert(word_at(cleared, 2) == word_at(frame, 2));
    lemma_refreshed_checksum_holds(cleared, header_len);
}

/// Recalculate TCP checksum for an IPv4 packet after modifying TCP header fields.
/// This function zeros the existing checksum, computes the new one, and writes it back.
pub fn recalculate_tcp_checksum_ipv4(packet: &mut Vec<u8>, ip_header_len: usize)
    requires
        ip_header_len + 20 <= usize::MAX,
    ensures
        final(packet)@ == tcp_checksum_refreshed(old(packet)@, ip_header_len as int),
{
    if packet.len() < ip_header_len + 20 {
        return ;
    }
    let ip_total_len: usize = read_be16(packet.as_slice(), 2) as usize;
    let tcp_len: usize = if ip_total_len >= ip_header_len {
        ip_total_len - ip_header_len
    } else {
        0
    };
    if tcp_len < 20 || packet.len() < ip_header_len + tcp_len {
        return ;
    }
    packet.set(ip_header_len + 16, 0);
    packet.set(ip_header_len + 17, 0);
    let src = read_be32(packet.as_slice(), 12);
    let dst = read_be32(packet.as_slice(), 16);
    let sum = tcp_ipv4(
        src,
        dst,
        vstd::slice::slice_subrange(packet.as_slice(), ip_header_len, ip_header_len + tcp_len),
    );
    packet.set(ip_header_len + 16, (sum / 256) as u8);
    packet.set(ip_header_len + 17, (sum % 256) as u8);
}

/// Clears ECE and CWR in an outbound IPv4 TCP SYN-ACK and refreshes its checksum.
pub fn strip_syn_ack_ecn(frame: &mut Vec<u8>)
    ensures
        final(frame)@ == ecn_stripped(old(frame)@),
{
    if frame.len() >= 40 {
        let version = frame[0] / 16;
        if version == 4 && frame[9] == 6 {
            let header_len: usize = ((frame[0] % 16) as usize) * 4;
            if frame.len() >= header_len + 20 {
                let flags = frame[header_len + 13];
                let is_syn_ack = (flags / 2) % 2 == 1 && (flags / 16) % 2 == 1;
                let has_ecn = flags >= 64;
                if is_syn_ack && has_ecn {
                    frame.set(header_len + 13, flags % 64);
                    recalculate_tcp_checksum_ipv4(frame, header_len);
                }
            }
        }
    }
}

/// The frame handed to the stack for one inbound packet.
pub struct TunRxToken {
    buffer: Vec<u8>,
}

impl TunRxToken {
    /// The bytes of the frame.
    pub closed spec fn frame(&self) -> Seq<u8> {
        self.buffer@
    }

    /// Gives up the frame.
    pub fn consume(self) -> (r: Vec<u8>)
        ensures
            r@ == self.frame(),
    {
        self.buffer
    }
}

/// The views of the frames in a queue.
pub open spec fn frames_of(queue: Seq<Vec<u8>>) -> Seq<Seq<u8>> {
    queue.map_values(|frame: Vec<u8>| frame@)
}

/// `queue` after `frame` has been added at a capacity of `capacity`: a full
/// queue loses its oldest frame first.
pub open spec fn pushed_evicting(queue: Seq<Seq<u8>>, capacity: nat, frame: Seq<u8>) -> Seq<
    Seq<u8>,
> {
    if queue.len() >= capacity && queue.len() > 0 {
        queue.drop_first().push(frame)
    } else {
        queue.push(frame)
    }
}

/// The TUN device: the inbound and the outbound queue, with their shared
/// capacity, the MTU that caps every frame, and the count of evicted frames.
pub struct TunDevice {
    inbound: VecDeque<Vec<u8>>,
    outbound: VecDeque<Vec<u8>>,
    capacity: usize,
    mtu: usize,
    inbound_dropped: u64,
    outbound_dropped: u64,
}

impl TunDevice {
    /// The frames that wait for the stack, oldest first.
    pub closed spec fn inbound(&self) -> Seq<Seq<u8>> {
        frames_of(self.inbound@)
    }

    /// The frames that wait for the TUN interface, oldest first.
    pub closed spec fn outbound(&self) -> Seq<Seq<u8>> {
        frames_of(self.outbound@)
    }

    pub closed spec fn spec_capacity(&self) -> nat {
        self.capacity as nat
    }

    pub closed spec fn spec_mtu(&self) -> nat {
        self.mtu as nat
    }

    /// How many inbound frames were evicted; the count stops at `u64::MAX`.
    pub closed spec fn spec_inbound_dropped(&self) -> nat {
        self.inbound_dropped as nat
    }

    /// How many outbound frames were evicted; the count stops at `u64::MAX`.
    pub closed spec fn spec_outbound_dropped(&self) -> nat {
        self.outbound_dropped as nat
    }

    /// Neither queue is longer than the capacity, and no frame is longer than the MTU.
    pub closed spec fn wf(&self) -> bool {
        &&& self.capacity >= MIN_RING_CAPACITY
        &&& self.mtu >= MIN_DEVICE_MTU
        &&& self.inbound@.len() <= self.capacity
        &&& self.outbound@.len() <= self.capacity
        &&& forall|i: int| 0 <= i < self.inbound@.len() ==> (#[trigger] self.inbound@[i])@.len() <= self.mtu
        &&& forall|i: int|
            0 <= i < self.outbound@.len() ==> (#[trigger] self.outbound@[i])@.len() <= self.mtu
    }

    /// A device with empty queues; the capacity is 16 at least, the MTU 576 at least.
    pub fn new(mtu: usize, ring_capacity: usize) -> (r: TunDevice)
        ensures
            r.wf(),
            r.inbound() == Seq::<Seq<u8>>::empty(),
            r.outbound() == Seq::<Seq<u8>>::empty(),
            r.spec_capacity() == if ring_capacity >= MIN_RING_CAPACITY {
                ring_capacity
            } else {
                MIN_RING_CAPACITY
            },
            r.spec_mtu() == if mtu >= MIN_DEVICE_MTU {
                mtu
            } else {
                MIN_DEVICE_MTU
            },
            r.spec_inbound_dropped() == 0,
            r.spec_outbound_dropped() == 0,
    {
        let capacity = if ring_capacity >= MIN_RING_CAPACITY {
            ring_capacity
        } else {
            MIN_RING_CAPACITY
        };
        let mtu = if mtu >= MIN_DEVICE_MTU {
            mtu
        } else {
            MIN_DEVICE_MTU
        };
        let r = TunDevice {
            inbound: VecDeque::new(),
            outbound: VecDeque::new(),
            capacity,
            mtu,
            inbound_dropped: 0,
            outbound_dropped: 0,
        };
        assert(r.inbound() =~= Seq::<Seq<u8>>::empty());
        assert(r.outbound() =~= Seq::<Seq<u8>>::empty());
        r
    }

    pub fn mtu(&self) -> (r: usize)
        ensures
            r == self.spec_mtu(),
    {
        self.mtu
    }

    pub fn capacity(&self) -> (r: usize)
        ensures
            r == self.spec_capacity(),
    {
        self.capacity
    }

    /// Returns the current number of packets in the inbound queue.
    pub fn inbound_queue_len(&self) -> (r: usize)
        ensures
            r == self.inbound().len(),
    {
        self.inbound.len()
    }

    pub fn inbound_dropped(&self) -> (r: u64)
        ensures
            r == self.spec_inbound_dropped(),
    {
        self.inbound_dropped
    }

    pub fn outbound_dropped(&self) -> (r: u64)
        ensures
            r == self.spec_outbound_dropped(),
    {
        self.outbound_dropped
    }

    /// Pushes a copy of `packet`, cut to the MTU, into the inbound ring. An
    /// empty packet is accepted and not queued; a packet without a valid IP
    /// header is refused. A full ring gives up exactly its oldest frame.
    pub fn push_inbound(&mut self, packet: &[u8]) -> (accepted: bool)
        requires
            old(self).wf(),
        ensures
            final(self).wf(),
            accepted == (packet@.len() == 0 || valid_ip_frame(packet@)),
            final(self).outbound() == old(self).outbound(),
            final(self).spec_capacity() == old(self).spec_capacity(),
            final(self).spec_mtu() == old(self).spec_mtu(),
            final(self).spec_outbound_dropped() == old(self).spec_outbound_dropped(),
            packet@.len() == 0 || !valid_ip_frame(packet@) ==> final(self).inbound() == old(
                self,
            ).inbound() && final(self).spec_inbound_dropped() == old(self).spec_inbound_dropped(),
            valid_ip_frame(packet@) ==> final(self).inbound() == pushed_evicting(
                old(self).inbound(),
                old(self).spec_capacity(),
                packet@.take(
                    if packet@.len() <= old(self).spec_mtu() {
                        packet@.len() as int
                    } else {
                        old(self).spec_mtu() as int
                    },
                ),
            ),
            valid_ip_frame(packet@) ==> final(self).spec_inbound_dropped() == if old(
                self,
            ).inbound().len() < old(self).spec_capacity() || old(self).spec_inbound_dropped()
                == u64::MAX {
                old(self).spec_inbound_dropped()
            } else {
                old(self).spec_inbound_dropped() + 1
            },
    {
        if packet.len() == 0 {
            return true;
        }
        if !validate_packet(packet) {
            return false;
        }
        let ghost before = self.inbound@;
        if self.inbound.len() >= self.capacity {
            let _ = self.inbound.pop_front();
            if self.inbound_dropped < u64::MAX {
                self.inbound_dropped = self.inbound_dropped + 1;
            }
        }
        let capped: usize = if packet.len() <= self.mtu {
            packet.len()
        } else {
            self.mtu
        };
        let frame = vstd::slice::slice_to_vec(vstd::slice::slice_subrange(packet, 0, capped));
        self.inbound.push_back(frame);
        proof {
            assert(frame@ =~= packet@.take(capped as int));
            assert(self.inbound() =~= pushed_evicting(
                frames_of(before),
                self.capacity as nat,
                frame@,
            ));
        }
        true
    }

    /// Takes the oldest inbound frame for the stack, if there is one.
    pub fn receive(&mut self) -> (r: Option<TunRxToken>)
        requires
            old(self).wf(),
        ensures
            final(self).wf(),
            final(self).outbound() == old(self).outbound(),
            final(self).spec_capacity() == old(self).spec_capacity(),
            final(self).spec_mtu() == old(self).spec_mtu(),
            final(self).spec_inbound_dropped() == old(self).spec_inbound_dropped(),
            final(self).spec_outbound_dropped() == old(self).spec_outbound_dropped(),
            match r {
                Some(token) => old(self).inbound().len() > 0 && token.frame() == old(
                    self,
                ).inbound().first() && final(self).inbound() == old(self).inbound().drop_first(),
                None => old(self).inbound().len() == 0 && final(self).inbound() == old(
                    self,
                ).inbound(),
            },
    {
        let ghost before = self.inbound@;
        match self.inbound.pop_front() {
            Some(buffer) => {
                proof {
                    assert(self.inbound() =~= frames_of(before).drop_first());
                }
                Some(TunRxToken { buffer })
            },
            None => None,
        }
    }

    /// The length of the buffer that the stack gets for a frame of `len` bytes.
    pub fn tx_frame_len(&self, len: usize) -> (r: usize)
        ensures
            r == if len <= self.spec_mtu() {
                len
            } else {
                self.spec_mtu() as usize
            },
    {
        if len <= self.mtu {
            len
        } else {
            self.mtu
        }
    }

    /// Queues a frame that the stack has written, cut to the MTU: a SYN-ACK
    /// loses its ECN flags on the way, and a full ring gives up exactly its
    /// oldest frame.
    pub fn transmit(&mut self, frame: Vec<u8>)
        requires
            old(self).wf(),
        ensures
            final(self).wf(),
            final(self).inbound() == old(self).inbound(),
            final(self).spec_capacity() == old(self).spec_capacity(),
            final(self).spec_mtu() == old(self).spec_mtu(),
            final(self).spec_inbound_dropped() == old(self).spec_inbound_dropped(),
            final(self).outbound() == pushed_evicting(
                old(self).outbound(),
                old(self).spec_capacity(),
                ecn_stripped(
                    frame@.take(
                        if frame@.len() <= old(self).spec_mtu() {
                            frame@.len() as int
                        } else {
                            old(self).spec_mtu() as int
                        },
                    ),
                ),
            ),
            final(self).spec_outbound_dropped() == if old(self).outbound().len() < old(
                self,
            ).spec_capacity() || old(self).spec_outbound_dropped() == u64::MAX {
                old(self).spec_outbound_dropped()
            } else {
                old(self).spec_outbound_dropped() + 1
            },
    {
        let ghost given = frame@;
        let mut frame = frame;
        if frame.len() > self.mtu {
            frame.truncate(self.mtu);
        }
        assert(frame@ =~= given.take(
            if given.len() <= self.mtu {
                given.len() as int
            } else {
                self.mtu as int
            },
        ));
        let ghost cut = frame@;
        strip_syn_ack_ecn(&mut frame);
        proof {
            lemma_ecn_stripped_len(cut);
        }
        let ghost before = self.outbound@;
        if self.outbound.len() >= self.capacity {
            let _ = self.outbound.pop_front();
            if self.outbound_dropped < u64::MAX {
                self.outbound_dropped = self.outbound_dropped + 1;
            }
        }
        self.outbound.push_back(frame);
        proof {
            assert(self.outbound() =~= pushed_evicting(
                frames_of(before),
                self.capacity as nat,
                frame@,
            ));
        }
    }

    /// Drains up to `MAX_EMIT_BATCH` outbound frames, oldest first.
    pub fn drain_outbound(&mut self) -> (frames: Vec<Vec<u8>>)
        requires
            old(self).wf(),
        ensures
            final(self).wf(),
            final(self).inbound() == old(self).inbound(),
            final(self).spec_capacity() == old(self).spec_capacity(),
            final(self).spec_mtu() == old(self).spec_mtu(),
            final(self).spec_inbound_dropped() == old(self).spec_inbound_dropped(),
            final(self).spec_outbound_dropped() == old(self).spec_outbound_dropped(),
            frames@.len() == if old(self).outbound().len() <= MAX_EMIT_BATCH {
                old(self).outbound().len()
            } else {
                MAX_EMIT_BATCH as nat
            },
            frames_of(frames@) == old(self).outbound().take(frames@.len() as int),
            final(self).outbound() == old(self).outbound().skip(frames@.len() as int),
    {
        let mut frames: Vec<Vec<u8>> = Vec::new();
        let ghost before = self.outbound@;
        while frames.len() < MAX_EMIT_BATCH && self.outbound.len() > 0
            invariant
                self.wf(),
                frames@.len() <= MAX_EMIT_BATCH,
                frames@.len() <= before.len(),
                self.inbound@ == old(self).inbound@,
                self.capacity == old(self).capacity,
                self.mtu == old(self).mtu,
                self.inbound_dropped == old(self).inbound_dropped,
                self.outbound_dropped == old(self).outbound_dropped,
                frames@ =~= before.take(frames@.len() as int),
                self.outbound@ =~= before.skip(frames@.len() as int),
            decreases self.outbound@.len(),
        {
            let frame = self.outbound.pop_front().unwrap();
            frames.push(frame);
        }
        proof {
            let n = frames@.len() as int;
            assert(frames_of(frames@) =~= frames_of(before).take(n));
            assert(self.outbound() =~= frames_of(before).skip(n));
        }
        frames
    }
}

/// Stripping the ECN flags keeps the length of a frame.
pub proof fn lemma_ecn_stripped_len(frame: Seq<u8>)
    ensures
        ecn_stripped(frame).len() == frame.len(),
{
}

/// A push on a full ring evicts exactly the oldest frame: the others move up
/// one place and the new frame is the newest.
pub proof fn lemma_push_on_full_ring(queue: Seq<Seq<u8>>, capacity: nat, frame: Seq<u8>)
    requires
        capacity > 0,
        queue.len() == capacity,
    ensures
        pushed_evicting(queue, capacity, frame).len() == capacity,
        pushed_evicting(queue, capacity, frame).last() == frame,
        forall|i: int|
            0 <= i < capacity - 1 ==> #[trigger] pushed_evicting(queue, capacity, frame)[i]
                == queue[i + 1],
{
}

} // verus!
