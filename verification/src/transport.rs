//! Packet framing for the dongle link.
//!
//! An APDU payload is prefixed with its 16-bit length and sliced into
//! fixed-size packets, each carrying a channel, a tag byte and a sequence
//! number.  Reassembly checks all three on every packet and fails with a
//! framing error on the first mismatch: framing errors are structural, so
//! nothing is buffered across a failed receive and nothing is retried.

use vstd::prelude::*;
use crate::constants::{PACKET_SIZE, TAG_APDU};
use crate::error::Error;
use crate::util::{be16, be16_val, read_be16};

verus! {

/// Bytes of payload carried by the first packet of an exchange (the header
/// and the length prefix take the rest).
pub const FIRST_CHUNK: usize = 57;
/// Bytes of payload carried by every later packet.
pub const NEXT_CHUNK: usize = 59;

/// The 16-bit channel a packet claims to belong to.
pub open spec fn packet_channel(p: Seq<u8>) -> u16 {
    be16_val(p[0], p[1])
}

/// The tag byte of a packet.
pub open spec fn packet_tag(p: Seq<u8>) -> u8 {
    p[2]
}

/// The sequence number a packet claims.
pub open spec fn packet_sequence(p: Seq<u8>) -> u16 {
    be16_val(p[3], p[4])
}

/// The total response length declared by a first packet.
pub open spec fn declared_len(p: Seq<u8>) -> u16 {
    be16_val(p[5], p[6])
}

/// Whether a packet's header claims the given channel and sequence number.
pub open spec fn header_ok(channel: u16, seqno: u16, p: Seq<u8>) -> bool {
    &&& p.len() == PACKET_SIZE
    &&& packet_channel(p) == channel
    &&& packet_tag(p) == TAG_APDU
    &&& packet_sequence(p) == seqno
}

/// The payload bytes a packet carries, given its position in the stream.
pub open spec fn chunk_at(seqno: u16, p: Seq<u8>) -> Seq<u8> {
    if seqno == 0 {
        p.subrange(7, PACKET_SIZE as int)
    } else {
        p.subrange(5, PACKET_SIZE as int)
    }
}

/// `s` cut down to at most `t` bytes.
pub open spec fn clip_to(s: Seq<u8>, t: int) -> Seq<u8> {
    if s.len() <= t {
        s
    } else {
        s.subrange(0, t)
    }
}

/// The abstract state of a response reassembly.
pub struct AsmState {
    /// The channel every packet must claim.
    pub channel: u16,
    /// The sequence number the next packet must claim.
    pub next_sequence: u16,
    /// The declared total length; meaningful once `next_sequence > 0`.
    pub total: u16,
    /// The payload bytes assembled so far.
    pub data: Seq<u8>,
}

impl AsmState {
    /// The state before any packet has arrived.
    pub open spec fn init(channel: u16) -> AsmState {
        AsmState { channel, next_sequence: 0, total: 0, data: Seq::empty() }
    }

    /// Internal consistency: the assembled bytes always agree with how many
    /// packets were accepted, and never exceed the declared total.
    pub open spec fn wf(self) -> bool {
        if self.next_sequence == 0 {
            self.data.len() == 0
        } else {
            self.data.len() == vstd::math::min(
                self.total as int,
                FIRST_CHUNK + NEXT_CHUNK * (self.next_sequence - 1),
            )
        }
    }

    /// Whether the declared total has been fully assembled.
    pub open spec fn done(self) -> bool {
        self.next_sequence > 0 && self.data.len() == self.total
    }

    /// What accepting one packet does: the first framing mismatch
    /// (channel, then tag, then sequence) rejects the packet and leaves the
    /// state unchanged; otherwise the packet's payload is appended, clipped
    /// to the declared total.
    pub open spec fn push(self, p: Seq<u8>) -> (AsmState, Result<bool, Error>) {
        if packet_channel(p) != self.channel {
            (self, Err(Error::ApduWrongChannel { expected: self.channel, found: packet_channel(p) }))
        } else if packet_tag(p) != TAG_APDU {
            (self, Err(Error::ApduWrongTag { expected: TAG_APDU, found: packet_tag(p) }))
        } else if packet_sequence(p) != self.next_sequence {
            (self, Err(Error::ApduWrongSequence {
                expected: self.next_sequence,
                found: packet_sequence(p),
            }))
        } else {
            let total = if self.next_sequence == 0 { declared_len(p) } else { self.total };
            let data = clip_to(self.data + chunk_at(self.next_sequence, p), total as int);
            let st = AsmState {
                channel: self.channel,
                next_sequence: (self.next_sequence + 1) as u16,
                total,
                data,
            };
            (st, Ok(st.done()))
        }
    }

    /// Feeding a packet stream to the assembler until the declared total is
    /// complete; packets beyond completion are never looked at.
    pub open spec fn run(self, packets: Seq<Seq<u8>>) -> Result<Seq<u8>, Error>
        decreases packets.len(),
    {
        if self.done() {
            Ok(self.data)
        } else if packets.len() == 0 {
            Err(Error::UnexpectedEof)
        } else {
            let (st, r) = self.push(packets[0]);
            match r {
                Err(e) => Err(e),
                Ok(_) => st.run(packets.skip(1)),
            }
        }
    }
}

/// Reassembles one response from fixed-size packets, checking channel, tag
/// and sequence number on each.
pub struct PacketAssembler {
    channel: u16,
    next_sequence: u16,
    total: u16,
    data: Vec<u8>,
}

impl View for PacketAssembler {
    type V = AsmState;

    closed spec fn view(&self) -> AsmState {
        AsmState {
            channel: self.channel,
            next_sequence: self.next_sequence,
            total: self.total,
            data: self.data@,
        }
    }
}

impl PacketAssembler {
    /// Starts a reassembly that will accept packets on `channel` only.
    pub fn new(channel: u16) -> (r: PacketAssembler)
        ensures
            r@ == AsmState::init(channel),
    {
        let r = PacketAssembler { channel, next_sequence: 0, total: 0, data: Vec::new() };
        proof {
            assert(r@ =~= AsmState::init(channel));
        }
        r
    }

    /// Whether the declared total has been fully assembled.
    pub fn is_done(&self) -> (r: bool)
        ensures
            r == self@.done(),
    {
        self.next_sequence > 0 && self.data.len() == self.total as usize
    }

    /// Accepts one packet.  Fails with a framing error, and assembles
    /// nothing, if the packet claims a foreign channel, a wrong tag or an
    /// out-of-order sequence number.
    pub fn push_packet(&mut self, packet: &Vec<u8>) -> (r: Result<bool, Error>)
        requires
            old(self)@.wf(),
            !old(self)@.done(),
            packet@.len() == PACKET_SIZE,
        ensures
            (final(self)@, r) == old(self)@.push(packet@),
            final(self)@.wf(),
            final(self)@.channel == old(self)@.channel,
    {
        let ghost st0 = self@;
        let found_channel = read_be16(packet[0], packet[1]);
        if found_channel != self.channel {
            return Err(Error::ApduWrongChannel { expected: self.channel, found: found_channel });
        }
        if packet[2] != TAG_APDU {
            return Err(Error::ApduWrongTag { expected: TAG_APDU, found: packet[2] });
        }
        let found_seq = read_be16(packet[3], packet[4]);
        if found_seq != self.next_sequence {
            return Err(Error::ApduWrongSequence {
                expected: self.next_sequence,
                found: found_seq,
            });
        }
        let chunk_start: usize = if self.next_sequence == 0 {
            self.total = read_be16(packet[5], packet[6]);
            7
        } else {
            5
        };
        proof {
            if st0.next_sequence > 0 {
                assert(st0.data.len() < st0.total);
                assert(FIRST_CHUNK + NEXT_CHUNK * (st0.next_sequence - 1) < 0x10000)
                    by (nonlinear_arith)
                    requires
                        st0.data.len() == vstd::math::min(
                            st0.total as int,
                            FIRST_CHUNK + NEXT_CHUNK * (st0.next_sequence - 1),
                        ),
                        st0.data.len() < st0.total,
                        st0.total < 0x10000,
                ;
                assert(st0.next_sequence < 0xffff) by (nonlinear_arith)
                    requires
                        st0.next_sequence > 0,
                        FIRST_CHUNK + NEXT_CHUNK * (st0.next_sequence - 1) < 0x10000,
                ;
            }
        }
        let ghost total_now = self.total;
        let ghost full_chunk = chunk_at(st0.next_sequence, packet@);
        let mut i: usize = chunk_start;
        while i < PACKET_SIZE && self.data.len() < self.total as usize
            invariant
                chunk_start <= i <= PACKET_SIZE,
                packet@.len() == PACKET_SIZE,
                chunk_start == if st0.next_sequence == 0 { 7int } else { 5int },
                full_chunk == packet@.subrange(chunk_start as int, PACKET_SIZE as int),
                self.channel == st0.channel,
                self.next_sequence == st0.next_sequence,
                self.total == total_now,
                self.data@ == clip_to(st0.data + full_chunk.take(i - chunk_start), total_now as int),
                st0.data.len() <= total_now,
            decreases PACKET_SIZE - i,
        {
            let ghost data_pre = self.data@;
            let ghost k = i - chunk_start;
            self.data.push(packet[i]);
            i += 1;
            proof {
                assert(full_chunk.take(k + 1) =~= full_chunk.take(k).push(packet@[chunk_start + k]));
                assert(data_pre.len() < total_now as int);
                assert(data_pre == st0.data + full_chunk.take(k));
                assert(self.data@ =~= clip_to(st0.data + full_chunk.take(k + 1), total_now as int));
            }
        }
        self.next_sequence = self.next_sequence + 1;
        proof {
            let t = total_now as int;
            let done_data = clip_to(st0.data + full_chunk, t);
            if i == PACKET_SIZE {
                assert(full_chunk.take(i - chunk_start) =~= full_chunk);
            } else {
                // stopped because the declared total is reached
                assert(self.data@.len() == t);
                assert(self.data@ =~= done_data);
            }
            assert(self.data@ == done_data);
            assert((st0.data + full_chunk).len() == st0.data.len() + (PACKET_SIZE - chunk_start));
            assert(st0.next_sequence == 0 ==> st0.data.len() == 0);
            assert(self@ == st0.push(packet@).0);
            assert(self@.wf()) by (nonlinear_arith)
                requires
                    self@.next_sequence == st0.next_sequence + 1,
                    self@.total == total_now,
                    self@.data.len() == vstd::math::min(
                        total_now as int,
                        st0.data.len() + (PACKET_SIZE - chunk_start),
                    ),
                    st0.next_sequence == 0 ==> st0.data.len() == 0 && chunk_start == 7,
                    st0.next_sequence > 0 ==> chunk_start == 5 && st0.data.len() == vstd::math::min(
                        total_now as int,
                        FIRST_CHUNK + NEXT_CHUNK * (st0.next_sequence - 1),
                    ),
                    st0.data.len() < total_now || st0.next_sequence == 0,
            ;
        }
        Ok(self.next_sequence > 0 && self.data.len() == self.total as usize)
    }

    /// Hands out the assembled response.
    pub fn finish(self) -> (r: Vec<u8>)
        requires
            self@.done(),
        ensures
            r@ == self@.data,
    {
        self.data
    }
}

/// Pushing one acceptable packet and then running equals running the whole
/// stream: the run can be peeled one packet at a time.
pub proof fn lemma_run_prepend(st: AsmState, p: Seq<u8>, rest: Seq<Seq<u8>>)
    requires
        !st.done(),
        st.push(p).1 is Ok,
    ensures
        st.run(seq![p] + rest) == st.push(p).0.run(rest),
{
    let packets = seq![p] + rest;
    assert(packets[0] == p);
    assert(packets.skip(1) =~= rest);
}

/// The state after feeding the first `k` packets of a stream, each
/// accepted in turn.
pub open spec fn state_after(st: AsmState, packets: Seq<Seq<u8>>, k: int) -> AsmState
    decreases k,
{
    if k <= 0 {
        st
    } else {
        state_after(st, packets, k - 1).push(packets[k - 1]).0
    }
}

/// After `k` correctly framed packets that do not yet satisfy the declared
/// total, the assembler is at sequence number `k`, still incomplete, and
/// the remaining run decides the whole receive.
pub proof fn lemma_good_prefix(channel: u16, packets: Seq<Seq<u8>>, k: int)
    requires
        0 <= k <= packets.len(),
        forall|j: int| 0 <= j < k ==> header_ok(channel, j as u16, #[trigger] packets[j]),
        k > 0 ==> FIRST_CHUNK + NEXT_CHUNK * (k - 1) < declared_len(packets[0]),
    ensures
        ({
            let st = state_after(AsmState::init(channel), packets, k);
            &&& st.channel == channel
            &&& st.next_sequence == k
            &&& k > 0 ==> st.total == declared_len(packets[0])
            &&& st.wf()
            &&& !st.done()
            &&& AsmState::init(channel).run(packets) == st.run(packets.skip(k))
        }),
    decreases k,
{
    let init = AsmState::init(channel);
    if k == 0 {
        assert(packets.skip(0) =~= packets);
    } else {
        assert(k > 1 ==> FIRST_CHUNK + NEXT_CHUNK * (k - 2) < declared_len(packets[0]))
            by (nonlinear_arith)
            requires
                FIRST_CHUNK + NEXT_CHUNK * (k - 1) < declared_len(packets[0]),
                k > 0,
        ;
        lemma_good_prefix(channel, packets, k - 1);
        let st = state_after(init, packets, k - 1);
        let p = packets[k - 1];
        assert(st.next_sequence < 0xffff) by (nonlinear_arith)
            requires
                st.next_sequence == k - 1,
                k - 1 > 0 ==> FIRST_CHUNK + NEXT_CHUNK * (k - 2) < declared_len(packets[0]),
                declared_len(packets[0]) < 0x10000,
        ;
        let (st2, r) = st.push(p);
        assert(r is Ok);
        assert(st2.next_sequence == k);
        let t = st2.total as int;
        assert(k == 1 ==> t == declared_len(packets[0]));
        assert(k > 1 ==> t == st.total as int && t == declared_len(packets[0]));
        let chunk_len: int = if k == 1 { FIRST_CHUNK as int } else { NEXT_CHUNK as int };
        assert(chunk_at(st.next_sequence, p).len() == chunk_len);
        assert(st.data.len() == if k == 1 { 0int } else {
            vstd::math::min(t, FIRST_CHUNK + NEXT_CHUNK * (k - 2))
        });
        assert(st2.data.len() == vstd::math::min(t, st.data.len() + chunk_len));
        assert(st2.data.len() == vstd::math::min(t, FIRST_CHUNK + NEXT_CHUNK * (k - 1)))
            by (nonlinear_arith)
            requires
                st2.data.len() == vstd::math::min(t, st.data.len() + chunk_len),
                st.data.len() == if k == 1 { 0int } else {
                    vstd::math::min(t, FIRST_CHUNK + NEXT_CHUNK * (k - 2))
                },
                chunk_len == if k == 1 { FIRST_CHUNK as int } else { NEXT_CHUNK as int },
                k > 0,
        ;
        assert(st2.wf());
        assert(!st2.done());
        assert(packets.skip(k - 1)[0] == p);
        assert(packets.skip(k - 1).skip(1) =~= packets.skip(k));
        assert(st.run(packets.skip(k - 1)) == st2.run(packets.skip(k)));
    }
}

/// A receive over a packet stream whose first offending packet claims a
/// foreign channel, a wrong tag or an out-of-order sequence number fails
/// with exactly that framing error, and returns no assembled bytes.
pub proof fn lemma_receive_rejects_framing(channel: u16, packets: Seq<Seq<u8>>, i: int)
    requires
        0 <= i < packets.len(),
        forall|j: int| 0 <= j < i ==> header_ok(channel, j as u16, #[trigger] packets[j]),
        i > 0 ==> FIRST_CHUNK + NEXT_CHUNK * (i - 1) < declared_len(packets[0]),
        packet_channel(packets[i]) != channel || packet_tag(packets[i]) != TAG_APDU
            || packet_sequence(packets[i]) != i,
    ensures
        AsmState::init(channel).run(packets) matches Err(e) && (e matches Error::ApduWrongChannel {
            ..
        } || e matches Error::ApduWrongTag { .. } || e matches Error::ApduWrongSequence { .. }),
{
    lemma_good_prefix(channel, packets, i);
    let st = state_after(AsmState::init(channel), packets, i);
    let p = packets[i];
    assert(packets.skip(i)[0] == p);
    assert(st.push(p).1 is Err);
}

/// Reassembles a whole response from a sequence of packets, consuming them
/// in order until the length declared by the first packet is satisfied.
/// The first packet whose channel, tag or sequence number mismatches fails
/// the receive with a framing error and nothing is returned.
pub fn assemble_response(channel: u16, packets: &Vec<Vec<u8>>) -> (r: Result<Vec<u8>, Error>)
    requires
        forall|i: int| 0 <= i < packets@.len() ==> (#[trigger] packets@[i])@.len() == PACKET_SIZE,
    ensures
        match r {
            Ok(d) => AsmState::init(channel).run(packets@.map_values(|p: Vec<u8>| p@)) == Ok::<
                Seq<u8>,
                Error,
            >(d@),
            Err(e) => AsmState::init(channel).run(packets@.map_values(|p: Vec<u8>| p@)) == Err::<
                Seq<u8>,
                Error,
            >(e),
        },
{
    let ghost all = packets@.map_values(|p: Vec<u8>| p@);
    let mut arr = PacketAssembler::new(channel);
    let mut i: usize = 0;
    proof {
        assert(all.skip(0) =~= all);
    }
    while i < packets.len()
        invariant
            0 <= i <= packets@.len(),
            all == packets@.map_values(|p: Vec<u8>| p@),
            forall|j: int| 0 <= j < packets@.len() ==> (#[trigger] packets@[j])@.len()
                == PACKET_SIZE,
            arr@.wf(),
            !arr@.done(),
            AsmState::init(channel).run(all) == arr@.run(all.skip(i as int)),
        decreases packets@.len() - i,
    {
        let ghost pre = arr@;
        let r = arr.push_packet(&packets[i]);
        proof {
            assert(all.skip(i as int)[0] == all[i as int]);
            assert(all.skip(i as int).skip(1) =~= all.skip(i + 1));
        }
        match r {
            Err(e) => {
                return Err(e);
            },
            Ok(done) => {
                if done {
                    proof {
                        assert(arr@.run(all.skip(i + 1)) == Ok::<Seq<u8>, Error>(arr@.data));
                    }
                    return Ok(arr.finish());
                }
            },
        }
        i += 1;
    }
    Err(Error::UnexpectedEof)
}

/// Splits a payload into correctly framed packets for one channel: the
/// payload is prefixed with its 16-bit length, sliced to the fixed packet
/// size, and the final packet is padded with zeros.  Reassembling the
/// stream yields exactly the payload.
pub fn encode_packets(channel: u16, payload: &Vec<u8>) -> (r: Vec<Vec<u8>>)
    requires
        payload@.len() <= 0xffff,
    ensures
        r@.len() >= 1,
        forall|i: int| 0 <= i < r@.len() ==> header_ok(channel, i as u16, (#[trigger] r@[i])@),
        declared_len(r@[0]@) == payload@.len(),
        AsmState::init(channel).run(r@.map_values(|p: Vec<u8>| p@)) == Ok::<Seq<u8>, Error>(
            payload@,
        ),
{
    let len = payload.len();
    let mut packets: Vec<Vec<u8>> = Vec::new();
    let mut pos: usize = 0;
    let mut seqno: u16 = 0;
    let ghost init = AsmState::init(channel);
    let ghost mut st = init;
    while pos < len || seqno == 0
        invariant
            payload@.len() == len,
            len <= 0xffff,
            packets@.len() == seqno,
            pos <= len,
            seqno == 0 ==> pos == 0,
            seqno > 0 ==> pos == vstd::math::min(
                len as int,
                FIRST_CHUNK + NEXT_CHUNK * (seqno - 1),
            ),
            forall|i: int| 0 <= i < packets@.len() ==> header_ok(
                channel,
                i as u16,
                (#[trigger] packets@[i])@,
            ),
            seqno > 0 ==> declared_len(packets@[0]@) == len,
            st.channel == channel,
            st.next_sequence == seqno,
            seqno > 0 ==> st.total == len,
            st.data == payload@.take(pos as int),
            st.wf(),
            forall|rest: Seq<Seq<u8>>| init.run(packets@.map_values(|p: Vec<u8>| p@) + rest)
                == #[trigger] st.run(rest),
        decreases len - pos + if seqno == 0 { 1int } else { 0int },
    {
        proof {
            if seqno > 0 {
                assert(pos < len);
                assert(seqno < 0xffff) by (nonlinear_arith)
                    requires
                        seqno > 0,
                        FIRST_CHUNK + NEXT_CHUNK * (seqno - 1) < len,
                        len <= 0xffff,
                ;
            }
        }
        let chunk_start: usize = if seqno == 0 { 7 } else { 5 };
        let ghost c0 = pos as int;
        let mut pkt: Vec<u8> = Vec::new();
        crate::util::push_be16(&mut pkt, channel);
        pkt.push(TAG_APDU);
        crate::util::push_be16(&mut pkt, seqno);
        if seqno == 0 {
            crate::util::push_be16(&mut pkt, len as u16);
        }
        proof {
            assert(pkt@.len() == chunk_start);
        }
        let ghost header = pkt@;
        proof {
            assert(header[0] == be16(channel)[0] && header[1] == be16(channel)[1]);
            assert(header[2] == TAG_APDU);
            assert(header[3] == be16(seqno)[0] && header[4] == be16(seqno)[1]);
            if seqno == 0 {
                assert(header[5] == be16(len as u16)[0] && header[6] == be16(len as u16)[1]);
            }
        }
        while pkt.len() < PACKET_SIZE
            invariant
                payload@.len() == len,
                chunk_start <= pkt@.len() <= PACKET_SIZE,
                chunk_start == if seqno == 0 { 7int } else { 5int },
                pkt@.take(chunk_start as int) == header,
                c0 <= pos <= len,
                pos == vstd::math::min(len as int, c0 + (pkt@.len() - chunk_start)),
                forall|j: int| chunk_start <= j < pkt@.len() ==> #[trigger] pkt@[j] == (if c0 + (j
                    - chunk_start) < len {
                    payload@[c0 + (j - chunk_start)]
                } else {
                    0u8
                }),
            decreases PACKET_SIZE - pkt@.len(),
        {
            if pos < len {
                pkt.push(payload[pos]);
                pos += 1;
            } else {
                pkt.push(0u8);
            }
        }
        proof {
            crate::util::lemma_be16_roundtrip(channel);
            crate::util::lemma_be16_roundtrip(seqno);
            if seqno == 0 {
                crate::util::lemma_be16_roundtrip(len as u16);
            }
            assert(forall|j: int| 0 <= j < chunk_start ==> #[trigger] pkt@[j] == header[j]);
            assert(pkt@[0] == be16(channel)[0] && pkt@[1] == be16(channel)[1]);
            assert(pkt@[2] == TAG_APDU);
            assert(pkt@[3] == be16(seqno)[0] && pkt@[4] == be16(seqno)[1]);
            assert(header_ok(channel, seqno, pkt@));
            if seqno == 0 {
                assert(pkt@[5] == be16(len as u16)[0] && pkt@[6] == be16(len as u16)[1]);
                assert(declared_len(pkt@) == len);
            }
        }
        let ghost st_pre = st;
        let ghost packets_pre = packets@;
        packets.push(pkt);
        proof {
            let p = packets@[packets_pre.len() as int]@;
            let (st2, rr) = st_pre.push(p);
            assert(rr is Ok);
            // the appended chunk carries exactly the next payload slice,
            // then zero padding that the clip removes
            let t = st2.total as int;
            assert(t == len);
            let chunk = chunk_at(seqno, p);
            assert(chunk.len() == PACKET_SIZE - chunk_start);
            assert(forall|j: int| 0 <= j < chunk.len() ==> #[trigger] chunk[j] == (if c0 + j
                < len {
                payload@[c0 + j]
            } else {
                0u8
            }));
            assert(st2.data =~= payload@.take(pos as int));
            st = st2;
            assert(st.next_sequence == seqno + 1);
            assert(st.wf());
            // peel the new packet off every continuation of the run
            assert forall|rest: Seq<Seq<u8>>|
                init.run(packets@.map_values(|q: Vec<u8>| q@) + rest) == #[trigger] st.run(rest)
            by {
                let mapped_pre = packets_pre.map_values(|q: Vec<u8>| q@);
                let mapped = packets@.map_values(|q: Vec<u8>| q@);
                assert(mapped =~= mapped_pre + seq![p]);
                assert(mapped + rest =~= mapped_pre + (seq![p] + rest));
                lemma_run_prepend(st_pre, p, rest);
            }
        }
        seqno = seqno + 1;
        proof {
            assert(pos == vstd::math::min(len as int, FIRST_CHUNK + NEXT_CHUNK * (seqno - 1)))
                by (nonlinear_arith)
                requires
                    pos == vstd::math::min(len as int, c0 + (PACKET_SIZE - chunk_start)),
                    seqno > 0,
                    chunk_start == if seqno == 1 { 7int } else { 5int },
                    seqno == 1 ==> c0 == 0,
                    seqno > 1 ==> c0 == vstd::math::min(
                        len as int,
                        FIRST_CHUNK + NEXT_CHUNK * (seqno - 2),
                    ),
                    seqno > 1 ==> c0 < len,
            ;
        }
    }
    proof {
        assert(st.done());
        assert(st.data =~= payload@);
        let mapped = packets@.map_values(|p: Vec<u8>| p@);
        assert(mapped + Seq::<Seq<u8>>::empty() =~= mapped);
        assert(init.run(mapped) == st.run(Seq::<Seq<u8>>::empty()));
    }
    packets
}

} // verus!
