//! Per-peer sequencing layer over an unreliable datagram transport.
//!
//! A `NetChannel` stamps outgoing packets with increasing sequence numbers
//! and the latest sequence number seen from the peer, which acts as a
//! cumulative acknowledgment. It keeps one send timestamp per outstanding
//! packet and derives the round-trip latency when an acknowledgment covers
//! a packet. Nothing is retransmitted: loss shows up only as a gap in
//! sequence numbers.
//!
//! Timestamps are plain `u64` clock readings handed in by the caller, so
//! every latency computation is exact and checkable.

use vstd::arithmetic::div_mod::lemma_fundamental_div_mod;
use vstd::prelude::*;

verus! {

/// Sequence number of a datagram, compared with wraparound-aware ordering.
pub type SequenceNr = u32;

/// What `overflow_aware_compare` returns: plain ordering when the absolute
/// difference is small, reversed ordering when it wraps around.
pub open spec fn spec_compare(a: SequenceNr, b: SequenceNr) -> core::cmp::Ordering {
    let abs_difference = if a >= b { a - b } else { b - a };
    if abs_difference < u32::MAX / 2 {
        if a < b {
            core::cmp::Ordering::Less
        } else if a == b {
            core::cmp::Ordering::Equal
        } else {
            core::cmp::Ordering::Greater
        }
    } else {
        if b < a {
            core::cmp::Ordering::Less
        } else if a == b {
            core::cmp::Ordering::Equal
        } else {
            core::cmp::Ordering::Greater
        }
    }
}

/// Wraparound-aware ordering of sequence numbers: the greater number is the
/// one reachable from the other by advancing less than half the number space.
pub fn overflow_aware_compare(a: SequenceNr, b: SequenceNr) -> (r: core::cmp::Ordering)
    ensures
        r == spec_compare(a, b),
{
    let abs_difference: u32 = if a >= b { a - b } else { b - a };

    if abs_difference < u32::MAX / 2 {
        if a < b {
            core::cmp::Ordering::Less
        } else if a == b {
            core::cmp::Ordering::Equal
        } else {
            core::cmp::Ordering::Greater
        }
    } else {
        if b < a {
            core::cmp::Ordering::Less
        } else if a == b {
            core::cmp::Ordering::Equal
        } else {
            core::cmp::Ordering::Greater
        }
    }
}

/// Wraparound-aware comparison agrees with the unwrapped comparison of the
/// underlying unbounded counters whenever the two counters are within half
/// the number space of each other, including pairs whose 32-bit images
/// straddle the wraparound boundary.
pub proof fn lemma_compare_matches_unwrapped(a_total: int, b_total: int)
    requires
        0 <= a_total,
        0 <= b_total,
        a_total - b_total < 0x7FFF_FFFF,
        b_total - a_total < 0x7FFF_FFFF,
    ensures
        spec_compare(
            (a_total % 0x1_0000_0000) as u32,
            (b_total % 0x1_0000_0000) as u32,
        ) == if a_total < b_total {
            core::cmp::Ordering::Less
        } else if a_total == b_total {
            core::cmp::Ordering::Equal
        } else {
            core::cmp::Ordering::Greater
        },
{
    let m = 0x1_0000_0000int;
    let a = a_total % m;
    let b = b_total % m;
    lemma_fundamental_div_mod(a_total, m);
    lemma_fundamental_div_mod(b_total, m);
    let qa = a_total / m;
    let qb = b_total / m;
    if a_total < b_total {
        let d = b_total - a_total;
        let k = qb - qa;
        assert(b - a == d - m * k);
        assert(m * k > d - m);
        assert(m * k < d + m);
        assert(k >= 0 && k <= 1);
        if k == 0 {
            assert(m * k == 0);
            assert(b - a == d);
        } else {
            assert(m * k == m);
            assert(a - b == m - d);
        }
    } else if a_total > b_total {
        let d = a_total - b_total;
        let k = qa - qb;
        assert(a - b == d - m * k);
        assert(m * k > d - m);
        assert(m * k < d + m);
        assert(k >= 0 && k <= 1);
        if k == 0 {
            assert(m * k == 0);
            assert(a - b == d);
        } else {
            assert(m * k == m);
            assert(b - a == m - d);
        }
    }
}

/// The four little-endian bytes of a 32-bit integer.
pub open spec fn le32_bytes(n: u32) -> Seq<u8> {
    seq![
        (n & 0xff) as u8,
        ((n >> 8) & 0xff) as u8,
        ((n >> 16) & 0xff) as u8,
        ((n >> 24) & 0xff) as u8,
    ]
}

/// The 32-bit integer whose little-endian bytes are `b0 .. b3`.
pub open spec fn le32_value(b0: u8, b1: u8, b2: u8, b3: u8) -> u32 {
    (b0 as u32) | ((b1 as u32) << 8) | ((b2 as u32) << 16) | ((b3 as u32) << 24)
}

/// The eight little-endian bytes of a 64-bit integer.
pub open spec fn le64_bytes(n: u64) -> Seq<u8> {
    seq![
        (n & 0xff) as u8,
        ((n >> 8) & 0xff) as u8,
        ((n >> 16) & 0xff) as u8,
        ((n >> 24) & 0xff) as u8,
        ((n >> 32) & 0xff) as u8,
        ((n >> 40) & 0xff) as u8,
        ((n >> 48) & 0xff) as u8,
        ((n >> 56) & 0xff) as u8,
    ]
}

/// The 64-bit integer whose little-endian bytes are `b0 .. b7`.
pub open spec fn le64_value(b0: u8, b1: u8, b2: u8, b3: u8, b4: u8, b5: u8, b6: u8, b7: u8) -> u64 {
    (b0 as u64) | ((b1 as u64) << 8) | ((b2 as u64) << 16) | ((b3 as u64) << 24) | ((b4 as u64)
        << 32) | ((b5 as u64) << 40) | ((b6 as u64) << 48) | ((b7 as u64) << 56)
}

/// Reassembling the little-endian bytes of a 32-bit integer gives it back.
pub proof fn lemma_le32_round_trip(n: u32)
    ensures
        le32_value(
            (n & 0xff) as u8,
            ((n >> 8) & 0xff) as u8,
            ((n >> 16) & 0xff) as u8,
            ((n >> 24) & 0xff) as u8,
        ) == n,
{
    assert(((n & 0xff) as u8 as u32) | (((n >> 8) & 0xff) as u8 as u32) << 8 | (((n >> 16)
        & 0xff) as u8 as u32) << 16 | (((n >> 24) & 0xff) as u8 as u32) << 24 == n) by (bit_vector);
}

/// Reassembling the little-endian bytes of a 64-bit integer gives it back.
pub proof fn lemma_le64_round_trip(n: u64)
    ensures
        le64_value(
            (n & 0xff) as u8,
            ((n >> 8) & 0xff) as u8,
            ((n >> 16) & 0xff) as u8,
            ((n >> 24) & 0xff) as u8,
            ((n >> 32) & 0xff) as u8,
            ((n >> 40) & 0xff) as u8,
            ((n >> 48) & 0xff) as u8,
            ((n >> 56) & 0xff) as u8,
        ) == n,
{
    assert(((n & 0xff) as u8 as u64) | (((n >> 8) & 0xff) as u8 as u64) << 8 | (((n >> 16)
        & 0xff) as u8 as u64) << 16 | (((n >> 24) & 0xff) as u8 as u64) << 24 | (((n >> 32)
        & 0xff) as u8 as u64) << 32 | (((n >> 40) & 0xff) as u8 as u64) << 40 | (((n >> 48)
        & 0xff) as u8 as u64) << 48 | (((n >> 56) & 0xff) as u8 as u64) << 56 == n) by (bit_vector);
}

/// The wire form of a datagram: sequence number, acknowledged peer sequence
/// number, payload length, then the payload bytes.
pub open spec fn encode_datagram(seq: u32, ack: u32, payload: Seq<u8>) -> Seq<u8> {
    le32_bytes(seq) + le32_bytes(ack) + le64_bytes(payload.len() as u64) + payload
}

/// The sequence number a datagram's header declares.
pub open spec fn header_seq_nr(d: Seq<u8>) -> u32
    recommends
        d.len() >= 16,
{
    le32_value(d[0], d[1], d[2], d[3])
}

/// The acknowledged sequence number a datagram's header declares.
pub open spec fn header_ack_nr(d: Seq<u8>) -> u32
    recommends
        d.len() >= 16,
{
    le32_value(d[4], d[5], d[6], d[7])
}

/// The payload length a datagram's header declares.
pub open spec fn header_payload_len(d: Seq<u8>) -> u64
    recommends
        d.len() >= 16,
{
    le64_value(d[8], d[9], d[10], d[11], d[12], d[13], d[14], d[15])
}

/// A datagram is well formed when it holds a full header and the payload
/// length it declares does not exceed the remaining bytes.
pub open spec fn datagram_well_formed(d: Seq<u8>) -> bool {
    d.len() >= 16 && header_payload_len(d) + 16 <= d.len()
}

/// The payload bytes of a well-formed datagram.
pub open spec fn datagram_payload(d: Seq<u8>) -> Seq<u8>
    recommends
        datagram_well_formed(d),
{
    d.subrange(16, 16 + header_payload_len(d) as int)
}

/// Encoding a payload and then parsing the datagram gives back exactly the
/// sequence number, the acknowledgment and the payload that went in.
pub proof fn lemma_datagram_round_trip(seq: u32, ack: u32, payload: Seq<u8>)
    requires
        payload.len() <= u64::MAX,
    ensures
        encode_datagram(seq, ack, payload).len() == 16 + payload.len(),
        datagram_well_formed(encode_datagram(seq, ack, payload)),
        header_seq_nr(encode_datagram(seq, ack, payload)) == seq,
        header_ack_nr(encode_datagram(seq, ack, payload)) == ack,
        datagram_payload(encode_datagram(seq, ack, payload)) == payload,
{
    let d = encode_datagram(seq, ack, payload);
    lemma_le32_round_trip(seq);
    lemma_le32_round_trip(ack);
    lemma_le64_round_trip(payload.len() as u64);
    assert(d.subrange(16, 16 + header_payload_len(d) as int) =~= payload);
}

/// Channel round trip, for a genuine pair: the datagram one peer frames is
/// well formed, parses back to exactly the payload and counters that went
/// in, and its acknowledgment can never outrun the other peer's outstanding
/// sends — in a genuine pair every sequence number the sender has seen was
/// sent by the receiver, so the forward distance from the receiver's acked
/// counter to it is covered by the receiver's timestamp queue. With the
/// receive contract, such a datagram is always accepted and yields the
/// original payload bytes unchanged.
pub proof fn lemma_channel_pair_round_trip(
    sender_seq: u32,
    sender_incoming: u32,
    payload: Seq<u8>,
    receiver_acked: u32,
    receiver_outstanding: int,
)
    requires
        payload.len() <= u64::MAX,
        wrap_dist(receiver_acked, sender_incoming) <= receiver_outstanding,
    ensures
        datagram_well_formed(encode_datagram(sender_seq, sender_incoming, payload)),
        header_seq_nr(encode_datagram(sender_seq, sender_incoming, payload)) == sender_seq,
        header_ack_nr(encode_datagram(sender_seq, sender_incoming, payload)) == sender_incoming,
        datagram_payload(encode_datagram(sender_seq, sender_incoming, payload)) == payload,
        !(spec_compare(sender_incoming, receiver_acked) == core::cmp::Ordering::Greater
            && wrap_dist(receiver_acked, sender_incoming) > receiver_outstanding),
{
    lemma_datagram_round_trip(sender_seq, sender_incoming, payload);
}

/// A cumulative acknowledgment of everything outstanding reads as a forward
/// advance over the whole timestamp queue, as long as fewer than half the
/// sequence space is outstanding. With the receive contract, a datagram
/// acknowledging the newest sent packet then drains the queue empty and
/// takes the latency from `now` minus the newest recorded send time.
pub proof fn lemma_full_ack_drains_queue(acked: u32, outgoing: u32, times: Seq<u64>)
    requires
        times.len() == wrap_dist(acked, outgoing),
        0 < times.len(),
        times.len() < 0x7FFF_FFFF,
    ensures
        spec_compare(outgoing, acked) == core::cmp::Ordering::Greater,
        wrap_dist(acked, outgoing) == times.len(),
        times.skip(times.len() as int) == Seq::<u64>::empty(),
{
    assert(times.skip(times.len() as int) =~= Seq::<u64>::empty());
}

/// Failure of `recv_unreliable`.
#[derive(Debug, PartialEq, Eq, Structural, Clone, Copy)]
pub enum ChannelError {
    /// The datagram is shorter than its header says it should be.
    MalformedPacket,
    /// The peer acknowledged more packets than are outstanding: a protocol
    /// violation, fatal to the connection.
    AckUnderflow,
}

/// The number of forward steps from sequence number `from` to `to`,
/// wrapping around the 32-bit space.
pub open spec fn wrap_dist(from: u32, to: u32) -> int {
    if to >= from {
        to - from
    } else {
        0x1_0000_0000 - from + to
    }
}

/// One logical stream to a single peer.
pub struct NetChannel {
    last_outgoing: SequenceNr,
    last_acked_outgoing: SequenceNr,
    last_incoming: SequenceNr,
    send_times: Vec<u64>,
    latency: u64,
}

impl NetChannel {
    /// Sequence number of the most recently sent packet.
    pub closed spec fn spec_outgoing(self) -> SequenceNr {
        self.last_outgoing
    }

    /// Most recent own sequence number the peer has acknowledged.
    pub closed spec fn spec_acked(self) -> SequenceNr {
        self.last_acked_outgoing
    }

    /// Most recent sequence number seen from the peer.
    pub closed spec fn spec_incoming(self) -> SequenceNr {
        self.last_incoming
    }

    /// Send timestamps of the outstanding packets, oldest first: exactly one
    /// per sent-but-unacknowledged packet.
    pub closed spec fn spec_send_times(self) -> Seq<u64> {
        self.send_times@
    }

    /// The most recent round-trip latency sample.
    pub closed spec fn spec_latency(self) -> u64 {
        self.latency
    }

    /// The channel invariant: one send timestamp per outstanding packet,
    /// recorded with a clock that never runs backwards.
    pub open spec fn wf(self) -> bool {
        &&& self.spec_send_times().len() == wrap_dist(self.spec_acked(), self.spec_outgoing())
        &&& forall|i: int, j: int|
            0 <= i <= j < self.spec_send_times().len()
                ==> self.spec_send_times()[i] <= self.spec_send_times()[j]
    }

    /// A fresh channel: no packet sent, seen or acknowledged.
    pub fn new() -> (r: NetChannel)
        ensures
            r.wf(),
            r.spec_outgoing() == 0u32,
            r.spec_acked() == 0u32,
            r.spec_incoming() == 0u32,
            r.spec_send_times() == Seq::<u64>::empty(),
            r.spec_latency() == 0u64,
    {
        NetChannel {
            last_outgoing: 0,
            last_acked_outgoing: 0,
            last_incoming: 0,
            send_times: Vec::new(),
            latency: 0,
        }
    }

    /// Sequence number of the most recently sent packet.
    pub fn get_outgoing_sequencenr(&self) -> (r: SequenceNr)
        ensures
            r == self.spec_outgoing(),
    {
        self.last_outgoing
    }

    /// Most recent own sequence number the peer has acknowledged.
    pub fn get_acked_outgoing_sequencenr(&self) -> (r: SequenceNr)
        ensures
            r == self.spec_acked(),
    {
        self.last_acked_outgoing
    }

    /// Most recent sequence number seen from the peer.
    pub fn get_incoming_sequencenr(&self) -> (r: SequenceNr)
        ensures
            r == self.spec_incoming(),
    {
        self.last_incoming
    }

    /// The most recent round-trip latency sample, in the caller's clock units.
    pub fn get_latency(&self) -> (r: u64)
        ensures
            r == self.spec_latency(),
    {
        self.latency
    }

    /// Frame `data` for the wire: advance the send counter, remember `now`
    /// as the packet's send time, and prefix the payload with the header.
    pub fn send_unreliable(&mut self, data: &[u8], now: u64) -> (r: Vec<u8>)
        requires
            old(self).wf(),
            old(self).spec_send_times().len() < 0xFFFF_FFFF,
            forall|i: int|
                0 <= i < old(self).spec_send_times().len() ==> old(self).spec_send_times()[i]
                    <= now,
            data@.len() + 16 <= usize::MAX,
        ensures
            final(self).wf(),
            final(self).spec_outgoing() == wrap_inc(old(self).spec_outgoing()),
            final(self).spec_acked() == old(self).spec_acked(),
            final(self).spec_incoming() == old(self).spec_incoming(),
            final(self).spec_send_times() == old(self).spec_send_times().push(now),
            final(self).spec_latency() == old(self).spec_latency(),
            r@ == encode_datagram(
                wrap_inc(old(self).spec_outgoing()),
                old(self).spec_incoming(),
                data@,
            ),
            r@.len() == 16 + data@.len(),
    {
        self.last_outgoing = if self.last_outgoing == u32::MAX {
            0
        } else {
            self.last_outgoing + 1
        };
        self.send_times.push(now);

        let mut buf: Vec<u8> = Vec::new();
        write_le_u32(&mut buf, self.last_outgoing);
        write_le_u32(&mut buf, self.last_incoming);
        write_le_u64(&mut buf, data.len() as u64);
        let mut i: usize = 0;
        while i < data.len()
            invariant
                i <= data@.len(),
                buf@ == le32_bytes(self.last_outgoing) + le32_bytes(self.last_incoming)
                    + le64_bytes(data@.len() as u64) + data@.take(i as int),
            decreases data@.len() - i,
        {
            buf.push(data[i]);
            proof {
                assert(data@.take(i + 1 as int) =~= data@.take(i as int).push(data@[i as int]));
            }
            i = i + 1;
        }
        proof {
            assert(data@.take(data@.len() as int) =~= data@);
            assert(wrap_dist(self.spec_acked(), self.spec_outgoing()) == wrap_dist(
                old(self).spec_acked(),
                old(self).spec_outgoing(),
            ) + 1);
        }
        buf
    }

    /// Parse an incoming datagram: yield its payload, remember its sequence
    /// number as the latest seen (last writer wins), and consume one send
    /// timestamp per newly acknowledged own packet, taking the latency from
    /// the newest of them. An acknowledgment that does not advance the acked
    /// counter (a reordered packet) moves nothing; one that advances it past
    /// the outstanding sends is a protocol violation.
    pub fn recv_unreliable(&mut self, datagram: &[u8], now: u64) -> (r: Result<
        Vec<u8>,
        ChannelError,
    >)
        requires
            old(self).wf(),
            forall|i: int|
                0 <= i < old(self).spec_send_times().len() ==> old(self).spec_send_times()[i]
                    <= now,
        ensures
            final(self).wf(),
            final(self).spec_outgoing() == old(self).spec_outgoing(),
            match r {
                Ok(payload) => {
                    let ack = header_ack_nr(datagram@);
                    let adv = wrap_dist(old(self).spec_acked(), ack);
                    &&& datagram_well_formed(datagram@)
                    &&& payload@ == datagram_payload(datagram@)
                    &&& final(self).spec_incoming() == header_seq_nr(datagram@)
                    &&& if spec_compare(ack, old(self).spec_acked())
                        == core::cmp::Ordering::Greater {
                        &&& 0 < adv <= old(self).spec_send_times().len()
                        &&& final(self).spec_acked() == ack
                        &&& final(self).spec_send_times() == old(self).spec_send_times().skip(adv)
                        &&& final(self).spec_latency() == now - old(self).spec_send_times()[adv
                            - 1]
                    } else {
                        &&& final(self).spec_acked() == old(self).spec_acked()
                        &&& final(self).spec_send_times() == old(self).spec_send_times()
                        &&& final(self).spec_latency() == old(self).spec_latency()
                    }
                },
                Err(ChannelError::MalformedPacket) => {
                    &&& !datagram_well_formed(datagram@)
                    &&& *final(self) == *old(self)
                },
                Err(ChannelError::AckUnderflow) => {
                    let ack = header_ack_nr(datagram@);
                    &&& datagram_well_formed(datagram@)
                    &&& spec_compare(ack, old(self).spec_acked()) == core::cmp::Ordering::Greater
                    &&& wrap_dist(old(self).spec_acked(), ack) > old(
                        self,
                    ).spec_send_times().len()
                    &&& *final(self) == *old(self)
                },
            },
    {
        if datagram.len() < 16 {
            return Err(ChannelError::MalformedPacket);
        }
        let sequence_number = read_le_u32(datagram, 0);
        let acked_sequence_number = read_le_u32(datagram, 4);
        let payload_len = read_le_u64(datagram, 8);

        if payload_len > (datagram.len() - 16) as u64 {
            return Err(ChannelError::MalformedPacket);
        }
        let payload_len_usize = payload_len as usize;

        let is_advance = match overflow_aware_compare(
            acked_sequence_number,
            self.last_acked_outgoing,
        ) {
            core::cmp::Ordering::Greater => true,
            _ => false,
        };
        if is_advance {
            let advance: u32 = if acked_sequence_number >= self.last_acked_outgoing {
                acked_sequence_number - self.last_acked_outgoing
            } else {
                (u32::MAX - self.last_acked_outgoing) + acked_sequence_number + 1
            };
            if (advance as usize) > self.send_times.len() {
                return Err(ChannelError::AckUnderflow);
            }
            let newest_consumed = self.send_times[(advance - 1) as usize];
            let remaining = self.send_times.split_off(advance as usize);
            self.send_times = remaining;
            self.latency = now - newest_consumed;
            proof {
                lemma_wrap_dist_split(
                    old(self).spec_acked(),
                    acked_sequence_number,
                    old(self).spec_outgoing(),
                );
            }
            self.last_acked_outgoing = acked_sequence_number;
        }
        self.last_incoming = sequence_number;

        let mut payload: Vec<u8> = Vec::new();
        let mut i: usize = 0;
        while i < payload_len_usize
            invariant
                i <= payload_len_usize,
                payload_len_usize + 16 <= datagram@.len(),
                datagram@.len() <= usize::MAX,
                payload@ == datagram@.subrange(16, 16 + i as int),
            decreases payload_len_usize - i,
        {
            payload.push(datagram[16 + i]);
            proof {
                assert(datagram@.subrange(16, 16 + (i + 1) as int) =~= datagram@.subrange(
                    16,
                    16 + i as int,
                ).push(datagram@[16 + i as int]));
            }
            i = i + 1;
        }
        Ok(payload)
    }
}

/// The successor of a sequence number, wrapping around the 32-bit space.
pub open spec fn wrap_inc(n: u32) -> u32 {
    if n == u32::MAX {
        0u32
    } else {
        (n + 1) as u32
    }
}

/// Forward distances compose: stepping from `a` to `b` and on to `c` covers
/// the distance from `a` to `c`, as long as `b` lies between.
proof fn lemma_wrap_dist_split(a: u32, b: u32, c: u32)
    requires
        wrap_dist(a, b) <= wrap_dist(a, c),
    ensures
        wrap_dist(b, c) == wrap_dist(a, c) - wrap_dist(a, b),
{
}

/// Append the four little-endian bytes of `n` to `buf`.
fn write_le_u32(buf: &mut Vec<u8>, n: u32)
    requires
        old(buf)@.len() + 4 <= usize::MAX,
    ensures
        final(buf)@ == old(buf)@ + le32_bytes(n),
{
    buf.push((n & 0xff) as u8);
    buf.push(((n >> 8) & 0xff) as u8);
    buf.push(((n >> 16) & 0xff) as u8);
    buf.push(((n >> 24) & 0xff) as u8);
    proof {
        assert(buf@ =~= old(buf)@ + le32_bytes(n));
    }
}

/// Append the eight little-endian bytes of `n` to `buf`.
fn write_le_u64(buf: &mut Vec<u8>, n: u64)
    requires
        old(buf)@.len() + 8 <= usize::MAX,
    ensures
        final(buf)@ == old(buf)@ + le64_bytes(n),
{
    buf.push((n & 0xff) as u8);
    buf.push(((n >> 8) & 0xff) as u8);
    buf.push(((n >> 16) & 0xff) as u8);
    buf.push(((n >> 24) & 0xff) as u8);
    buf.push(((n >> 32) & 0xff) as u8);
    buf.push(((n >> 40) & 0xff) as u8);
    buf.push(((n >> 48) & 0xff) as u8);
    buf.push(((n >> 56) & 0xff) as u8);
    proof {
        assert(buf@ =~= old(buf)@ + le64_bytes(n));
    }
}

/// Read the 32-bit little-endian integer at `offset`.
fn read_le_u32(data: &[u8], offset: usize) -> (r: u32)
    requires
        offset + 4 <= data@.len(),
    ensures
        r == le32_value(
            data@[offset as int],
            data@[offset + 1],
            data@[offset + 2],
            data@[offset + 3],
        ),
{
    (data[offset] as u32) | ((data[offset + 1] as u32) << 8) | ((data[offset + 2] as u32) << 16) | (
    (data[offset + 3] as u32) << 24)
}

/// Read the 64-bit little-endian integer at `offset`.
fn read_le_u64(data: &[u8], offset: usize) -> (r: u64)
    requires
        offset + 8 <= data@.len(),
    ensures
        r == le64_value(
            data@[offset as int],
            data@[offset + 1],
            data@[offset + 2],
            data@[offset + 3],
            data@[offset + 4],
            data@[offset + 5],
            data@[offset + 6],
            data@[offset + 7],
        ),
{
    (data[offset] as u64) | ((data[offset + 1] as u64) << 8) | ((data[offset + 2] as u64) << 16) | (
    (data[offset + 3] as u64) << 24) | ((data[offset + 4] as u64) << 32) | ((data[offset
        + 5] as u64) << 40) | ((data[offset + 6] as u64) << 48) | ((data[offset + 7] as u64) << 56)
}

} // verus!
