//! When data packets go out again, how many may be on their way, and what
//! an idle connection sends.

use vstd::prelude::*;
use crate::crypto_connection::{CryptoConnection, SentPacket, CRYPTO_SEND_PACKET_INTERVAL};
use crate::crypto_data::CryptoData;
use crate::data_channel::{is_data_packet, make_data_packet, spec_data_wire};
use crate::request::{
    generate_request, spec_request_is_complete, spec_request_is_sound, spec_requested,
    REQUEST_TAG,
};
use crate::time::{Instant, NANOS_PER_SEC};

verus! {

/// How long, in seconds, the loss of packets is watched before it is weighed
pub const CONGESTION_INTERVAL: u64 = 1;

/// The send window after the loss of packets was weighed: where more than a
/// quarter of the `sent + resent` packets of the interval were packets that
/// had to be sent again, the window is halved, but it never allows fewer
/// than one packet.
pub open spec fn spec_window_after(window: u32, sent: u32, resent: u32) -> u32 {
    if 4 * resent > sent + resent {
        if window / 2 < 1 {
            1u32
        } else {
            (window / 2) as u32
        }
    } else {
        window
    }
}

/// The more packets of an interval were lost, the smaller the send window
/// comes out: a share of lost packets that is no smaller gives a window
/// that is no larger.
pub proof fn lemma_window_falls_with_loss(
    window: u32,
    sent: u32,
    resent: u32,
    more_sent: u32,
    more_resent: u32,
)
    requires
        1 <= window,
        sent + resent > 0,
        more_sent + more_resent > 0,
        resent * (more_sent + more_resent) <= more_resent * (sent + resent),
    ensures
        spec_window_after(window, more_sent, more_resent) <= spec_window_after(
            window,
            sent,
            resent,
        ),
        1 <= spec_window_after(window, sent, resent) <= window,
{
    if 4 * resent > sent + resent {
        assert(4 * more_resent > more_sent + more_resent) by (nonlinear_arith)
            requires
                4 * resent > sent + resent,
                sent + resent > 0,
                more_sent + more_resent > 0,
                resent * (more_sent + more_resent) <= more_resent * (sent + resent),
        ;
    }
}

/// How many packets may be sent again after `elapsed` nanoseconds: as many
/// as the window allows per round trip time, one at least and no more than
/// the window allows at all.
pub open spec fn spec_rate_limit(window: u32, rtt: u64, elapsed: u64) -> u32 {
    if rtt == 0 || (window as int) * (elapsed as int) / (rtt as int) >= window {
        window
    } else if (window as int) * (elapsed as int) / (rtt as int) < 1 {
        1u32
    } else {
        ((window as int) * (elapsed as int) / (rtt as int)) as u32
    }
}

/// How many packets may be sent again after `elapsed` nanoseconds.
pub fn rate_limit(window: u32, rtt: u64, elapsed: u64) -> (limit: u32)
    ensures
        limit == spec_rate_limit(window, rtt, elapsed),
        1 <= window ==> 1 <= limit <= window,
{
    if rtt == 0 {
        return window;
    }
    assert((window as u128) * (elapsed as u128) <= 0xffff_ffff * 0xffff_ffff_ffff_ffff)
        by (nonlinear_arith)
        requires
            window <= 0xffff_ffff,
            elapsed <= 0xffff_ffff_ffff_ffff,
    ;
    let per_rtt: u128 = (window as u128) * (elapsed as u128) / (rtt as u128);
    if per_rtt >= window as u128 {
        window
    } else if per_rtt < 1 {
        1
    } else {
        per_rtt as u32
    }
}

impl CryptoConnection {
    /// Whether this connection is `before` after the loss of packets was
    /// weighed at `now`: where the interval is over, the send window is set
    /// anew and the counting starts again.
    pub open spec fn is_weighed_after(&self, before: &CryptoConnection, now: Instant) -> bool {
        if now.spec_since(before.congestion_time) >= CONGESTION_INTERVAL * NANOS_PER_SEC {
            *self == (CryptoConnection {
                send_window: spec_window_after(
                    before.send_window,
                    before.packets_sent,
                    before.packets_resent,
                ),
                packets_sent: 0,
                packets_resent: 0,
                congestion_time: now,
                ..*before
            })
        } else {
            *self == *before
        }
    }

    /// Weighs the loss of packets where the interval for it is over.
    pub fn update_congestion(&mut self, now: Instant)
        requires
            old(self).wf(),
        ensures
            final(self).wf(),
            final(self).is_weighed_after(old(self), now),
    {
        if now.duration_since(self.congestion_time).nanos >= CONGESTION_INTERVAL * NANOS_PER_SEC {
            let sent: u64 = self.packets_sent as u64;
            let resent: u64 = self.packets_resent as u64;
            if 4 * resent > sent + resent {
                self.send_window = if self.send_window / 2 < 1 {
                    1
                } else {
                    self.send_window / 2
                };
            }
            self.packets_sent = 0;
            self.packets_resent = 0;
            self.congestion_time = now;
        }
    }

    /// Whether `packet` is the packet by which the piece of data with the
    /// number `seq` of the connection `before` goes out.
    pub open spec fn carries(before: &CryptoConnection, packet: CryptoData, seq: u32) -> bool {
        &&& before.spec_session() matches Some(session)
        &&& before.send_array@.contains_key(seq)
        &&& packet.wf()
        &&& is_data_packet(
            packet,
            session.session_precomputed_key,
            session.sent_nonce,
            before.send_array.buffer_start,
            seq,
            spec_data_wire(
                before.recv_array.buffer_start,
                seq,
                before.send_array@[seq].data@,
            ),
        )
    }

    /// Whether this connection is `before` after the packets `packets` went
    /// out again at `now`, no more than `limit` of them: each of them
    /// carries a piece of data that was marked to be sent again, every piece
    /// that went out is marked no longer and counts as sent at `now`, and
    /// where fewer than `limit` went out, none is left marked.
    pub open spec fn is_resent_after(
        &self,
        before: &CryptoConnection,
        packets: Seq<CryptoData>,
        numbers: Seq<u32>,
        now: Instant,
        limit: u32,
    ) -> bool {
        &&& packets.len() <= limit
        &&& numbers.len() == packets.len()
        &&& *self == CryptoConnection {
            send_array: self.send_array,
            packets_resent: self.packets_resent,
            last_sent_time: self.last_sent_time,
            ..*before
        }
        &&& self.packets_resent == if before.packets_resent + packets.len() > u32::MAX {
            u32::MAX as int
        } else {
            before.packets_resent + packets.len()
        }
        &&& self.last_sent_time == if packets.len() > 0 {
            Some(now)
        } else {
            before.last_sent_time
        }
        &&& self.send_array.buffer_start == before.send_array.buffer_start
        &&& self.send_array.buffer_end == before.send_array.buffer_end
        &&& self.send_array@.dom() == before.send_array@.dom()
        &&& forall|i: int|
            0 <= i < numbers.len() ==> before.send_array@.contains_key(#[trigger] numbers[i])
                && before.send_array@[numbers[i]].requested && Self::carries(
                before,
                packets[i],
                numbers[i],
            )
        &&& forall|i: int, j: int|
            0 <= i < j < numbers.len() ==> numbers[i].wrapping_sub(before.send_array.buffer_start)
                < numbers[j].wrapping_sub(before.send_array.buffer_start)
        &&& forall|seq: u32| #[trigger]
            before.send_array@.contains_key(seq) ==> self.send_array@[seq] == if numbers.contains(
                seq,
            ) {
                SentPacket { sent_time: now, requested: false, ..before.send_array@[seq] }
            } else {
                before.send_array@[seq]
            }
        &&& packets.len() < limit ==> forall|seq: u32| #[trigger]
            before.send_array@.contains_key(seq) && before.send_array@[seq].requested
                ==> numbers.contains(seq)
    }

    /// Sends again the pieces of data that are marked for it, in the order
    /// of their numbers, but no more than `limit` of them. Gives out the
    /// packets and the numbers of the pieces that they carry.
    ///
    /// A connection that is not established sends nothing.
    pub fn retransmit(&mut self, now: Instant, limit: u32) -> (res: (Vec<CryptoData>, Vec<u32>))
        requires
            old(self).wf(),
        ensures
            final(self).wf(),
            old(self).spec_is_established() ==> final(self).is_resent_after(
                old(self),
                res.0@,
                res.1@,
                now,
                limit,
            ),
            !old(self).spec_is_established() ==> res.0@.len() == 0 && res.1@.len() == 0
                && *final(self) == *old(self),
    {
        let mut packets: Vec<CryptoData> = Vec::new();
        let mut numbers: Vec<u32> = Vec::new();
        if !self.is_established() {
            return (packets, numbers);
        }
        let session = match self.session() {
            Some(session) => session,
            None => { return (packets, numbers); },
        };
        let start = self.send_array.buffer_start;
        let recv_start = self.recv_array.buffer_start;
        let len = self.send_array.len();
        let mut sent: u32 = 0;
        let mut k: u32 = 0;
        proof {
            old(self).send_array.lemma_occupied_bound();
        }
        while k < len && sent < limit
            invariant
                k <= len,
                len == old(self).send_array.spec_len(),
                len <= 65536,
                sent <= limit,
                sent <= k,
                sent == packets@.len(),
                sent == numbers@.len(),
                self.wf(),
                old(self).wf(),
                old(self).spec_session() == Some(session),
                start == old(self).send_array.buffer_start,
                recv_start == old(self).recv_array.buffer_start,
                *self == (CryptoConnection { send_array: self.send_array, ..*old(self) }),
                self.send_array.buffer_start == old(self).send_array.buffer_start,
                self.send_array.buffer_end == old(self).send_array.buffer_end,
                self.send_array@.dom() == old(self).send_array@.dom(),
                forall|i: int|
                    0 <= i < numbers@.len() ==> old(self).send_array@.contains_key(
                        #[trigger] numbers@[i],
                    ) && old(self).send_array@[numbers@[i]].requested && Self::carries(
                        old(self),
                        packets@[i],
                        numbers@[i],
                    ) && numbers@[i].wrapping_sub(start) < k,
                forall|i: int, j: int|
                    0 <= i < j < numbers@.len() ==> numbers@[i].wrapping_sub(start)
                        < numbers@[j].wrapping_sub(start),
                forall|seq: u32| #[trigger]
                    old(self).send_array@.contains_key(seq) ==> self.send_array@[seq]
                        == if numbers@.contains(seq) {
                        SentPacket {
                            sent_time: now,
                            requested: false,
                            ..old(self).send_array@[seq]
                        }
                    } else {
                        old(self).send_array@[seq]
                    },
                forall|seq: u32| #[trigger]
                    old(self).send_array@.contains_key(seq) && old(self).send_array@[seq].requested
                        && seq.wrapping_sub(start) < k ==> numbers@.contains(seq),
            decreases len - k,
        {
            let seq = start.wrapping_add(k);
            let ghost numbers_before = numbers@;
            let mut pushed = false;
            match self.send_array.remove(seq) {
                Some(mut entry) => {
                    if entry.requested {
                        let packet = make_data_packet(
                            &session.session_precomputed_key,
                            &session.sent_nonce,
                            start,
                            recv_start,
                            seq,
                            entry.data.as_slice(),
                        );
                        entry.sent_time = now;
                        entry.requested = false;
                        packets.push(packet);
                        numbers.push(seq);
                        sent += 1;
                        pushed = true;
                    }
                    let inserted = self.send_array.insert(seq, entry);
                    assert(inserted is Ok);
                },
                None => {},
            }
            proof {
                assert(self.send_array@.dom() =~= old(self).send_array@.dom());
                if pushed {
                    assert(numbers@.drop_last() =~= numbers_before);
                    assert(numbers@.last() == seq);
                    assert(!numbers_before.contains(seq));
                    assert forall|other: u32| #[trigger]
                        numbers@.contains(other) <==> (numbers_before.contains(other) || other
                            == seq) by {
                        if numbers@.contains(other) {
                            let i = choose|i: int| 0 <= i < numbers@.len() && numbers@[i] == other;
                            if i < numbers_before.len() {
                                assert(numbers_before[i] == other);
                            }
                        }
                        if numbers_before.contains(other) {
                            let i = choose|i: int|
                                0 <= i < numbers_before.len() && numbers_before[i] == other;
                            assert(numbers@[i] == other);
                        }
                        if other == seq {
                            assert(numbers@[numbers@.len() - 1] == other);
                        }
                    }
                } else {
                    assert(numbers@ == numbers_before);
                }
            }
            k += 1;
        }
        if sent > 0 {
            self.last_sent_time = Some(now);
        }
        self.packets_resent = if u32::MAX - self.packets_resent < sent {
            u32::MAX
        } else {
            self.packets_resent + sent
        };
        (packets, numbers)
    }

    /// Whether the connection has sent no data packet yet or sent the last
    /// one a second or longer before `now`.
    pub open spec fn spec_is_idle(&self, now: Instant) -> bool {
        match self.last_sent_time {
            Some(time) => now.spec_since(time) >= CRYPTO_SEND_PACKET_INTERVAL * NANOS_PER_SEC,
            None => true,
        }
    }

    /// Whether the connection has sent no data packet yet or sent the last
    /// one a second or longer before `now`.
    pub fn is_idle(&self, now: Instant) -> (idle: bool)
        ensures
            idle == self.spec_is_idle(now),
    {
        match self.last_sent_time {
            Some(time) => now.duration_since(time).nanos >= CRYPTO_SEND_PACKET_INTERVAL
                * NANOS_PER_SEC,
            None => true,
        }
    }

    /// Whether `packet` is a data packet of this connection that is not
    /// kept for sending again and carries `data`: it has the number behind
    /// the send window.
    pub open spec fn is_unkept_packet(&self, packet: CryptoData, data: Seq<u8>) -> bool {
        &&& self.spec_session() matches Some(session)
        &&& packet.wf()
        &&& is_data_packet(
            packet,
            session.session_precomputed_key,
            session.sent_nonce,
            self.send_array.buffer_start,
            self.send_array.buffer_end,
            spec_data_wire(self.recv_array.buffer_start, self.send_array.buffer_end, data),
        )
    }

    /// The packet without data that shows the peer that we are alive, where
    /// the connection has a session and has been idle for a second at `now`.
    ///
    /// A connection that waits for the first data packet of its peer sends
    /// it too: it is the data packet by which the peer learns that our
    /// handshake packet has arrived.
    pub fn keep_alive(&mut self, now: Instant) -> (res: Option<CryptoData>)
        requires
            old(self).wf(),
        ensures
            final(self).wf(),
            match res {
                Some(packet) => {
                    &&& old(self).spec_session() is Some
                    &&& old(self).spec_is_idle(now)
                    &&& old(self).is_unkept_packet(packet, Seq::empty())
                    &&& *final(self) == (CryptoConnection {
                        last_sent_time: Some(now),
                        ..*old(self)
                    })
                },
                None => {
                    &&& !(old(self).spec_session() is Some && old(self).spec_is_idle(now))
                    &&& *final(self) == *old(self)
                },
            },
    {
        if !self.is_idle(now) {
            return None;
        }
        let session = match self.session() {
            Some(session) => session,
            None => { return None; },
        };
        let empty: Vec<u8> = Vec::new();
        let packet = make_data_packet(
            &session.session_precomputed_key,
            &session.sent_nonce,
            self.send_array.buffer_start,
            self.recv_array.buffer_start,
            self.send_array.buffer_end,
            empty.as_slice(),
        );
        self.last_sent_time = Some(now);
        Some(packet)
    }

    /// Whether `frame` is a request for pieces of data that the receive
    /// array misses: it names one at least, none that the array holds, and
    /// all that it misses unless they are too many for one frame.
    pub open spec fn is_request_frame(&self, frame: Seq<u8>) -> bool {
        &&& 1 < frame.len()
        &&& frame[0] == REQUEST_TAG
        &&& spec_request_is_sound(&self.recv_array, frame)
        &&& frame.len() < crate::crypto_data::MAX_CRYPTO_DATA_SIZE ==> spec_request_is_complete(
            &self.recv_array,
            frame,
        )
    }

    /// Whether `packet` is a data packet of this connection that carries a
    /// request for pieces of data that the receive array misses.
    pub open spec fn is_request_packet(&self, packet: CryptoData) -> bool {
        exists|frame: Seq<u8>| #[trigger]
            self.is_unkept_packet(packet, frame) && self.is_request_frame(frame)
    }

    /// The packet that asks the peer for the pieces of data that the
    /// receive array misses, where the connection is established and misses
    /// any.
    pub fn request_missing(&self) -> (res: Option<CryptoData>)
        requires
            self.wf(),
        ensures
            match res {
                Some(packet) => self.spec_is_established() && self.is_request_packet(packet),
                None => !self.spec_is_established() || forall|seq: u32| #[trigger]
                    self.recv_array.in_window(seq) ==> self.recv_array@.contains_key(seq),
            },
    {
        if !self.is_established() {
            return None;
        }
        let session = match self.session() {
            Some(session) => session,
            None => { return None; },
        };
        let (frame, found) = generate_request(&self.recv_array);
        if !found {
            proof {
                let body = frame@.subrange(1, frame@.len() as int);
                self.recv_array.lemma_occupied_bound();
                assert forall|seq: u32| #[trigger]
                    self.recv_array.in_window(seq) implies self.recv_array@.contains_key(seq) by {
                    let o = seq.wrapping_sub(self.recv_array.buffer_start) as int;
                    if !self.recv_array@.contains_key(seq) {
                        assert(seq == self.recv_array.buffer_start.wrapping_add(o as u32));
                        assert(spec_requested(body).contains(o));
                    }
                }
            }
            return None;
        }
        proof {
            let body = frame@.subrange(1, frame@.len() as int);
            assert(body.len() > 0) by {
                if body.len() == 0 {
                    let o = choose|o: int| #[trigger] spec_requested(body).contains(o);
                    assert(spec_requested(body).contains(o));
                }
            }
        }
        let packet = make_data_packet(
            &session.session_precomputed_key,
            &session.sent_nonce,
            self.send_array.buffer_start,
            self.recv_array.buffer_start,
            self.send_array.buffer_end,
            frame.as_slice(),
        );
        proof {
            assert(self.is_unkept_packet(packet, frame@));
            assert(self.is_request_frame(frame@));
        }
        Some(packet)
    }
}

} // verus!
