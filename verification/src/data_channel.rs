//! The reliable, ordered channel that an established connection gives.
//!
//! Every piece of data gets the next sequence number and stays in the send
//! array until the peer confirms it. What comes in is kept in the receive
//! array under its sequence number and is handed to the application in the
//! order of the numbers.

use vstd::prelude::*;
use vstd::slice::slice_subrange;
use crate::binary_io::{spec_u32_to_le_bytes, ToBytes};
use crate::crypto_connection::{
    ConnectionStatus, CryptoConnection, RecvPacket, SentPacket, TCP_RTT,
};
use crate::crypto_core::{
    be_value, increment_nonce, lemma_be_value_bound, lemma_be_value_low, lemma_nonce_add_back,
    spec_nonce_add, spec_seal, Nonce, PrecomputedKey, PublicKey,
};
use crate::crypto_data::{
    lemma_nonce_moved, lemma_nonce_offset_hits, spec_nonce_last_bytes, spec_nonce_offset,
    CryptoData, CryptoDataPayload, MAX_CRYPTO_DATA_SIZE,
};
use crate::error::Error;
use crate::packets_array::PACKETS_ARRAY_SIZE;
use crate::request::{request_offsets, spec_is_valid_data, spec_requested, REQUEST_TAG};
use crate::time::{Duration, Instant, NANOS_PER_MILLI};

verus! {

/// What a data packet carried.
#[derive(Clone, Copy, Debug, PartialEq, Eq, Structural)]
pub enum DataKind {
    /// Nothing: the peer shows that it is alive.
    KeepAlive,
    /// A request for packets that the peer misses.
    Request,
    /// Data for the application.
    Data,
}

/// The keys and nonces of a session.
#[derive(Clone, Copy, Debug, PartialEq, Eq)]
pub struct Session {
    /// The nonce of the first packet of the send window.
    pub sent_nonce: Nonce,
    /// The nonce behind that of the newest packet that came in.
    pub received_nonce: Nonce,
    /// The session public key of the peer.
    pub peer_session_pk: PublicKey,
    /// The key under which data packets are sealed and opened.
    pub session_precomputed_key: PrecomputedKey,
}

/// The shortest time that any of the first `count` packets of the window
/// that starts at `start` has been on its way at `now`, or `rtt` where that
/// is shorter. Packets that the array `packets` does not hold do not count.
pub open spec fn spec_rtt_sample(
    packets: Map<u32, SentPacket>,
    start: u32,
    count: nat,
    now: Instant,
    rtt: int,
) -> int
    decreases count,
{
    if count == 0 {
        rtt
    } else {
        let rest = spec_rtt_sample(packets, start, (count - 1) as nat, now, rtt);
        let seq = start.wrapping_add((count - 1) as u32);
        if packets.contains_key(seq) && now.spec_since(packets[seq].sent_time) < rest {
            now.spec_since(packets[seq].sent_time)
        } else {
            rest
        }
    }
}

/// The packets `packets` after a request came in at `now` that names the
/// places `requested` of the window that starts at `start`: each packet that
/// the request names and that was sent `rtt` or longer ago is marked to be
/// sent again.
pub open spec fn spec_marked(
    packets: Map<u32, SentPacket>,
    start: u32,
    requested: Set<int>,
    now: Instant,
    rtt: Duration,
) -> Map<u32, SentPacket> {
    Map::new(
        |seq: u32| packets.contains_key(seq),
        |seq: u32|
            if requested.contains(seq.wrapping_sub(start) as int) && now.spec_since(
                packets[seq].sent_time,
            ) >= rtt.nanos {
                SentPacket { requested: true, ..packets[seq] }
            } else {
                packets[seq]
            },
    )
}

/// The bytes under the seal of a data packet: the sequence number up to
/// which everything was received, the number of the packet, the data.
pub open spec fn spec_data_wire(buffer_start: u32, packet_number: u32, data: Seq<u8>) -> Seq<u8> {
    spec_u32_to_le_bytes(buffer_start) + spec_u32_to_le_bytes(packet_number) + data
}

/// The number of the nonce of the packet `packet_number`, where `sent_nonce`
/// is the nonce of the packet `send_start`: the packet lies fewer than 65536
/// numbers behind `send_start`, and its nonce lies as many places behind
/// `sent_nonce`.
pub open spec fn spec_data_nonce_value(
    sent_nonce: Nonce,
    send_start: u32,
    packet_number: u32,
) -> int {
    spec_nonce_add(sent_nonce, (packet_number.wrapping_sub(send_start) % 65536) as int)
}

/// Whether `packet` is the data packet with the number `packet_number` and
/// the bytes `plain` under its seal, sealed under `key` with the nonce that
/// belongs to its number.
pub open spec fn is_data_packet(
    packet: CryptoData,
    key: PrecomputedKey,
    sent_nonce: Nonce,
    send_start: u32,
    packet_number: u32,
    plain: Seq<u8>,
) -> bool {
    exists|nonce: Nonce|
        {
            &&& be_value(nonce@) == spec_data_nonce_value(sent_nonce, send_start, packet_number)
            &&& #[trigger] spec_nonce_last_bytes(nonce) == packet.nonce_last_bytes
            &&& packet.payload@ == spec_seal(plain, nonce@, key@)
        }
}

/// Makes the data packet with the number `packet_number`.
pub fn make_data_packet(
    key: &PrecomputedKey,
    sent_nonce: &Nonce,
    send_start: u32,
    recv_start: u32,
    packet_number: u32,
    data: &[u8],
) -> (packet: CryptoData)
    requires
        data@.len() <= MAX_CRYPTO_DATA_SIZE,
    ensures
        packet.wf(),
        is_data_packet(
            packet,
            *key,
            *sent_nonce,
            send_start,
            packet_number,
            spec_data_wire(recv_start, packet_number, data@),
        ),
{
    let mut nonce = *sent_nonce;
    increment_nonce(&mut nonce, (packet_number.wrapping_sub(send_start) % PACKETS_ARRAY_SIZE) as u64);
    let payload = CryptoDataPayload {
        buffer_start: recv_start,
        packet_number,
        data: crate::binary_io::to_vec(data),
    };
    let packet = CryptoData::new(key, nonce, &payload);
    proof {
        assert(spec_nonce_last_bytes(nonce) == packet.nonce_last_bytes);
    }
    packet
}

impl CryptoConnection {
    /// Whether the connection is established.
    pub open spec fn spec_is_established(&self) -> bool {
        self.status is Established
    }

    /// Whether the connection is established.
    pub fn is_established(&self) -> (established: bool)
        ensures
            established == self.spec_is_established(),
    {
        match self.status {
            ConnectionStatus::Established { .. } => true,
            _ => false,
        }
    }

    /// The nonce of the first packet of the send window, if the connection
    /// has a session.
    pub open spec fn spec_sent_nonce(&self) -> Option<Nonce> {
        match self.status {
            ConnectionStatus::NotConfirmed { sent_nonce, .. } => Some(sent_nonce),
            ConnectionStatus::Established { sent_nonce, .. } => Some(sent_nonce),
            _ => None,
        }
    }

    /// The nonce behind that of the newest packet that came in, if the
    /// connection has a session.
    pub open spec fn spec_received_nonce(&self) -> Option<Nonce> {
        match self.status {
            ConnectionStatus::NotConfirmed { received_nonce, .. } => Some(received_nonce),
            ConnectionStatus::Established { received_nonce, .. } => Some(received_nonce),
            _ => None,
        }
    }

    /// The key of the session, if the connection has a session.
    pub open spec fn spec_session_key(&self) -> Option<PrecomputedKey> {
        match self.status {
            ConnectionStatus::NotConfirmed { session_precomputed_key, .. } => Some(
                session_precomputed_key,
            ),
            ConnectionStatus::Established { session_precomputed_key, .. } => Some(
                session_precomputed_key,
            ),
            _ => None,
        }
    }

    /// The keys and nonces of the session, if the connection has a session.
    pub open spec fn spec_session(&self) -> Option<Session> {
        match self.status {
            ConnectionStatus::NotConfirmed {
                sent_nonce,
                received_nonce,
                peer_session_pk,
                session_precomputed_key,
                ..
            } => Some(
                Session { sent_nonce, received_nonce, peer_session_pk, session_precomputed_key },
            ),
            ConnectionStatus::Established {
                sent_nonce,
                received_nonce,
                peer_session_pk,
                session_precomputed_key,
            } => Some(
                Session { sent_nonce, received_nonce, peer_session_pk, session_precomputed_key },
            ),
            _ => None,
        }
    }

    /// The keys and nonces of the session, if the connection has a session.
    pub fn session(&self) -> (session: Option<Session>)
        ensures
            session == self.spec_session(),
    {
        match self.status {
            ConnectionStatus::NotConfirmed {
                sent_nonce,
                received_nonce,
                peer_session_pk,
                session_precomputed_key,
                ..
            } => Some(
                Session { sent_nonce, received_nonce, peer_session_pk, session_precomputed_key },
            ),
            ConnectionStatus::Established {
                sent_nonce,
                received_nonce,
                peer_session_pk,
                session_precomputed_key,
            } => Some(
                Session { sent_nonce, received_nonce, peer_session_pk, session_precomputed_key },
            ),
            _ => None,
        }
    }

    /// The connection `self` with the session `session`, established.
    pub open spec fn spec_established_with(self, session: Session) -> CryptoConnection {
        CryptoConnection {
            status: ConnectionStatus::Established {
                sent_nonce: session.sent_nonce,
                received_nonce: session.received_nonce,
                peer_session_pk: session.peer_session_pk,
                session_precomputed_key: session.session_precomputed_key,
            },
            ..self
        }
    }

    /// Whether this connection is `before` after a data packet of the peer
    /// was opened under the nonce `packet_nonce`: it is established, and
    /// where the nonce is not older than any that came before (`ahead`), the
    /// nonce behind it is the one to go on from.
    pub open spec fn is_confirmed_after(
        &self,
        before: &CryptoConnection,
        packet_nonce: Nonce,
        ahead: bool,
    ) -> bool {
        &&& before.spec_session() matches Some(session)
        &&& self.spec_session() matches Some(confirmed)
        &&& *self == before.spec_established_with(confirmed)
        &&& confirmed == Session { received_nonce: confirmed.received_nonce, ..session }
        &&& if ahead {
            be_value(confirmed.received_nonce@) == spec_nonce_add(packet_nonce, 1)
        } else {
            confirmed.received_nonce == session.received_nonce
        }
    }

    /// Notes that a data packet of the peer was opened under the nonce
    /// `packet_nonce`. Fails where the connection has no session.
    pub fn confirm(&mut self, packet_nonce: Nonce, ahead: bool) -> (res: Result<(), Error>)
        requires
            old(self).wf(),
        ensures
            final(self).wf(),
            match res {
                Ok(()) => final(self).is_confirmed_after(old(self), packet_nonce, ahead),
                Err(e) => e == Error::NotEstablished && old(self).spec_session() is None
                    && *final(self) == *old(self),
            },
    {
        let session = match self.session() {
            Some(session) => session,
            None => { return Err(Error::NotEstablished); },
        };
        let mut received_nonce = session.received_nonce;
        if ahead {
            received_nonce = packet_nonce;
            increment_nonce(&mut received_nonce, 1);
        }
        self.status = ConnectionStatus::Established {
            sent_nonce: session.sent_nonce,
            received_nonce,
            peer_session_pk: session.peer_session_pk,
            session_precomputed_key: session.session_precomputed_key,
        };
        Ok(())
    }

    /// The shortest round trip time that the connection may assume at `now`:
    /// that of a TCP relay where the peer is reached through one and not by
    /// UDP, none otherwise.
    pub open spec fn spec_rtt_floor(&self, now: Instant) -> int {
        if !self.spec_is_udp_alive(now) && self.tcp_relay is Some {
            TCP_RTT * NANOS_PER_MILLI
        } else {
            0
        }
    }

    /// Whether this connection is `before` after the peer confirmed, at
    /// `now`, every packet before the number `buffer_start`: those packets
    /// have left the send array, the round trip time is no longer than any
    /// of them has been on its way, the nonce of the first packet of the
    /// window has moved along with the window, and the window allows as many
    /// packets more as were confirmed.
    pub open spec fn is_acknowledged_after(
        &self,
        before: &CryptoConnection,
        buffer_start: u32,
        now: Instant,
    ) -> bool {
        let start = before.send_array.buffer_start;
        let d = buffer_start.wrapping_sub(start);
        let sample = spec_rtt_sample(
            before.send_array@,
            start,
            d as nat,
            now,
            before.rtt.nanos as int,
        );
        &&& before.spec_session() matches Some(session)
        &&& self.spec_session() matches Some(moved)
        &&& *self == CryptoConnection {
            send_array: self.send_array,
            rtt: self.rtt,
            send_window: self.send_window,
            ..before.spec_established_with(moved)
        }
        &&& moved == Session { sent_nonce: moved.sent_nonce, ..session }
        &&& be_value(moved.sent_nonce@) == spec_nonce_add(session.sent_nonce, d as int)
        &&& self.send_array@ == before.send_array@.restrict(
            Set::new(|s: u32| s.wrapping_sub(start) >= d),
        )
        &&& self.send_array.buffer_start == buffer_start
        &&& self.send_array.buffer_end == before.send_array.buffer_end
        &&& self.rtt.nanos == if sample < before.spec_rtt_floor(now) {
            before.spec_rtt_floor(now)
        } else {
            sample
        }
        &&& self.send_window == if before.send_window + d > PACKETS_ARRAY_SIZE {
            PACKETS_ARRAY_SIZE as int
        } else {
            before.send_window + d
        }
    }

    /// Takes in that the peer has received every packet before the number
    /// `buffer_start`.
    ///
    /// Fails with `OutOfRange` where the number lies outside the send
    /// window, and with `NotEstablished` where the connection is not
    /// established.
    pub fn acknowledge(&mut self, buffer_start: u32, now: Instant) -> (res: Result<(), Error>)
        requires
            old(self).wf(),
        ensures
            final(self).wf(),
            match res {
                Ok(()) => {
                    &&& old(self).spec_is_established()
                    &&& buffer_start.wrapping_sub(old(self).send_array.buffer_start) <= old(
                        self,
                    ).send_array.spec_len()
                    &&& final(self).is_acknowledged_after(old(self), buffer_start, now)
                },
                Err(e) => {
                    &&& *final(self) == *old(self)
                    &&& e == if !old(self).spec_is_established() {
                        Error::NotEstablished
                    } else {
                        Error::OutOfRange
                    }
                    &&& e == Error::OutOfRange ==> buffer_start.wrapping_sub(
                        old(self).send_array.buffer_start,
                    ) > old(self).send_array.spec_len()
                },
            },
    {
        if !self.is_established() {
            return Err(Error::NotEstablished);
        }
        let session = match self.session() {
            Some(session) => session,
            None => { return Err(Error::NotEstablished); },
        };
        let start = self.send_array.buffer_start;
        let d = buffer_start.wrapping_sub(start);
        if d > self.send_array.len() {
            return Err(Error::OutOfRange);
        }
        let floor: u64 = if !self.is_udp_alive(now) && self.tcp_relay.is_some() {
            TCP_RTT * NANOS_PER_MILLI
        } else {
            0
        };
        let mut rtt: u64 = self.rtt.nanos;
        let mut k: u32 = 0;
        while k < d
            invariant
                k <= d,
                self.wf(),
                *self == *old(self),
                start == self.send_array.buffer_start,
                rtt == spec_rtt_sample(
                    self.send_array@,
                    start,
                    k as nat,
                    now,
                    self.rtt.nanos as int,
                ),
            decreases d - k,
        {
            match self.send_array.get(start.wrapping_add(k)) {
                Some(packet) => {
                    let sample = now.duration_since(packet.sent_time).nanos;
                    if sample < rtt {
                        rtt = sample;
                    }
                },
                None => {},
            }
            k += 1;
        }
        let advanced = self.send_array.advance_start_to(buffer_start);
        assert(advanced is Ok);
        self.rtt = Duration::from_nanos(if rtt < floor { floor } else { rtt });
        self.send_window = if PACKETS_ARRAY_SIZE - self.send_window < d {
            PACKETS_ARRAY_SIZE
        } else {
            self.send_window + d
        };
        let mut sent_nonce = session.sent_nonce;
        increment_nonce(&mut sent_nonce, d as u64);
        self.status = ConnectionStatus::Established {
            sent_nonce,
            received_nonce: session.received_nonce,
            peer_session_pk: session.peer_session_pk,
            session_precomputed_key: session.session_precomputed_key,
        };
        Ok(())
    }

    /// Takes in a request of the peer for the packets that it misses.
    ///
    /// Every packet that the request names, that is still in the send array
    /// and that was sent a round trip time or longer ago, is marked to be
    /// sent again.
    pub fn handle_request(&mut self, body: &[u8], now: Instant)
        requires
            old(self).wf(),
        ensures
            final(self).wf(),
            *final(self) == (CryptoConnection { send_array: final(self).send_array, ..*old(self) }),
            final(self).send_array.buffer_start == old(self).send_array.buffer_start,
            final(self).send_array.buffer_end == old(self).send_array.buffer_end,
            final(self).send_array@ == spec_marked(
                old(self).send_array@,
                old(self).send_array.buffer_start,
                spec_requested(body@),
                now,
                old(self).rtt,
            ),
    {
        let offsets = request_offsets(body);
        let start = self.send_array.buffer_start;
        let rtt = self.rtt;
        let n = offsets.len();
        let mut j: usize = 0;
        proof {
            assert(self.send_array@ =~= spec_marked(
                old(self).send_array@,
                start,
                Set::new(|o: int| 0 <= o < 65536 && offsets@.subrange(0, 0).contains(o as u32)),
                now,
                rtt,
            ));
        }
        while j < n
            invariant
                j <= n,
                n == offsets@.len(),
                self.wf(),
                old(self).wf(),
                rtt == old(self).rtt,
                start == old(self).send_array.buffer_start,
                forall|i: int| 0 <= i < offsets@.len() ==> (#[trigger] offsets@[i]) < 65536,
                *self == (CryptoConnection { send_array: self.send_array, ..*old(self) }),
                self.send_array.buffer_start == old(self).send_array.buffer_start,
                self.send_array.buffer_end == old(self).send_array.buffer_end,
                self.send_array@ == spec_marked(
                    old(self).send_array@,
                    start,
                    Set::new(
                        |o: int|
                            0 <= o < 65536 && offsets@.subrange(0, j as int).contains(o as u32),
                    ),
                    now,
                    rtt,
                ),
            decreases n - j,
        {
            let offset = offsets[j];
            let seq = start.wrapping_add(offset);
            let ghost before = self.send_array@;
            let ghost done = offsets@.subrange(0, j as int);
            let ghost next = offsets@.subrange(0, j + 1);
            match self.send_array.remove(seq) {
                Some(mut packet) => {
                    if now.duration_since(packet.sent_time).nanos >= rtt.nanos {
                        packet.requested = true;
                    }
                    let inserted = self.send_array.insert(seq, packet);
                    assert(inserted is Ok);
                },
                None => {},
            }
            proof {
                assert(next.drop_last() =~= done);
                assert(next.last() == offset);
                assert forall|o: u32| #[trigger]
                    next.contains(o) <==> (done.contains(o) || o == offset) by {
                    if next.contains(o) {
                        let i = choose|i: int| 0 <= i < next.len() && next[i] == o;
                        if i < done.len() {
                            assert(done[i] == o);
                        }
                    }
                    if done.contains(o) {
                        let i = choose|i: int| 0 <= i < done.len() && done[i] == o;
                        assert(next[i] == o);
                    }
                    if o == offset {
                        assert(next[j as int] == o);
                    }
                }
                assert(self.send_array@ =~= spec_marked(
                    old(self).send_array@,
                    start,
                    Set::new(|o: int| 0 <= o < 65536 && next.contains(o as u32)),
                    now,
                    rtt,
                ));
            }
            j += 1;
        }
        proof {
            assert(offsets@.subrange(0, n as int) =~= offsets@);
            old(self).send_array.lemma_occupied_bound();
            assert(self.send_array@ =~= spec_marked(
                old(self).send_array@,
                start,
                spec_requested(body@),
                now,
                rtt,
            ));
        }
    }

    /// What becomes of the data `data` of the packet with the number
    /// `packet_number`: empty data shows that the peer is alive, data that
    /// starts with the request byte is a request, and all other data is kept
    /// for the application unless the receive array refuses it.
    pub open spec fn spec_store_result(&self, packet_number: u32, data: Seq<u8>) -> Result<
        DataKind,
        Error,
    > {
        if data.len() == 0 {
            Ok(DataKind::KeepAlive)
        } else if data[0] == REQUEST_TAG {
            Ok(DataKind::Request)
        } else {
            match self.recv_array.spec_insert_error(packet_number) {
                Some(e) => Err(e),
                None => Ok(DataKind::Data),
            }
        }
    }

    /// Whether this connection is `before` after it took in, at `now`, the
    /// data `data` of the packet with the number `packet_number`, with the
    /// outcome `res`.
    pub open spec fn is_stored_after(
        &self,
        before: &CryptoConnection,
        packet_number: u32,
        data: Vec<u8>,
        now: Instant,
        res: Result<DataKind, Error>,
    ) -> bool {
        &&& res == before.spec_store_result(packet_number, data@)
        &&& match res {
            Ok(DataKind::Data) => {
                &&& *self == CryptoConnection { recv_array: self.recv_array, ..*before }
                &&& self.recv_array@ == before.recv_array@.insert(
                    packet_number,
                    RecvPacket { data },
                )
                &&& self.recv_array.buffer_start == before.recv_array.buffer_start
                &&& self.recv_array.buffer_end == if before.recv_array.in_window(packet_number) {
                    before.recv_array.buffer_end
                } else {
                    packet_number.wrapping_add(1)
                }
            },
            Ok(DataKind::Request) => {
                &&& *self == CryptoConnection { send_array: self.send_array, ..*before }
                &&& self.send_array.buffer_start == before.send_array.buffer_start
                &&& self.send_array.buffer_end == before.send_array.buffer_end
                &&& self.send_array@ == spec_marked(
                    before.send_array@,
                    before.send_array.buffer_start,
                    spec_requested(data@.subrange(1, data@.len() as int)),
                    now,
                    before.rtt,
                )
            },
            _ => *self == *before,
        }
    }

    /// Takes in the data of the packet with the number `packet_number`.
    ///
    /// Data for the application is kept in the receive array under the
    /// number of its packet until the application takes it. The array
    /// refuses it with `Duplicate` where it holds that number already and
    /// with `OutOfRange` where the number lies outside its reach.
    pub fn store(&mut self, packet_number: u32, data: Vec<u8>, now: Instant) -> (res: Result<
        DataKind,
        Error,
    >)
        requires
            old(self).wf(),
        ensures
            final(self).wf(),
            final(self).is_stored_after(old(self), packet_number, data, now, res),
    {
        if data.len() == 0 {
            return Ok(DataKind::KeepAlive);
        }
        if data[0] == REQUEST_TAG {
            self.handle_request(slice_subrange(data.as_slice(), 1, data.len()), now);
            return Ok(DataKind::Request);
        }
        match self.recv_array.insert(packet_number, RecvPacket::new(data)) {
            Ok(()) => Ok(DataKind::Data),
            Err(e) => Err(e),
        }
    }

    /// Whether the peer can confirm every packet before the number
    /// `buffer_start`: the number lies in the send window or at its end.
    pub open spec fn spec_confirms_sent(&self, buffer_start: u32) -> bool {
        buffer_start.wrapping_sub(self.send_array.buffer_start) <= self.send_array.spec_len()
    }

    /// Whether this connection is `confirmed` after it took in, at `now`,
    /// what a data packet carried, with the outcome `res`: what the peer
    /// confirms has left the send array, and the data is kept or acted on.
    /// Where the peer confirms what was never sent, the data is dropped.
    pub open spec fn is_taken_in_after(
        &self,
        confirmed: &CryptoConnection,
        payload: CryptoDataPayload,
        now: Instant,
        res: Result<DataKind, Error>,
    ) -> bool {
        if !confirmed.spec_confirms_sent(payload.buffer_start) {
            res == Err::<DataKind, Error>(Error::OutOfRange) && *self == *confirmed
        } else {
            exists|acknowledged: CryptoConnection| #[trigger]
                acknowledged.is_acknowledged_after(confirmed, payload.buffer_start, now)
                    && self.is_stored_after(
                    &acknowledged,
                    payload.packet_number,
                    payload.data,
                    now,
                    res,
                )
        }
    }

    /// Whether this connection is `before` after it took in, at `now`, what
    /// a data packet carried under the nonce `packet_nonce`, with the
    /// outcome `res`: the connection is established, what the peer confirms
    /// has left the send array, and the data is kept or acted on.
    ///
    /// A connection without a session stays as it is. Where the peer
    /// confirms what was never sent, the data is dropped.
    pub open spec fn is_received_after(
        &self,
        before: &CryptoConnection,
        payload: CryptoDataPayload,
        packet_nonce: Nonce,
        ahead: bool,
        now: Instant,
        res: Result<DataKind, Error>,
    ) -> bool {
        if before.spec_session() is None {
            res == Err::<DataKind, Error>(Error::NotEstablished) && *self == *before
        } else {
            exists|confirmed: CryptoConnection| #[trigger]
                confirmed.is_confirmed_after(before, packet_nonce, ahead) && self.is_taken_in_after(
                    &confirmed,
                    payload,
                    now,
                    res,
                )
        }
    }

    /// Takes in what a data packet carried under the nonce `packet_nonce`.
    pub fn handle_data_payload(
        &mut self,
        payload: CryptoDataPayload,
        packet_nonce: Nonce,
        ahead: bool,
        now: Instant,
    ) -> (res: Result<DataKind, Error>)
        requires
            old(self).wf(),
        ensures
            final(self).wf(),
            final(self).is_received_after(old(self), payload, packet_nonce, ahead, now, res),
    {
        match self.confirm(packet_nonce, ahead) {
            Ok(()) => {},
            Err(e) => { return Err(e); },
        }
        let ghost confirmed = *self;
        match self.acknowledge(payload.buffer_start, now) {
            Ok(()) => {},
            Err(e) => { return Err(e); },
        }
        let ghost acknowledged = *self;
        let res = self.store(payload.packet_number, payload.data, now);
        proof {
            assert(acknowledged.is_acknowledged_after(&confirmed, payload.buffer_start, now));
            assert(self.is_taken_in_after(&confirmed, payload, now, res));
            assert(confirmed.is_confirmed_after(old(self), packet_nonce, ahead));
        }
        res
    }

    /// Whether this connection can open the data packet `packet`: it has a
    /// session, and under the key of the session, with the nonce nearest to
    /// the last one that ends in the two bytes of the packet, the packet
    /// opens to a payload.
    pub open spec fn spec_opens(&self, packet: CryptoData) -> bool {
        match self.spec_session() {
            None => false,
            Some(session) => exists|nonce: Nonce| #[trigger]
                be_value(nonce@) == spec_nonce_add(
                    session.received_nonce,
                    crate::crypto_data::spec_nonce_offset(
                        session.received_nonce,
                        packet.nonce_last_bytes,
                    ),
                ) && packet.spec_get_payload(session.session_precomputed_key@, nonce) is Ok,
        }
    }

    /// Whether this connection is `before` after it took in, at `now`, the
    /// data packet `packet`, with the outcome `res`.
    ///
    /// The packet is opened under the key of the session with the nonce
    /// nearest to the last one that ends in the two bytes of the packet. A
    /// packet that does not open leaves the connection as it is.
    pub open spec fn is_data_handled_after(
        &self,
        before: &CryptoConnection,
        packet: CryptoData,
        now: Instant,
        res: Result<DataKind, Error>,
    ) -> bool {
        match before.spec_session() {
            None => res == Err::<DataKind, Error>(Error::NotEstablished) && *self == *before,
            Some(session) => {
                let offset = crate::crypto_data::spec_nonce_offset(
                    session.received_nonce,
                    packet.nonce_last_bytes,
                );
                exists|nonce: Nonce| #[trigger]
                    be_value(nonce@) == spec_nonce_add(session.received_nonce, offset)
                        && match packet.spec_get_payload(session.session_precomputed_key@, nonce) {
                        Err(e) => res == Err::<DataKind, Error>(e) && *self == *before,
                        Ok(plain) => exists|payload: CryptoDataPayload| #[trigger]
                            payload.wire() == plain && self.is_received_after(
                                before,
                                payload,
                                nonce,
                                offset >= 0,
                                now,
                                res,
                            ),
                        }
            },
        }
    }

    /// Takes in a data packet of the peer.
    ///
    /// The first data packet that opens makes the connection established.
    /// Fails with `NotEstablished` where the connection has no session yet,
    /// with `Decrypt` or `MalformedPacket` where the packet does not open,
    /// with `OutOfRange` where it confirms what was never sent or lies
    /// outside the reach of the receive array, and with `Duplicate` where
    /// its data is there already.
    pub fn handle_crypto_data(&mut self, packet: &CryptoData, now: Instant) -> (res: Result<
        DataKind,
        Error,
    >)
        requires
            old(self).wf(),
        ensures
            final(self).wf(),
            final(self).is_data_handled_after(old(self), *packet, now, res),
    {
        let session = match self.session() {
            Some(session) => session,
            None => { return Err(Error::NotEstablished); },
        };
        let (nonce, ahead) = packet.full_nonce(&session.received_nonce);
        let payload = match packet.get_payload(&session.session_precomputed_key, &nonce) {
            Ok(payload) => payload,
            Err(e) => {
                assert(be_value(nonce@) == spec_nonce_add(
                    session.received_nonce,
                    crate::crypto_data::spec_nonce_offset(
                        session.received_nonce,
                        packet.nonce_last_bytes,
                    ),
                ));
                return Err(e);
            },
        };
        let res = self.handle_data_payload(payload, nonce, ahead, now);
        proof {
            assert(payload.wire() == payload.wire());
            assert(be_value(nonce@) == spec_nonce_add(
                session.received_nonce,
                crate::crypto_data::spec_nonce_offset(
                    session.received_nonce,
                    packet.nonce_last_bytes,
                ),
            ));
        }
        res
    }

    /// What a connection with a session does with what a data packet
    /// carried never ends in an error other than `OutOfRange` and
    /// `Duplicate`, and it leaves the connection with the same peer.
    pub proof fn lemma_received_is_final(
        &self,
        before: &CryptoConnection,
        payload: CryptoDataPayload,
        packet_nonce: Nonce,
        ahead: bool,
        now: Instant,
        res: Result<DataKind, Error>,
    )
        requires
            before.spec_session() is Some,
            self.is_received_after(before, payload, packet_nonce, ahead, now, res),
        ensures
            res is Ok || res == Err::<DataKind, Error>(Error::OutOfRange) || res == Err::<
                DataKind,
                Error,
            >(Error::Duplicate),
            self.peer_real_pk == before.peer_real_pk,
    {
        let confirmed = choose|confirmed: CryptoConnection| #[trigger]
            confirmed.is_confirmed_after(before, packet_nonce, ahead) && self.is_taken_in_after(
                &confirmed,
                payload,
                now,
                res,
            );
        if confirmed.spec_confirms_sent(payload.buffer_start) {
            let acknowledged = choose|acknowledged: CryptoConnection| #[trigger]
                acknowledged.is_acknowledged_after(&confirmed, payload.buffer_start, now)
                    && self.is_stored_after(
                    &acknowledged,
                    payload.packet_number,
                    payload.data,
                    now,
                    res,
                );
            assert(acknowledged.peer_real_pk == before.peer_real_pk);
        }
    }

    /// Handling a data packet leaves the connection with the same peer.
    pub proof fn lemma_data_handled_keeps_peer(
        &self,
        before: &CryptoConnection,
        packet: CryptoData,
        now: Instant,
        res: Result<DataKind, Error>,
    )
        requires
            self.is_data_handled_after(before, packet, now, res),
        ensures
            self.peer_real_pk == before.peer_real_pk,
    {
        match before.spec_session() {
            None => {},
            Some(session) => {
                let offset = crate::crypto_data::spec_nonce_offset(
                    session.received_nonce,
                    packet.nonce_last_bytes,
                );
                let nonce = choose|nonce: Nonce| #[trigger]
                    be_value(nonce@) == spec_nonce_add(session.received_nonce, offset)
                        && match packet.spec_get_payload(session.session_precomputed_key@, nonce) {
                        Err(e) => res == Err::<DataKind, Error>(e) && *self == *before,
                        Ok(plain) => exists|payload: CryptoDataPayload| #[trigger]
                            payload.wire() == plain && self.is_received_after(
                                before,
                                payload,
                                nonce,
                                offset >= 0,
                                now,
                                res,
                            ),
                        };
                match packet.spec_get_payload(session.session_precomputed_key@, nonce) {
                    Err(e) => {},
                    Ok(plain) => {
                        let payload = choose|payload: CryptoDataPayload| #[trigger]
                            payload.wire() == plain && self.is_received_after(
                                before,
                                payload,
                                nonce,
                                offset >= 0,
                                now,
                                res,
                            );
                        self.lemma_received_is_final(before, payload, nonce, offset >= 0, now, res);
                    },
                }
            },
        }
    }

    /// Whether the send window is used up: as many packets are on their way
    /// as the window allows.
    pub open spec fn spec_is_send_blocked(&self) -> bool {
        self.send_array.spec_len() >= self.send_window
    }

    /// Why `data` cannot be sent, if it cannot: the connection is not
    /// established, the data is not fit to be sent, or the send window is
    /// used up.
    pub open spec fn spec_send_error(&self, data: Seq<u8>) -> Option<Error> {
        if !self.spec_is_established() {
            Some(Error::NotEstablished)
        } else if !spec_is_valid_data(data) {
            Some(Error::MalformedPacket)
        } else if self.spec_is_send_blocked() {
            Some(Error::WouldBlock)
        } else {
            None
        }
    }

    /// Whether this connection is `before` after it took `data` from the
    /// application at `now` and gave out `packet` for it: the data has the
    /// sequence number at the end of the send window and is kept in the send
    /// array, and the packet carries it under that number.
    pub open spec fn is_sent_after(
        &self,
        before: &CryptoConnection,
        data: Vec<u8>,
        now: Instant,
        packet: CryptoData,
    ) -> bool {
        let seq = before.send_array.buffer_end;
        &&& before.spec_send_error(data@) is None
        &&& *self == CryptoConnection {
            send_array: self.send_array,
            last_sent_time: Some(now),
            packets_sent: self.packets_sent,
            ..*before
        }
        &&& self.packets_sent == if before.packets_sent == u32::MAX {
            u32::MAX
        } else {
            (before.packets_sent + 1) as u32
        }
        &&& self.send_array@ == before.send_array@.insert(
            seq,
            SentPacket { data, sent_time: now, requested: false },
        )
        &&& self.send_array.buffer_start == before.send_array.buffer_start
        &&& self.send_array.buffer_end == seq.wrapping_add(1)
        &&& packet.wf()
        &&& is_data_packet(
            packet,
            before.spec_session_key()->0,
            before.spec_sent_nonce()->0,
            before.send_array.buffer_start,
            seq,
            spec_data_wire(before.recv_array.buffer_start, seq, data@),
        )
    }

    /// Takes `data` from the application and gives out the packet that
    /// carries it.
    ///
    /// The data gets the sequence number at the end of the send window and
    /// stays in the send array until the peer confirms it. The packet tells
    /// the peer up to which number we have received everything.
    pub fn send_data(&mut self, data: Vec<u8>, now: Instant) -> (res: Result<CryptoData, Error>)
        requires
            old(self).wf(),
        ensures
            final(self).wf(),
            match res {
                Ok(packet) => final(self).is_sent_after(old(self), data, now, packet),
                Err(e) => *final(self) == *old(self) && old(self).spec_send_error(data@) == Some(e),
            },
    {
        let (sent_nonce, key) = match self.status {
            ConnectionStatus::Established { sent_nonce, session_precomputed_key, .. } => (
                sent_nonce,
                session_precomputed_key,
            ),
            _ => { return Err(Error::NotEstablished); },
        };
        if data.len() == 0 || data.len() > MAX_CRYPTO_DATA_SIZE || data[0] == REQUEST_TAG {
            return Err(Error::MalformedPacket);
        }
        if self.send_array.len() >= self.send_window {
            return Err(Error::WouldBlock);
        }
        let seq = self.send_array.buffer_end;
        let packet = make_data_packet(
            &key,
            &sent_nonce,
            self.send_array.buffer_start,
            self.recv_array.buffer_start,
            seq,
            data.as_slice(),
        );
        let inserted = self.send_array.insert(seq, SentPacket::new(data, now));
        assert(inserted is Ok);
        self.last_sent_time = Some(now);
        if self.packets_sent < u32::MAX {
            self.packets_sent += 1;
        }
        Ok(packet)
    }

    /// Whether this connection is `before` after the application asked for
    /// the next piece of data and got `res`: the piece with the first
    /// sequence number of the receive window, where it has come in, and the
    /// window starts behind it from then on.
    pub open spec fn is_polled_after(&self, before: &CryptoConnection, res: Option<Vec<u8>>) -> bool {
        &&& *self == CryptoConnection { recv_array: self.recv_array, ..*before }
        &&& match res {
            Some(data) => {
                let seq = before.recv_array.buffer_start;
                &&& before.recv_array@.contains_key(seq)
                &&& before.recv_array@[seq].data == data
                &&& self.recv_array@ == before.recv_array@.remove(seq)
                &&& self.recv_array.buffer_start == seq.wrapping_add(1)
                &&& self.recv_array.buffer_end == before.recv_array.buffer_end
            },
            None => {
                &&& !before.recv_array@.contains_key(before.recv_array.buffer_start)
                &&& self.recv_array == before.recv_array
            },
        }
    }

    /// Hands the next piece of data to the application, if the piece with
    /// the next sequence number has come in.
    pub fn poll_recv(&mut self) -> (res: Option<Vec<u8>>)
        requires
            old(self).wf(),
        ensures
            final(self).wf(),
            final(self).is_polled_after(old(self), res),
    {
        match self.recv_array.pop_front() {
            Some((_, packet)) => Some(packet.data),
            None => None,
        }
    }
}

/// A piece of data that was taken in is not taken in a second time: where
/// the same data comes in again under the same number, it is refused as a
/// duplicate and the connection stays as it is.
pub proof fn lemma_stored_once(
    first: &CryptoConnection,
    second: &CryptoConnection,
    third: &CryptoConnection,
    packet_number: u32,
    data: Vec<u8>,
    now: Instant,
    later: Instant,
    res: Result<DataKind, Error>,
)
    requires
        second.is_stored_after(first, packet_number, data, now, Ok(DataKind::Data)),
        third.is_stored_after(second, packet_number, data, later, res),
    ensures
        res == Err::<DataKind, Error>(Error::Duplicate),
        *third == *second,
{
}

/// A piece of data that the application has got is not taken in again:
/// where data comes in under the number of the piece that the application
/// got last, it is refused as out of range and the connection stays as it
/// is.
pub proof fn lemma_taken_stays_out(
    before: &CryptoConnection,
    polled: &CryptoConnection,
    after: &CryptoConnection,
    taken: Vec<u8>,
    data: Vec<u8>,
    now: Instant,
    res: Result<DataKind, Error>,
)
    requires
        spec_is_valid_data(data@),
        polled.is_polled_after(before, Some(taken)),
        after.is_stored_after(polled, before.recv_array.buffer_start, data, now, res),
    ensures
        res == Err::<DataKind, Error>(Error::OutOfRange),
        *after == *polled,
{
}

/// What a data packet carried is handed to the application once: where it
/// was taken in as data for the application, taking in the same once more,
/// under whatever nonce and at whatever time, is refused as a duplicate and
/// leaves the receive array as it is.
pub proof fn lemma_received_once(
    first: &CryptoConnection,
    second: &CryptoConnection,
    third: &CryptoConnection,
    payload: CryptoDataPayload,
    packet_nonce: Nonce,
    ahead: bool,
    now: Instant,
    again: CryptoDataPayload,
    later_nonce: Nonce,
    later_ahead: bool,
    later: Instant,
    res: Result<DataKind, Error>,
)
    requires
        again.same(&payload),
        second.is_received_after(first, payload, packet_nonce, ahead, now, Ok(DataKind::Data)),
        third.is_received_after(second, again, later_nonce, later_ahead, later, res),
    ensures
        res == Err::<DataKind, Error>(Error::Duplicate),
        third.recv_array == second.recv_array,
{
    let confirmed = choose|confirmed: CryptoConnection| #[trigger]
        confirmed.is_confirmed_after(first, packet_nonce, ahead) && second.is_taken_in_after(
            &confirmed,
            payload,
            now,
            Ok(DataKind::Data),
        );
    let acknowledged = choose|acknowledged: CryptoConnection| #[trigger]
        acknowledged.is_acknowledged_after(&confirmed, payload.buffer_start, now)
            && second.is_stored_after(
            &acknowledged,
            payload.packet_number,
            payload.data,
            now,
            Ok(DataKind::Data),
        );
    assert(second.send_array.buffer_start == payload.buffer_start);
    assert(second.spec_session() is Some);
    let repeated = choose|repeated: CryptoConnection| #[trigger]
        repeated.is_confirmed_after(second, later_nonce, later_ahead) && third.is_taken_in_after(
            &repeated,
            again,
            later,
            res,
        );
    assert(repeated.spec_confirms_sent(again.buffer_start));
    let acknowledged_again = choose|acknowledged: CryptoConnection| #[trigger]
        acknowledged.is_acknowledged_after(&repeated, again.buffer_start, later)
            && third.is_stored_after(
            &acknowledged,
            again.packet_number,
            again.data,
            later,
            res,
        );
    assert(acknowledged_again.recv_array == second.recv_array);
}

/// Taking in data for the application leaves the connection with the key
/// of its session, and with the nonce to go on from that the packet's nonce
/// asks for.
pub proof fn lemma_received_keeps_session(
    after: &CryptoConnection,
    before: &CryptoConnection,
    payload: CryptoDataPayload,
    packet_nonce: Nonce,
    ahead: bool,
    now: Instant,
)
    requires
        before.spec_session() is Some,
        after.is_received_after(before, payload, packet_nonce, ahead, now, Ok(DataKind::Data)),
    ensures
        after.spec_session() is Some,
        after.spec_session()->0.session_precomputed_key
            == before.spec_session()->0.session_precomputed_key,
        ahead ==> be_value(after.spec_session()->0.received_nonce@) == spec_nonce_add(
            packet_nonce,
            1,
        ),
        !ahead ==> after.spec_session()->0.received_nonce
            == before.spec_session()->0.received_nonce,
{
    let confirmed = choose|confirmed: CryptoConnection| #[trigger]
        confirmed.is_confirmed_after(before, packet_nonce, ahead) && after.is_taken_in_after(
            &confirmed,
            payload,
            now,
            Ok(DataKind::Data),
        );
    let acknowledged = choose|acknowledged: CryptoConnection| #[trigger]
        acknowledged.is_acknowledged_after(&confirmed, payload.buffer_start, now)
            && after.is_stored_after(
            &acknowledged,
            payload.packet_number,
            payload.data,
            now,
            Ok(DataKind::Data),
        );
    assert(after.status == acknowledged.status);
}

/// The nonce of a packet is found again after the packet was opened: where
/// `nonce` is the nearest nonce to `base` that ends in the two bytes `hint`,
/// and `moved` is the nonce to go on from after a packet was opened under
/// `nonce`, the nearest nonce to `moved` that ends in `hint` is `nonce`.
pub proof fn lemma_nearest_nonce_is_kept(base: Nonce, hint: u16, nonce: Nonce, moved: Nonce)
    requires
        be_value(nonce@) == spec_nonce_add(base, spec_nonce_offset(base, hint)),
        spec_nonce_offset(base, hint) >= 0 ==> be_value(moved@) == spec_nonce_add(nonce, 1),
        spec_nonce_offset(base, hint) < 0 ==> moved == base,
    ensures
        spec_nonce_add(moved, spec_nonce_offset(moved, hint)) == be_value(nonce@),
{
    let offset = spec_nonce_offset(base, hint);
    lemma_nonce_moved(base, nonce, offset);
    assert(spec_nonce_last_bytes(nonce) == hint) by {
        lemma_nonce_offset_hits(base, hint);
    }
    lemma_be_value_bound(nonce@);
    lemma_be_value_bound(moved@);
    lemma_be_value_low(nonce@);
    if offset >= 0 {
        lemma_nonce_moved(nonce, moved, 1);
        assert(spec_nonce_offset(moved, hint) == -1);
        lemma_nonce_add_back(nonce, moved, 1);
    }
}

/// Feeding the same data packet twice hands its data to the application
/// once: where a data packet was opened and what it carried was taken in as
/// data for the application, the same packet, when it comes in once more,
/// opens under the same nonce, is refused as a duplicate and leaves the
/// receive array as it is.
pub proof fn lemma_data_handled_once(
    first: &CryptoConnection,
    second: &CryptoConnection,
    third: &CryptoConnection,
    packet: CryptoData,
    now: Instant,
    later: Instant,
    res: Result<DataKind, Error>,
)
    requires
        second.is_data_handled_after(first, packet, now, Ok(DataKind::Data)),
        third.is_data_handled_after(second, packet, later, res),
    ensures
        res == Err::<DataKind, Error>(Error::Duplicate),
        third.recv_array == second.recv_array,
{
    let session = first.spec_session()->0;
    let hint = packet.nonce_last_bytes;
    let offset = spec_nonce_offset(session.received_nonce, hint);
    let ahead = offset >= 0;
    let nonce = choose|nonce: Nonce| #[trigger]
        be_value(nonce@) == spec_nonce_add(session.received_nonce, offset)
            && match packet.spec_get_payload(session.session_precomputed_key@, nonce) {
            Err(e) => false,
            Ok(plain) => exists|payload: CryptoDataPayload| #[trigger]
                payload.wire() == plain && second.is_received_after(
                    first,
                    payload,
                    nonce,
                    ahead,
                    now,
                    Ok(DataKind::Data),
                ),
        };
    let plain = packet.spec_get_payload(session.session_precomputed_key@, nonce)->Ok_0;
    let payload = choose|payload: CryptoDataPayload| #[trigger]
        payload.wire() == plain && second.is_received_after(
            first,
            payload,
            nonce,
            ahead,
            now,
            Ok(DataKind::Data),
        );
    lemma_received_keeps_session(second, first, payload, nonce, ahead, now);
    let moved = second.spec_session()->0;
    lemma_nearest_nonce_is_kept(session.received_nonce, hint, nonce, moved.received_nonce);
    // the packet opens under the same nonce once more
    let again_offset = spec_nonce_offset(moved.received_nonce, hint);
    let again_ahead = again_offset >= 0;
    let again_nonce = choose|again_nonce: Nonce| #[trigger]
        be_value(again_nonce@) == spec_nonce_add(moved.received_nonce, again_offset)
            && match packet.spec_get_payload(moved.session_precomputed_key@, again_nonce) {
            Err(e) => res == Err::<DataKind, Error>(e) && *third == *second,
            Ok(plain) => exists|payload: CryptoDataPayload| #[trigger]
                payload.wire() == plain && third.is_received_after(
                    second,
                    payload,
                    again_nonce,
                    again_ahead,
                    later,
                    res,
                ),
        };
    again_nonce.lemma_same_value(&nonce);
    let again = choose|again: CryptoDataPayload| #[trigger]
        again.wire() == plain && third.is_received_after(
            second,
            again,
            again_nonce,
            again_ahead,
            later,
            res,
        );
    again.lemma_wire_injective(&payload);
    lemma_received_once(
        first,
        second,
        third,
        payload,
        nonce,
        ahead,
        now,
        again,
        again_nonce,
        again_ahead,
        later,
        res,
    );
}

} // verus!
