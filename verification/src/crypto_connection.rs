//! The state of one secure connection to a peer.
//!
//! A connection starts by asking the peer for a cookie, goes on to send a
//! handshake packet with that cookie, and is established once the peer's
//! handshake packet and its first data packet have come in. A peer whose
//! handshake packet reaches us first gets a connection that starts half way.

use vstd::prelude::*;
use crate::binary_io::{spec_u64_from_le_bytes, ToBytes};
use crate::cookie::{Cookie, CookieKeys, EncryptedCookie, COOKIE_TIMEOUT};
use crate::cookie_request::{CookieRequest, CookieRequestPayload};
use crate::crypto_core::{
    gen_keypair, gen_nonce, precompute, random_u64, spec_hash512, spec_precompute, spec_seal,
    Digest, Nonce, PrecomputedKey, PublicKey, SecretKey,
};
use crate::crypto_handshake::{CryptoHandshake, CryptoHandshakePayload};
use crate::error::Error;
use crate::ip_addr::SocketAddr;
use crate::packet::Packet;
use crate::packets_array::{PacketsArray, PACKETS_ARRAY_SIZE};
use crate::request::spec_is_valid_data;
use crate::secretbox;
use crate::time::{Duration, Instant, NANOS_PER_MILLI, NANOS_PER_SEC};

verus! {

/// How often in seconds `CookieRequest` or `CryptoHandshake` packets should be
/// sent
pub const CRYPTO_SEND_PACKET_INTERVAL: u64 = 1;

/// The maximum number of times we try to send the cookie request and handshake
/// before giving up
pub const MAX_NUM_SENDPACKET_TRIES: u8 = 8;

/// If we don't receive UDP packets for this amount of time in seconds the
/// direct UDP connection is considered dead
pub const UDP_DIRECT_TIMEOUT: u64 = 8;

/// Default rtt in milliseconds
pub const DEFAULT_RTT: u64 = 1000;

/// rtt in milliseconds for TCP connections
pub const TCP_RTT: u64 = 500;

/// The number of packets that may be on their way before the first of them
/// is confirmed, when a connection starts
pub const INITIAL_SEND_WINDOW: u32 = 8;

/// How a packet reaches a peer.
#[derive(Clone, Copy, Debug, PartialEq, Eq)]
pub enum Endpoint {
    /// Directly by UDP, at an address.
    Udp(SocketAddr),
    /// Through a TCP relay, to the peer with a DHT key.
    TcpRelay {
        /// Which relay.
        relay_id: u64,
        /// DHT public key of the peer behind the relay.
        dest_dht_pk: PublicKey,
    },
}

/// Packet that should be sent every second. Depending on `ConnectionStatus` it
/// can be `CookieRequest` or `CryptoHandshake`
#[derive(Clone, Debug, PartialEq, Eq)]
pub enum StatusPacketEnum {
    /// `CookieRequest` packet
    CookieRequest(CookieRequest),
    /// `CryptoHandshake` packet
    CryptoHandshake(CryptoHandshake),
}

/// Packet that should be sent to the peer every second together with info how
/// many times it was sent and when it was sent last time
#[derive(Clone, Debug, PartialEq, Eq)]
pub struct StatusPacket {
    /// Packet that should be sent every second. Depending on `ConnectionStatus`
    /// it can be `CookieRequest` or `CryptoHandshake`
    pub packet: StatusPacketEnum,
    /// When packet was sent last time
    pub sent_time: Instant,
    /// How many times packet was sent
    pub num_sent: u8,
}

impl StatusPacket {
    /// The packet was sent no more often than it may be tried.
    pub open spec fn wf(&self) -> bool {
        self.num_sent <= MAX_NUM_SENDPACKET_TRIES
    }

    /// Create new `StatusPacket` with `CookieRequest` packet
    pub fn new_cookie_request(packet: CookieRequest, now: Instant) -> (status: StatusPacket)
        ensures
            status == (StatusPacket {
                packet: StatusPacketEnum::CookieRequest(packet),
                sent_time: now,
                num_sent: 0,
            }),
    {
        StatusPacket { packet: StatusPacketEnum::CookieRequest(packet), sent_time: now, num_sent: 0 }
    }

    /// Create new `StatusPacket` with `CryptoHandshake` packet
    pub fn new_crypto_handshake(packet: CryptoHandshake, now: Instant) -> (status: StatusPacket)
        ensures
            status == (StatusPacket {
                packet: StatusPacketEnum::CryptoHandshake(packet),
                sent_time: now,
                num_sent: 0,
            }),
    {
        StatusPacket {
            packet: StatusPacketEnum::CryptoHandshake(packet),
            sent_time: now,
            num_sent: 0,
        }
    }

    /// The bytes of the packet that should be sent every second.
    pub open spec fn spec_wire(&self) -> Seq<u8> {
        match self.packet {
            StatusPacketEnum::CookieRequest(p) => p.wire(),
            StatusPacketEnum::CryptoHandshake(p) => p.wire(),
        }
    }

    /// Get `Packet` that should be sent every second
    pub fn dht_packet(&self) -> (packet: Packet)
        ensures
            match self.packet {
                StatusPacketEnum::CookieRequest(p) => packet matches Packet::CookieRequest(q)
                    && q.same(&p),
                StatusPacketEnum::CryptoHandshake(p) => packet matches Packet::CryptoHandshake(q)
                    && q.same(&p),
            },
            packet.wire() == self.spec_wire(),
    {
        match self.packet {
            StatusPacketEnum::CookieRequest(ref packet) => Packet::CookieRequest(
                packet.duplicate(),
            ),
            StatusPacketEnum::CryptoHandshake(ref packet) => Packet::CryptoHandshake(
                packet.duplicate(),
            ),
        }
    }

    /// A copy of this packet with its counters.
    pub fn duplicate(&self) -> (copy: StatusPacket)
        ensures
            copy.sent_time == self.sent_time,
            copy.num_sent == self.num_sent,
            copy.spec_wire() == self.spec_wire(),
            match (self.packet, copy.packet) {
                (StatusPacketEnum::CookieRequest(p), StatusPacketEnum::CookieRequest(q)) => q.same(
                    &p,
                ),
                (
                    StatusPacketEnum::CryptoHandshake(p),
                    StatusPacketEnum::CryptoHandshake(q),
                ) => q.same(&p),
                _ => false,
            },
    {
        let packet = match self.packet {
            StatusPacketEnum::CookieRequest(ref packet) => StatusPacketEnum::CookieRequest(
                packet.duplicate(),
            ),
            StatusPacketEnum::CryptoHandshake(ref packet) => StatusPacketEnum::CryptoHandshake(
                packet.duplicate(),
            ),
        };
        StatusPacket { packet, sent_time: self.sent_time, num_sent: self.num_sent }
    }

    /// Whether more than one second has passed at `now` since the packet was
    /// sent last.
    pub open spec fn spec_is_time_elapsed(&self, now: Instant) -> bool {
        now.spec_since(self.sent_time) > CRYPTO_SEND_PACKET_INTERVAL * NANOS_PER_SEC
    }

    /// Check if one second is elapsed since last time when the packet was sent
    fn is_time_elapsed(&self, now: Instant) -> (elapsed: bool)
        ensures
            elapsed == self.spec_is_time_elapsed(now),
    {
        now.duration_since(self.sent_time).nanos > Duration::from_secs(
            CRYPTO_SEND_PACKET_INTERVAL,
        ).nanos
    }

    /// Whether the packet should be sent at `now`: it was never sent, or it
    /// was sent fewer than 8 times and more than one second ago.
    pub open spec fn spec_should_be_sent(&self, now: Instant) -> bool {
        self.num_sent == 0 || (self.spec_is_time_elapsed(now) && self.num_sent
            < MAX_NUM_SENDPACKET_TRIES)
    }

    /// Check if packet should be sent to the peer
    pub fn should_be_sent(&self, now: Instant) -> (send: bool)
        ensures
            send == self.spec_should_be_sent(now),
    {
        self.num_sent == 0 || self.is_time_elapsed(now) && self.num_sent < MAX_NUM_SENDPACKET_TRIES
    }

    /// Whether the packet has been sent 8 times or more and the last time was
    /// more than one second before `now`.
    pub open spec fn spec_is_timed_out(&self, now: Instant) -> bool {
        self.num_sent >= MAX_NUM_SENDPACKET_TRIES && self.spec_is_time_elapsed(now)
    }

    /// Check if we didn't receive response to this packet on time
    pub fn is_timed_out(&self, now: Instant) -> (timed_out: bool)
        ensures
            timed_out == self.spec_is_timed_out(now),
    {
        self.num_sent >= MAX_NUM_SENDPACKET_TRIES && self.is_time_elapsed(now)
    }

    /// This packet after it was sent once more, at `now`.
    pub open spec fn spec_sent(self, now: Instant) -> StatusPacket {
        StatusPacket { packet: self.packet, sent_time: now, num_sent: (self.num_sent + 1) as u8 }
    }

    /// Gives the packet out for sending if it should be sent at `now`, and
    /// counts the sending.
    pub fn take_to_send(&mut self, now: Instant) -> (res: Option<Packet>)
        ensures
            old(self).wf() ==> final(self).wf(),
            match res {
                Some(packet) => {
                    &&& old(self).spec_should_be_sent(now)
                    &&& *final(self) == old(self).spec_sent(now)
                    &&& packet.wire() == old(self).spec_wire()
                },
                None => !old(self).spec_should_be_sent(now) && *final(self) == *old(self),
            },
    {
        if self.should_be_sent(now) {
            self.num_sent += 1;
            self.sent_time = now;
            Some(self.dht_packet())
        } else {
            None
        }
    }
}

/** Status of crypto connection.

Initial state is `CookieRequesting`. In this status we send up to 8
`CookieRequest` packets every second and waiting for a `CookieResponse` packet.
After receiving a `CookieResponse` packet we change the status to
`HandshakeSending` in which we send up to 8 `CryptoHandshake` packets every
second and waiting for `CryptoHandshake` packet from the other side. When we
received `CryptoHandshake` packet we change the status to `NotConfirmed` and
continue sending `CryptoHandshake` packets because we don't know if the other
side received our `CryptoHandshake` packet. Only after receiving first
`CryptoData` packet we change status to `Established` and stop sending
`CryptoHandshake` packets. In this status connection is considered as fully
established.

It's also possible that we received `CryptoHandshake` packet but didn't create
crypto connection yet. This means that we should skip first two states and use
`NotConfirmed` state as initial. We can do it because `CryptoHandshake` contains
`Cookie` that we can use to send our `CryptoHandshake`.

*/
#[derive(Clone, Debug, PartialEq, Eq)]
pub enum ConnectionStatus {
    /// We are sending cookie request packets and haven't received cookie
    /// response yet.
    CookieRequesting {
        /// ID used in the cookie request packets for this connection
        cookie_request_id: u64,
        /// Packet that should be sent every second
        packet: StatusPacket,
    },
    /// We are sending handshake packets and haven't received handshake from the
    /// other side yet.
    HandshakeSending {
        /// Nonce that should be used to encrypt outgoing packets
        sent_nonce: Nonce,
        /// Packet that should be sent every second
        packet: StatusPacket,
    },
    /// A handshake packet has been received from the other side but no
    /// encrypted packets. Continue sending handshake packets because we can't
    /// know if the other side has received them.
    NotConfirmed {
        /// Nonce that should be used to encrypt outgoing packets
        sent_nonce: Nonce,
        /// Nonce that should be used to decrypt incoming packets
        received_nonce: Nonce,
        /// `PublicKey` of the other side for this session
        peer_session_pk: PublicKey,
        /// `PrecomputedKey` for this session that is used to encrypt and
        /// decrypt data packets
        session_precomputed_key: PrecomputedKey,
        /// Packet that should be sent every second
        packet: StatusPacket,
    },
    /// A valid encrypted packet has been received from the other side.
    /// Connection is fully established.
    Established {
        /// Nonce that should be used to encrypt outgoing packets
        sent_nonce: Nonce,
        /// Nonce that should be used to decrypt incoming packets
        received_nonce: Nonce,
        /// `PublicKey` of the other side for this session
        peer_session_pk: PublicKey,
        /// `PrecomputedKey` for this session that is used to encrypt and
        /// decrypt data packets
        session_precomputed_key: PrecomputedKey,
    },
}

impl ConnectionStatus {
    /// The packet that this status keeps sending, if it keeps sending one.
    pub open spec fn spec_packet(&self) -> Option<StatusPacket> {
        match self {
            ConnectionStatus::CookieRequesting { packet, .. } => Some(*packet),
            ConnectionStatus::HandshakeSending { packet, .. } => Some(*packet),
            ConnectionStatus::NotConfirmed { packet, .. } => Some(*packet),
            ConnectionStatus::Established { .. } => None,
        }
    }

    /// This status with `new_packet` in the place of the packet that it keeps sending.
    pub open spec fn spec_with_packet(self, new_packet: StatusPacket) -> ConnectionStatus {
        match self {
            ConnectionStatus::CookieRequesting { cookie_request_id, packet } => {
                ConnectionStatus::CookieRequesting { cookie_request_id, packet: new_packet }
            },
            ConnectionStatus::HandshakeSending { sent_nonce, packet } => {
                ConnectionStatus::HandshakeSending { sent_nonce, packet: new_packet }
            },
            ConnectionStatus::NotConfirmed {
                sent_nonce,
                received_nonce,
                peer_session_pk,
                session_precomputed_key,
                packet,
            } => ConnectionStatus::NotConfirmed {
                sent_nonce,
                received_nonce,
                peer_session_pk,
                session_precomputed_key,
                packet: new_packet,
      },
            ConnectionStatus::Established { .. } => self,
        }
    }

    /// Whether this is the status of a connection that was opened at `now`
    /// by us: it asks for a cookie with a request that was not sent yet, in
    /// the name of `dht_pk`, with `real_pk` and the request id under the seal
    /// of `dht_precomputed_key`.
    pub open spec fn is_first_request(
        &self,
        dht_pk: PublicKey,
        real_pk: PublicKey,
        dht_precomputed_key: PrecomputedKey,
        now: Instant,
    ) -> bool {
        match self {
            ConnectionStatus::CookieRequesting { cookie_request_id, packet } => {
                &&& packet.sent_time == now
                &&& packet.num_sent == 0
                &&& match packet.packet {
                    StatusPacketEnum::CookieRequest(request) => {
                        &&& request.wf()
                        &&& request.pk == dht_pk
                        &&& request.payload@ == spec_seal(
                            (CookieRequestPayload { pk: real_pk, id: *cookie_request_id }).wire(),
                            request.nonce@,
                            dht_precomputed_key@,
                        )
                    },
                    _ => false,
                }
            },
            _ => false,
        }
    }

    /// Whether this is the status of a connection that was opened at `now`
    /// on a handshake packet of the peer: it holds what the peer announced,
    /// the session key that follows from it, and a handshake packet of ours
    /// that was not sent yet.
    pub open spec fn is_first_handshake(
        &self,
        dht_precomputed_key: PrecomputedKey,
        session_pk: PublicKey,
        session_sk: SecretKey,
        peer_real_pk: PublicKey,
        peer_dht_pk: PublicKey,
        peer_nonce: Nonce,
        peer_key: PublicKey,
        cookie: Seq<u8>,
        symmetric_key: secretbox::Key,
        now: Instant,
    ) -> bool {
        match self {
            ConnectionStatus::NotConfirmed {
                sent_nonce,
                received_nonce,
                peer_session_pk,
                session_precomputed_key,
                packet,
            } => {
                &&& *received_nonce == peer_nonce
                &&& *peer_session_pk == peer_key
                &&& session_precomputed_key@ == spec_precompute(peer_key@, session_sk@)
                &&& packet.sent_time == now
                &&& packet.num_sent == 0
                &&& match packet.packet {
                    StatusPacketEnum::CryptoHandshake(handshake) => is_handshake_for(
                        handshake,
                        dht_precomputed_key,
                        session_pk,
                        peer_real_pk,
                        peer_dht_pk,
                        *sent_nonce,
                        cookie,
                        symmetric_key,
                        now,
                    ),
                    _ => false,
                }
            },
            _ => false,
        }
    }

    /// The packet that this status keeps sending was sent no more often than
    /// it may be tried.
    pub open spec fn wf(&self) -> bool {
        match self.spec_packet() {
            Some(packet) => packet.wf(),
            None => true,
        }
    }
}

/// Sent but not confirmed data packet that is stored in `PacketsArray`
#[derive(Clone, Debug, PartialEq, Eq)]
pub struct SentPacket {
    /// Packet data
    pub data: Vec<u8>,
    /// Time when we sent this packet last time
    pub sent_time: Instant,
    /// True if a request was received for this packet and rtt was elapsed at
    /// that moment
    pub requested: bool,
}

impl SentPacket {
    /// Create new `SentPacket`
    pub fn new(data: Vec<u8>, now: Instant) -> (packet: SentPacket)
        ensures
            packet == (SentPacket { data, sent_time: now, requested: false }),
    {
        SentPacket { data, sent_time: now, requested: false }
    }
}

/// Received but not handled data packet that is stored in `PacketsArray`
#[derive(Clone, Debug, PartialEq, Eq)]
pub struct RecvPacket {
    /// Packet data
    pub data: Vec<u8>,
}

impl RecvPacket {
    /// Create new `RecvPacket`
    pub fn new(data: Vec<u8>) -> (packet: RecvPacket)
        ensures
            packet == (RecvPacket { data }),
    {
        RecvPacket { data }
    }
}

/** Secure connection to send data between two friends that provides encryption,
ordered delivery, and perfect forward secrecy.

It can use both UDP and TCP (over relays) transport protocols to send data and
can switch between them without the peers needing to disconnect and reconnect.

*/
#[derive(Clone, Debug, PartialEq, Eq)]
pub struct CryptoConnection {
    /// Precomputed key of our DHT `SecretKey` and peer's DHT `PublicKey`
    pub dht_precomputed_key: PrecomputedKey,
    /// Long term `PublicKey` of the peer we are connected to
    pub peer_real_pk: PublicKey,
    /// DHT `PublicKey` of the peer we are connected to
    pub peer_dht_pk: PublicKey,
    /// `SecretKey` for this session
    pub session_sk: SecretKey,
    /// `PublicKey` for this session
    pub session_pk: PublicKey,
    /// Current connection status
    pub status: ConnectionStatus,
    /// Address to send UDP packets directly to the peer
    pub udp_addr: Option<SocketAddr>,
    /// Time when last UDP packet was received
    pub udp_received_time: Option<Instant>,
    /// Time when we made an attempt to send UDP packet
    pub udp_send_attempt_time: Option<Instant>,
    /// Buffer of sent packets
    pub send_array: PacketsArray<SentPacket>,
    /// Buffer of received packets
    pub recv_array: PacketsArray<RecvPacket>,
    /// Round trip time - the lowest (for all packets) difference between time
    /// when a packet was sent and time when we received the confirmation
    pub rtt: Duration,
    /// The TCP relay through which the peer can be reached, if one is known
    pub tcp_relay: Option<u64>,
    /// How many packets may be on their way before the first of them is
    /// confirmed
    pub send_window: u32,
    /// How many data packets were sent for the first time since
    /// `congestion_time`
    pub packets_sent: u32,
    /// How many data packets were sent again since `congestion_time`
    pub packets_resent: u32,
    /// When the loss of packets was last weighed
    pub congestion_time: Instant,
    /// When a data packet was sent last
    pub last_sent_time: Option<Instant>,
    /// When the connection was last driven by the timer
    pub last_tick_time: Instant,
}

/// What a handshake packet carries under its seal when it is made for a peer:
/// the base nonce, the session key, the digest of the cookie that the peer
/// made, and a cookie of ours, sealed at `cookie.time` under `symmetric_key`
/// with the nonce `cookie_nonce`.
pub open spec fn spec_handshake_plain(
    base_nonce: Nonce,
    session_pk: PublicKey,
    peer_cookie: Seq<u8>,
    cookie: Cookie,
    cookie_nonce: secretbox::Nonce,
    symmetric_key: secretbox::Key,
) -> Seq<u8> {
    base_nonce@ + session_pk@ + spec_hash512(peer_cookie) + (cookie_nonce@ + secretbox::spec_seal(
        cookie.wire(),
        cookie_nonce@,
        symmetric_key@,
    ))
}

/// Whether `handshake` is a handshake packet for the peer with the keys
/// `peer_real_pk` and `peer_dht_pk`, made at `now`: it carries the cookie
/// of the peer with the bytes `cookie`, and under its seal the base nonce
/// `sent_nonce`, the session key `session_pk`, the digest of `cookie` and a
/// cookie of ours.
pub open spec fn is_handshake_for(
    handshake: CryptoHandshake,
    dht_precomputed_key: PrecomputedKey,
    session_pk: PublicKey,
    peer_real_pk: PublicKey,
    peer_dht_pk: PublicKey,
    sent_nonce: Nonce,
    cookie: Seq<u8>,
    symmetric_key: secretbox::Key,
    now: Instant,
) -> bool {
    &&& handshake.cookie.wire() == cookie
    &&& handshake.payload@.len() == crate::crypto_handshake::CRYPTO_HANDSHAKE_SEALED_SIZE
    &&& exists|cookie_nonce: secretbox::Nonce|
        handshake.payload@ == spec_seal(
            #[trigger] spec_handshake_plain(
                sent_nonce,
                session_pk,
                cookie,
                Cookie { real_pk: peer_real_pk, dht_pk: peer_dht_pk, time: now.nanos },
                cookie_nonce,
                symmetric_key,
            ),
            handshake.nonce@,
            dht_precomputed_key@,
        )
}

/// Makes the handshake packet that we send to the peer with the keys
/// `peer_real_pk` and `peer_dht_pk`.
pub fn make_handshake(
    dht_precomputed_key: &PrecomputedKey,
    session_pk: PublicKey,
    peer_real_pk: PublicKey,
    peer_dht_pk: PublicKey,
    sent_nonce: Nonce,
    cookie: EncryptedCookie,
    symmetric_key: &secretbox::Key,
    now: Instant,
) -> (handshake: CryptoHandshake)
    ensures
        handshake.cookie == cookie,
        is_handshake_for(
            handshake,
            *dht_precomputed_key,
            session_pk,
            peer_real_pk,
            peer_dht_pk,
            sent_nonce,
            cookie.wire(),
            *symmetric_key,
            now,
        ),
{
    let our_cookie = Cookie::new(peer_real_pk, peer_dht_pk, now);
    let our_encrypted_cookie = EncryptedCookie::new(symmetric_key, &our_cookie);
    let ghost cookie_nonce = our_encrypted_cookie.nonce;
    let handshake_payload = CryptoHandshakePayload {
        base_nonce: sent_nonce,
        session_pk,
        cookie_hash: cookie.hash(),
        cookie: our_encrypted_cookie,
    };
    let handshake = CryptoHandshake::new(dht_precomputed_key, &handshake_payload, cookie);
    proof {
        assert(handshake_payload.wire() =~= spec_handshake_plain(
            sent_nonce,
            session_pk,
            cookie.wire(),
            our_cookie,
            cookie_nonce,
            *symmetric_key,
        ));
    }
    handshake
}

/// Why a handshake packet from the peer with the keys `peer_real_pk` and
/// `peer_dht_pk` is refused at `now`, or the bytes of what it carries.
///
/// The packet has to open under `dht_precomputed_key`. The cookie that
/// travels with it has to open under `keys`, to be no older than 15 seconds
/// and to name the two keys of the peer. What the packet carries has to hold
/// the digest of that cookie.
pub open spec fn spec_validate_handshake(
    packet: CryptoHandshake,
    dht_precomputed_key: Seq<u8>,
    keys: CookieKeys,
    peer_real_pk: Seq<u8>,
    peer_dht_pk: Seq<u8>,
    now: Instant,
) -> Result<Seq<u8>, Error> {
    match packet.spec_get_payload(dht_precomputed_key) {
        Err(e) => Err(e),
        Ok(plain) => match keys.spec_open(&packet.cookie) {
            Err(e) => Err(e),
            Ok(cookie) => if now.nanos > spec_u64_from_le_bytes(cookie.subrange(64, 72))
                + COOKIE_TIMEOUT * NANOS_PER_SEC {
                Err(Error::CookieExpired)
            } else if cookie.subrange(0, 32) != peer_real_pk || cookie.subrange(32, 64)
                != peer_dht_pk {
                Err(Error::CookieMismatch)
            } else if spec_hash512(packet.cookie.wire()) != plain.subrange(56, 120) {
                Err(Error::CookieMismatch)
            } else {
                Ok(plain)
            },
        },
    }
}

/// Checks a handshake packet that claims to come from the peer with the keys
/// `peer_real_pk` and `peer_dht_pk`, and gives out what it carries.
pub fn validate_handshake(
    packet: &CryptoHandshake,
    dht_precomputed_key: &PrecomputedKey,
    keys: &CookieKeys,
    peer_real_pk: &PublicKey,
    peer_dht_pk: &PublicKey,
    now: Instant,
) -> (res: Result<CryptoHandshakePayload, Error>)
    ensures
        match res {
            Ok(payload) => payload.wf() && spec_validate_handshake(
                *packet,
                dht_precomputed_key@,
                *keys,
                peer_real_pk@,
                peer_dht_pk@,
                now,
            ) == Ok::<Seq<u8>, Error>(payload.wire()),
            Err(e) => spec_validate_handshake(
                *packet,
                dht_precomputed_key@,
                *keys,
                peer_real_pk@,
                peer_dht_pk@,
                now,
            ) == Err::<Seq<u8>, Error>(e),
        },
{
    let payload = match packet.get_payload(dht_precomputed_key) {
        Ok(payload) => payload,
        Err(e) => { return Err(e); },
    };
    let cookie = match keys.open(&packet.cookie) {
        Ok(cookie) => cookie,
        Err(e) => { return Err(e); },
    };
    proof {
        crate::binary_io::lemma_u64_le_round_trip();
        let w = cookie.wire();
        assert(w.subrange(0, 32) =~= cookie.real_pk@);
        assert(w.subrange(32, 64) =~= cookie.dht_pk@);
        assert(w.subrange(64, 72) =~= crate::binary_io::spec_u64_to_le_bytes(cookie.time));
        assert(payload.wire().subrange(56, 120) =~= payload.cookie_hash@);
        if cookie.real_pk@ == peer_real_pk@ {
            cookie.real_pk.lemma_same_bytes(peer_real_pk);
        }
        if cookie.dht_pk@ == peer_dht_pk@ {
            cookie.dht_pk.lemma_same_bytes(peer_dht_pk);
        }
    }
    let digest = packet.cookie.hash();
    proof {
        if digest@ == payload.cookie_hash@ {
            digest.lemma_same_bytes(&payload.cookie_hash);
        }
    }
    match check_handshake(
        &cookie,
        &digest,
        &payload.cookie_hash,
        peer_real_pk,
        peer_dht_pk,
        now,
    ) {
        Ok(()) => Ok(payload),
        Err(e) => Err(e),
    }
}

/// Why a handshake packet of the peer with the keys `peer_real_pk` and
/// `peer_dht_pk` is refused at `now` once it and its cookie are open, if it
/// is refused: the cookie `cookie` is older than 15 seconds
/// (`CookieExpired`), it names other keys than those of the peer, or the
/// digest `announced` that the packet carries is not the digest `digest` of
/// the cookie (`CookieMismatch`).
pub open spec fn spec_check_handshake(
    cookie: Cookie,
    digest: Digest,
    announced: Digest,
    peer_real_pk: PublicKey,
    peer_dht_pk: PublicKey,
    now: Instant,
) -> Option<Error> {
    if cookie.spec_is_timed_out(now) {
        Some(Error::CookieExpired)
    } else if cookie.real_pk != peer_real_pk || cookie.dht_pk != peer_dht_pk {
        Some(Error::CookieMismatch)
    } else if digest != announced {
        Some(Error::CookieMismatch)
    } else {
        None
    }
}

/// Checks what a handshake packet of the peer with the keys `peer_real_pk`
/// and `peer_dht_pk` says, once the packet and its cookie are open.
pub fn check_handshake(
    cookie: &Cookie,
    digest: &Digest,
    announced: &Digest,
    peer_real_pk: &PublicKey,
    peer_dht_pk: &PublicKey,
    now: Instant,
) -> (res: Result<(), Error>)
    ensures
        match res {
            Ok(()) => spec_check_handshake(
                *cookie,
                *digest,
                *announced,
                *peer_real_pk,
                *peer_dht_pk,
                now,
            ) is None,
            Err(e) => spec_check_handshake(
                *cookie,
                *digest,
                *announced,
                *peer_real_pk,
                *peer_dht_pk,
                now,
            ) == Some(e),
        },
{
    if cookie.is_timed_out(now) {
        return Err(Error::CookieExpired);
    }
    if !cookie.real_pk.same_as(peer_real_pk) || !cookie.dht_pk.same_as(peer_dht_pk) {
        return Err(Error::CookieMismatch);
    }
    if !digest.same_as(announced) {
        return Err(Error::CookieMismatch);
    }
    Ok(())
}

impl CryptoConnection {
    /// Both arrays are well formed, and so is the status. The send window
    /// allows one packet at least and no more than the send array holds.
    /// Every piece of data in the send array is fit to be sent.
    pub open spec fn wf(&self) -> bool {
        &&& self.status.wf()
        &&& self.send_array.wf()
        &&& self.recv_array.wf()
        &&& 1 <= self.send_window <= PACKETS_ARRAY_SIZE
        &&& forall|seq: u32| #[trigger]
            self.send_array@.contains_key(seq) ==> spec_is_valid_data(self.send_array@[seq].data@)
    }

    /// Whether the connection is well formed.
    pub fn is_wf(&self) -> (ok: bool)
        ensures
            ok == self.wf(),
    {
        let tries = match self.status {
            ConnectionStatus::CookieRequesting { ref packet, .. } => packet.num_sent,
            ConnectionStatus::HandshakeSending { ref packet, .. } => packet.num_sent,
            ConnectionStatus::NotConfirmed { ref packet, .. } => packet.num_sent,
            ConnectionStatus::Established { .. } => 0,
        };
        if tries > MAX_NUM_SENDPACKET_TRIES || !self.send_array.is_wf() || !self.recv_array.is_wf()
            || self.send_window < 1 || self.send_window > PACKETS_ARRAY_SIZE {
            return false;
        }
        let start = self.send_array.buffer_start;
        let len = self.send_array.len();
        let mut d: u32 = 0;
        while d < len
            invariant
                d <= len,
                len == self.send_array.spec_len(),
                start == self.send_array.buffer_start,
                self.send_array.wf(),
                forall|seq: u32| #[trigger]
                    self.send_array@.contains_key(seq) && seq.wrapping_sub(start) < d
                        ==> spec_is_valid_data(self.send_array@[seq].data@),
            decreases len - d,
        {
            match self.send_array.get(start.wrapping_add(d)) {
                Some(packet) => {
                    if packet.data.len() == 0 || packet.data.len()
                        > crate::crypto_data::MAX_CRYPTO_DATA_SIZE || packet.data[0]
                        == crate::request::REQUEST_TAG {
                        return false;
                    }
                },
                None => {},
            }
            d += 1;
        }
        true
    }

    /// In a well-formed connection, the packet of the handshake that the
    /// connection keeps sending has been sent 8 times at most.
    pub proof fn lemma_tries_are_bounded(&self)
        requires
            self.wf(),
        ensures
            match self.status.spec_packet() {
                Some(packet) => packet.num_sent <= MAX_NUM_SENDPACKET_TRIES,
                None => true,
            },
    {
    }

    /// Whether nothing has been sent or received over the connection yet and
    /// no transport is known for it.
    pub open spec fn is_fresh(&self) -> bool {
        &&& self.tcp_relay is None
        &&& self.send_window == INITIAL_SEND_WINDOW
        &&& self.packets_sent == 0
        &&& self.packets_resent == 0
        &&& self.last_sent_time is None
        &&& self.udp_addr is None
        &&& self.udp_received_time is None
        &&& self.udp_send_attempt_time is None
        &&& self.send_array@ == Map::<u32, SentPacket>::empty()
        &&& self.send_array.buffer_start == 0
        &&& self.send_array.buffer_end == 0
        &&& self.recv_array@ == Map::<u32, RecvPacket>::empty()
        &&& self.recv_array.buffer_start == 0
        &&& self.recv_array.buffer_end == 0
        &&& self.rtt.nanos == DEFAULT_RTT * NANOS_PER_MILLI
    }

    /// Create new `CryptoConnection` with `CookieRequesting` status. This
    /// function is used when we initiate crypto connection with a friend.
    ///
    /// The session keys and the id of the cookie request are random. The
    /// cookie request goes out in the name of `dht_pk` and carries `real_pk`
    /// and the id, sealed for the peer.
    pub fn new(
        dht_sk: &SecretKey,
        dht_pk: PublicKey,
        real_pk: PublicKey,
        peer_real_pk: PublicKey,
        peer_dht_pk: PublicKey,
        now: Instant,
    ) -> (connection: CryptoConnection)
        ensures
            connection.wf(),
            connection.is_fresh(),
            connection.dht_precomputed_key@ == spec_precompute(peer_dht_pk@, dht_sk@),
            connection.peer_real_pk == peer_real_pk,
            connection.peer_dht_pk == peer_dht_pk,
            connection.status.is_first_request(
                dht_pk,
                real_pk,
                connection.dht_precomputed_key,
                now,
            ),
    {
        let dht_precomputed_key = precompute(&peer_dht_pk, dht_sk);
        let (session_pk, session_sk) = gen_keypair();

        let cookie_request_id = random_u64();
        let cookie_request_payload = CookieRequestPayload { pk: real_pk, id: cookie_request_id };
        let cookie_request = CookieRequest::new(
            &dht_precomputed_key,
            &dht_pk,
            &cookie_request_payload,
        );
        let status = ConnectionStatus::CookieRequesting {
            cookie_request_id,
            packet: StatusPacket::new_cookie_request(cookie_request, now),
        };

        CryptoConnection {
            dht_precomputed_key,
            peer_real_pk,
            peer_dht_pk,
            session_sk,
            session_pk,
            status,
            udp_addr: None,
            udp_received_time: None,
            udp_send_attempt_time: None,
            send_array: PacketsArray::new(),
            recv_array: PacketsArray::new(),
            rtt: Duration::from_millis(DEFAULT_RTT),
            tcp_relay: None,
            send_window: INITIAL_SEND_WINDOW,
            packets_sent: 0,
            packets_resent: 0,
            congestion_time: now,
            last_sent_time: None,
            last_tick_time: now,
        }
    }

    /// Create new `CryptoConnection` with `NotConfirmed` status. This function
    /// is used when we got `CryptoHandshake` packet from a friend but didn't
    /// create `CryptoConnection` yet.
    ///
    /// The session keys, the base nonce and the nonces of the seals are
    /// random. The handshake packet that the connection keeps sending carries
    /// `cookie` and, under its seal, the digest of `cookie` and a cookie of
    /// ours made at `now`.
    pub fn new_not_confirmed(
        dht_sk: &SecretKey,
        peer_real_pk: PublicKey,
        peer_dht_pk: PublicKey,
        received_nonce: Nonce,
        peer_session_pk: PublicKey,
        cookie: EncryptedCookie,
        symmetric_key: &secretbox::Key,
        now: Instant,
    ) -> (connection: CryptoConnection)
        ensures
            connection.wf(),
            connection.is_fresh(),
            connection.dht_precomputed_key@ == spec_precompute(peer_dht_pk@, dht_sk@),
            connection.peer_real_pk == peer_real_pk,
            connection.peer_dht_pk == peer_dht_pk,
            connection.status.is_first_handshake(
                connection.dht_precomputed_key,
                connection.session_pk,
                connection.session_sk,
                peer_real_pk,
                peer_dht_pk,
                received_nonce,
                peer_session_pk,
                cookie.wire(),
                *symmetric_key,
                now,
            ),
    {
        let dht_precomputed_key = precompute(&peer_dht_pk, dht_sk);
        let (session_pk, session_sk) = gen_keypair();
        let sent_nonce = gen_nonce();

        let handshake = make_handshake(
            &dht_precomputed_key,
            session_pk,
            peer_real_pk,
            peer_dht_pk,
            sent_nonce,
            cookie,
            symmetric_key,
            now,
        );
        let status = ConnectionStatus::NotConfirmed {
            sent_nonce,
            received_nonce,
            peer_session_pk,
            session_precomputed_key: precompute(&peer_session_pk, &session_sk),
            packet: StatusPacket::new_crypto_handshake(handshake, now),
        };

        CryptoConnection {
            dht_precomputed_key,
            peer_real_pk,
            peer_dht_pk,
            session_sk,
            session_pk,
            status,
            udp_addr: None,
            udp_received_time: None,
            udp_send_attempt_time: None,
            send_array: PacketsArray::new(),
            recv_array: PacketsArray::new(),
            rtt: Duration::from_millis(DEFAULT_RTT),
            tcp_relay: None,
            send_window: INITIAL_SEND_WINDOW,
            packets_sent: 0,
            packets_resent: 0,
            congestion_time: now,
            last_sent_time: None,
            last_tick_time: now,
        }
    }

    /// Get `CookieRequest` or `CryptoHandshake` if it should be sent depending
    /// on connection status and update sent counter
    pub fn packet_to_send(&mut self, now: Instant) -> (res: Option<Packet>)
        ensures
            old(self).wf() ==> final(self).wf(),
            match old(self).status.spec_packet() {
                Some(status_packet) if status_packet.spec_should_be_sent(now) => {
                    &&& res matches Some(packet) && packet.wire() == status_packet.spec_wire()
                    &&& *final(self) == CryptoConnection {
                        status: old(self).status.spec_with_packet(status_packet.spec_sent(now)),
                        ..*old(self)
                    }
                },
                _ => res is None && *final(self) == *old(self),
            },
    {
        match &mut self.status {
            ConnectionStatus::CookieRequesting { packet, .. } => packet.take_to_send(now),
            ConnectionStatus::HandshakeSending { packet, .. } => packet.take_to_send(now),
            ConnectionStatus::NotConfirmed { packet, .. } => packet.take_to_send(now),
            ConnectionStatus::Established { .. } => None,
        }
    }

    /// Whether the packet that the connection keeps sending got no answer in
    /// time. An established connection does not time out.
    pub open spec fn spec_is_timed_out(&self, now: Instant) -> bool {
        match self.status.spec_packet() {
            Some(packet) => packet.spec_is_timed_out(now),
            None => false,
        }
    }

    /// Check if this connection is timed out, i.e. we didn't receive expected
    /// packet in time
    pub fn is_timed_out(&self, now: Instant) -> (timed_out: bool)
        ensures
            timed_out == self.spec_is_timed_out(now),
    {
        match self.status {
            ConnectionStatus::CookieRequesting { ref packet, .. } => packet.is_timed_out(now),
            ConnectionStatus::HandshakeSending { ref packet, .. } => packet.is_timed_out(now),
            ConnectionStatus::NotConfirmed { ref packet, .. } => packet.is_timed_out(now),
            ConnectionStatus::Established { .. } => false,
        }
    }

    /// Set time when last UDP packet was received to now
    pub fn update_udp_received_time(&mut self, now: Instant)
        ensures
            *final(self) == (CryptoConnection { udp_received_time: Some(now), ..*old(self) }),
    {
        self.udp_received_time = Some(now)
    }

    /// Set time when we made an attempt to send UDP packet
    pub fn update_udp_send_attempt_time(&mut self, now: Instant)
        ensures
            *final(self) == (CryptoConnection { udp_send_attempt_time: Some(now), ..*old(self) }),
    {
        self.udp_send_attempt_time = Some(now)
    }

    /// Whether the last UDP packet came in less than 8 seconds before `now`.
    pub open spec fn spec_is_udp_alive(&self, now: Instant) -> bool {
        match self.udp_received_time {
            Some(time) => now.spec_since(time) < UDP_DIRECT_TIMEOUT * NANOS_PER_SEC,
            None => false,
        }
    }

    /// Check if we received the last UDP packet not later than 8 seconds ago
    pub fn is_udp_alive(&self, now: Instant) -> (alive: bool)
        ensures
            alive == self.spec_is_udp_alive(now),
    {
        match self.udp_received_time {
            Some(time) => now.duration_since(time).nanos < Duration::from_secs(
                UDP_DIRECT_TIMEOUT,
            ).nanos,
            None => false,
        }
    }

    /// Whether no UDP packet was tried yet or the last try was 4 seconds or
    /// more before `now`.
    pub open spec fn spec_udp_attempt_should_be_made(&self, now: Instant) -> bool {
        match self.udp_send_attempt_time {
            Some(time) => now.spec_since(time) >= (UDP_DIRECT_TIMEOUT / 2) * NANOS_PER_SEC,
            None => true,
        }
    }

    /// Check if we should send UDP packet regardless of whether UDP is dead or
    /// alive. In this case we shouldn't rely on UDP only and send the same
    /// packet via TCP relay
    pub fn udp_attempt_should_be_made(&self, now: Instant) -> (attempt: bool)
        ensures
            attempt == self.spec_udp_attempt_should_be_made(now),
    {
        match self.udp_send_attempt_time {
            Some(time) => now.duration_since(time).nanos >= Duration::from_secs(
                UDP_DIRECT_TIMEOUT / 2,
            ).nanos,
            None => true,
        }
    }
}

} // verus!
