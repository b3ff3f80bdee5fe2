//! How a connection moves on when a packet of the handshake comes in.

use vstd::prelude::*;
use crate::binary_io::{spec_u64_from_le_bytes, ToBytes};
use crate::cookie::CookieKeys;
use crate::cookie_response::{CookieResponse, CookieResponsePayload};
use crate::crypto_connection::{
    is_handshake_for, make_handshake, spec_validate_handshake, validate_handshake,
    ConnectionStatus, CryptoConnection, StatusPacket, StatusPacketEnum,
};
use crate::crypto_core::{gen_nonce, precompute, spec_precompute, Nonce, PrecomputedKey};
use crate::crypto_handshake::{CryptoHandshake, CryptoHandshakePayload};
use crate::error::Error;
use crate::time::Instant;

verus! {

/// Why a connection with the status `status` refuses a cookie response, if
/// it refuses it: it is not waiting for one, the response does not open
/// under `dht_precomputed_key`, or it answers another request.
pub open spec fn spec_cookie_response_error(
    status: ConnectionStatus,
    packet: CookieResponse,
    dht_precomputed_key: PrecomputedKey,
) -> Option<Error> {
    match status {
        ConnectionStatus::CookieRequesting { cookie_request_id, .. } => match packet.spec_get_payload(
            dht_precomputed_key@,
        ) {
            Err(e) => Some(e),
            Ok(plain) => if spec_u64_from_le_bytes(plain.subrange(112, 120)) != cookie_request_id {
                Some(Error::CookieMismatch)
            } else {
                None
            },
        },
        _ => Some(Error::CookieMismatch),
    }
}

/// Why a connection refuses a handshake packet at `now`, or the bytes of
/// what the packet carries. An established connection refuses them all.
pub open spec fn spec_handshake_result(
    connection: CryptoConnection,
    packet: CryptoHandshake,
    keys: CookieKeys,
    now: Instant,
) -> Result<Seq<u8>, Error> {
    match connection.status {
        ConnectionStatus::Established { .. } => Err(Error::CookieMismatch),
        _ => spec_validate_handshake(
            packet,
            connection.dht_precomputed_key@,
            keys,
            connection.peer_real_pk@,
            connection.peer_dht_pk@,
            now,
        ),
    }
}

impl CryptoConnection {
    /// Whether this connection is `before` after it took in, at `now`, a
    /// cookie with the bytes `cookie`: it sends a handshake packet with that
    /// cookie, which was not sent yet, and nothing else has changed.
    pub open spec fn sends_handshake_after(
        &self,
        before: &CryptoConnection,
        cookie: Seq<u8>,
        keys: CookieKeys,
        now: Instant,
    ) -> bool {
        &&& *self == CryptoConnection { status: self.status, ..*before }
        &&& match self.status {
            ConnectionStatus::HandshakeSending { sent_nonce, packet } => {
                &&& packet.sent_time == now
                &&& packet.num_sent == 0
                &&& match packet.packet {
                    StatusPacketEnum::CryptoHandshake(handshake) => is_handshake_for(
                        handshake,
                        self.dht_precomputed_key,
                        self.session_pk,
                        self.peer_real_pk,
                        self.peer_dht_pk,
                        sent_nonce,
                        cookie,
                        keys.current,
                        now,
                    ),
                    _ => false,
                }
            },
            _ => false,
        }
    }

    /// Takes in the answer to our cookie request.
    ///
    /// A connection that asks for a cookie accepts the response that opens
    /// under the DHT keys and repeats the id of our request. It makes a
    /// fresh base nonce, puts the cookie into a handshake packet and goes on
    /// to send that packet. Anything else leaves the connection as it is.
    pub fn handle_cookie_response(
        &mut self,
        packet: &CookieResponse,
        keys: &CookieKeys,
        now: Instant,
    ) -> (res: Result<(), Error>)
        requires
            old(self).wf(),
        ensures
            final(self).wf(),
            match res {
                Ok(()) => {
                    &&& spec_cookie_response_error(
                        old(self).status,
                        *packet,
                        old(self).dht_precomputed_key,
                    ) is None
                    &&& packet.spec_get_payload(old(self).dht_precomputed_key@) matches Ok(plain)
                    &&& final(self).sends_handshake_after(
                        old(self),
                        plain.subrange(0, 112),
                        *keys,
                        now,
                    )
                },
                Err(e) => {
                    &&& *final(self) == *old(self)
                    &&& spec_cookie_response_error(
                        old(self).status,
                        *packet,
                        old(self).dht_precomputed_key,
                    ) == Some(e)
                },
            },
    {
        match self.status {
            ConnectionStatus::CookieRequesting { .. } => {},
            _ => { return Err(Error::CookieMismatch); },
        }
        let payload = match packet.get_payload(&self.dht_precomputed_key) {
            Ok(payload) => payload,
            Err(e) => { return Err(e); },
        };
        proof {
            crate::binary_io::lemma_u64_le_round_trip();
            payload.lemma_parses_wire(Seq::empty());
            assert(payload.wire().subrange(112, 120) =~= crate::binary_io::spec_u64_to_le_bytes(
                payload.id,
            ));
            assert(payload.wire().subrange(0, 112) =~= payload.cookie.wire());
        }
        self.take_cookie(payload, keys, now)
    }

    /// Whether a connection with the status `status` waits for the answer
    /// to the cookie request with the id `id`.
    pub open spec fn spec_awaits_cookie(status: ConnectionStatus, id: u64) -> bool {
        match status {
            ConnectionStatus::CookieRequesting { cookie_request_id, .. } => cookie_request_id == id,
            _ => false,
        }
    }

    /// Takes in what the answer to a cookie request carried.
    ///
    /// A connection that waits for the answer to the request with the id of
    /// the answer makes a fresh base nonce, puts the cookie into a handshake
    /// packet and goes on to send that packet. Any other connection fails
    /// with `CookieMismatch` and stays as it is.
    pub fn take_cookie(&mut self, payload: CookieResponsePayload, keys: &CookieKeys, now: Instant) -> (res:
        Result<(), Error>)
        requires
            old(self).wf(),
            payload.wf(),
        ensures
            final(self).wf(),
            match res {
                Ok(()) => {
                    &&& Self::spec_awaits_cookie(old(self).status, payload.id)
                    &&& final(self).sends_handshake_after(
                        old(self),
                        payload.cookie.wire(),
                        *keys,
                        now,
                    )
                },
                Err(e) => {
                    &&& e == Error::CookieMismatch
                    &&& !Self::spec_awaits_cookie(old(self).status, payload.id)
                    &&& *final(self) == *old(self)
                },
            },
    {
        let cookie_request_id = match self.status {
            ConnectionStatus::CookieRequesting { cookie_request_id, .. } => cookie_request_id,
            _ => { return Err(Error::CookieMismatch); },
        };
        if payload.id != cookie_request_id {
            return Err(Error::CookieMismatch);
        }
        let sent_nonce = gen_nonce();
        let handshake = make_handshake(
            &self.dht_precomputed_key,
            self.session_pk,
            self.peer_real_pk,
            self.peer_dht_pk,
            sent_nonce,
            payload.cookie,
            &keys.current,
            now,
        );
        self.status = ConnectionStatus::HandshakeSending {
            sent_nonce,
            packet: StatusPacket::new_crypto_handshake(handshake, now),
        };
        Ok(())
    }

    /// Whether this connection is `before` after it took in, at `now`, a
    /// handshake packet that carried the bytes `plain`: it holds the base
    /// nonce and the session key of the peer and the session key that
    /// follows from them, and it goes on with the handshake packet that it
    /// was sending or, where it was sending none, with one that was not sent
    /// yet. Nothing else has changed.
    pub open spec fn is_confirming_after(
        &self,
        before: &CryptoConnection,
        plain: Seq<u8>,
        keys: CookieKeys,
        now: Instant,
    ) -> bool {
        &&& *self == CryptoConnection { status: self.status, ..*before }
        &&& match self.status {
            ConnectionStatus::NotConfirmed {
                sent_nonce,
                received_nonce,
                peer_session_pk,
                session_precomputed_key,
                packet,
            } => {
                &&& received_nonce@ == plain.subrange(0, 24)
                &&& peer_session_pk@ == plain.subrange(24, 56)
                &&& session_precomputed_key@ == spec_precompute(
                    peer_session_pk@,
                    self.session_sk@,
                )
                &&& match before.status {
                    ConnectionStatus::CookieRequesting { .. } => {
                        &&& packet.sent_time == now
                        &&& packet.num_sent == 0
                        &&& match packet.packet {
                            StatusPacketEnum::CryptoHandshake(handshake) => is_handshake_for(
                                handshake,
                                self.dht_precomputed_key,
                                self.session_pk,
                                self.peer_real_pk,
                                self.peer_dht_pk,
                                sent_nonce,
                                plain.subrange(120, 232),
                                keys.current,
                                now,
                            ),
                            _ => false,
                        }
                    },
                    ConnectionStatus::HandshakeSending { sent_nonce: nonce, packet: sending } => {
                        &&& sent_nonce == nonce
                        &&& packet.sent_time == sending.sent_time
                        &&& packet.num_sent == sending.num_sent
                        &&& packet.spec_wire() == sending.spec_wire()
                    },
                    ConnectionStatus::NotConfirmed { sent_nonce: nonce, packet: sending, .. } => {
                        &&& sent_nonce == nonce
                        &&& packet.sent_time == sending.sent_time
                        &&& packet.num_sent == sending.num_sent
                        &&& packet.spec_wire() == sending.spec_wire()
                    },
                    ConnectionStatus::Established { .. } => false,
                }
            },
            _ => false,
        }
    }

    /// Takes in a handshake packet of the peer.
    ///
    /// A connection that is not established accepts the packet that passes
    /// every check of the handshake. It notes the base nonce and the session
    /// key of the peer and waits for the first data packet, while it goes on
    /// sending its own handshake packet. A connection that was still asking
    /// for a cookie uses the cookie that came with the packet. Anything else
    /// leaves the connection as it is.
    pub fn handle_crypto_handshake(
        &mut self,
        packet: &CryptoHandshake,
        keys: &CookieKeys,
        now: Instant,
    ) -> (res: Result<(), Error>)
        requires
            old(self).wf(),
        ensures
            final(self).wf(),
            match res {
                Ok(()) => {
                    &&& spec_handshake_result(*old(self), *packet, *keys, now) matches Ok(plain)
                    &&& final(self).is_confirming_after(old(self), plain, *keys, now)
                },
                Err(e) => {
                    &&& *final(self) == *old(self)
                    &&& spec_handshake_result(*old(self), *packet, *keys, now) == Err::<
                        Seq<u8>,
                        Error,
                    >(e)
                },
            },
    {
        if let ConnectionStatus::Established { .. } = self.status {
            return Err(Error::CookieMismatch);
        }
        let payload = match validate_handshake(
            packet,
            &self.dht_precomputed_key,
            keys,
            &self.peer_real_pk,
            &self.peer_dht_pk,
            now,
        ) {
            Ok(payload) => payload,
            Err(e) => { return Err(e); },
        };
        self.take_handshake(payload, keys, now)
    }

    /// Takes in what a handshake packet of the peer carried, after the
    /// packet has passed every check of the handshake.
    ///
    /// A connection that is not established notes the base nonce and the
    /// session key of the peer and waits for the first data packet, while
    /// it goes on sending its own handshake packet. A connection that was
    /// still asking for a cookie uses the cookie that came with the packet.
    /// An established connection fails with `CookieMismatch` and stays as
    /// it is.
    pub fn take_handshake(
        &mut self,
        payload: CryptoHandshakePayload,
        keys: &CookieKeys,
        now: Instant,
    ) -> (res: Result<(), Error>)
        requires
            old(self).wf(),
            payload.wf(),
        ensures
            final(self).wf(),
            match res {
                Ok(()) => {
                    &&& !(old(self).status is Established)
                    &&& final(self).is_confirming_after(old(self), payload.wire(), *keys, now)
                },
                Err(e) => {
                    &&& e == Error::CookieMismatch
                    &&& old(self).status is Established
                    &&& *final(self) == *old(self)
                },
            },
    {
        proof {
            payload.lemma_parses_wire(Seq::empty());
            assert(payload.wire().subrange(0, 24) =~= payload.base_nonce@);
            assert(payload.wire().subrange(24, 56) =~= payload.session_pk@);
            assert(payload.wire().subrange(120, 232) =~= payload.cookie.wire());
        }
        let received_nonce = payload.base_nonce;
        let peer_session_pk = payload.session_pk;
        let (sent_nonce, status_packet) = match self.status {
            ConnectionStatus::CookieRequesting { .. } => {
                let sent_nonce = gen_nonce();
                let handshake = make_handshake(
                    &self.dht_precomputed_key,
                    self.session_pk,
                    self.peer_real_pk,
                    self.peer_dht_pk,
                    sent_nonce,
                    payload.cookie,
                    &keys.current,
                    now,
                );
                (sent_nonce, StatusPacket::new_crypto_handshake(handshake, now))
            },
            ConnectionStatus::HandshakeSending { sent_nonce, ref packet } => (
                sent_nonce,
                packet.duplicate(),
            ),
            ConnectionStatus::NotConfirmed { sent_nonce, ref packet, .. } => (
                sent_nonce,
                packet.duplicate(),
            ),
            ConnectionStatus::Established { .. } => { return Err(Error::CookieMismatch); },
        };
        let session_precomputed_key = precompute(&peer_session_pk, &self.session_sk);
        self.status = ConnectionStatus::NotConfirmed {
            sent_nonce,
            received_nonce,
            peer_session_pk,
            session_precomputed_key,
            packet: status_packet,
        };
        Ok(())
    }
}

/// Three packets of the peer establish a connection that started by asking
/// for a cookie: the answer to the cookie request, the handshake packet of
/// the peer and its first data packet, each taken in when it came.
pub proof fn lemma_three_packets_establish(
    asking: &CryptoConnection,
    sending: &CryptoConnection,
    confirming: &CryptoConnection,
    confirmed: &CryptoConnection,
    cookie: Seq<u8>,
    plain: Seq<u8>,
    packet_nonce: Nonce,
    ahead: bool,
    keys: CookieKeys,
    first: Instant,
    second: Instant,
)
    requires
        asking.status is CookieRequesting,
        sending.sends_handshake_after(asking, cookie, keys, first),
        confirming.is_confirming_after(sending, plain, keys, second),
        confirmed.is_confirmed_after(confirming, packet_nonce, ahead),
    ensures
        sending.status is HandshakeSending,
        confirming.status is NotConfirmed,
        confirmed.status is Established,
        confirmed.peer_real_pk == asking.peer_real_pk,
{
}

} // verus!
