//! What the engine does with the packets that come in.
//!
//! A cookie response and a data packet do not tell which connection they
//! belong to: they go to the first connection that can make something of
//! them. A handshake packet names its peer in the cookie that travels with
//! it.

use vstd::prelude::*;
use crate::binary_io::{spec_u64_from_le_bytes, ToBytes};
use crate::cookie_response::CookieResponse;
use crate::crypto_connection::{
    spec_validate_handshake, validate_handshake, CryptoConnection, Endpoint,
};
use crate::crypto_core::{
    be_value, precompute, spec_nonce_add, spec_precompute, Nonce, PublicKey,
};
use crate::crypto_data::{spec_nonce_offset, CryptoData, CryptoDataPayload};
use crate::crypto_handshake::CryptoHandshake;
use crate::data_channel::DataKind;
use crate::error::Error;
use crate::handshake::{spec_cookie_response_error, spec_handshake_result};
use crate::net_crypto::{spec_noted, Entry, Handled, NetCrypto};
use crate::packet::Packet;
use crate::time::Instant;
use crate::transport::Outgoing;

verus! {

impl NetCrypto {
    /// Whether `after` is this engine after the connection in the place `i`
    /// took in, at `now`, the cookie response `packet` that came by the way
    /// `source` and became `taken` by it: no connection before it accepts
    /// the response, it goes on to send its handshake packet, and it has
    /// noted the way by which the response came.
    pub open spec fn is_cookie_taken_at(
        &self,
        after: &NetCrypto,
        i: int,
        taken: CryptoConnection,
        packet: CookieResponse,
        source: Endpoint,
        now: Instant,
    ) -> bool {
        &&& 0 <= i < self.entries@.len()
        &&& forall|j: int|
            0 <= j < i ==> spec_cookie_response_error(
                (#[trigger] self.entries@[j]).connection.status,
                packet,
                self.entries@[j].connection.dht_precomputed_key,
            ) is Some
        &&& spec_cookie_response_error(
            self.entries@[i].connection.status,
            packet,
            self.entries@[i].connection.dht_precomputed_key,
        ) is None
        &&& packet.spec_get_payload(self.entries@[i].connection.dht_precomputed_key@) matches Ok(
            plain,
        )
        &&& taken.sends_handshake_after(
            &self.entries@[i].connection,
            plain.subrange(0, 112),
            self.cookie_keys,
            now,
        )
        &&& self.is_changed_at(after, i, spec_noted(taken, source, now))
    }

    /// Whether `after` is this engine after it took in, at `now`, the
    /// cookie response `packet` that came by the way `source`, with the
    /// outcome `res`.
    pub open spec fn is_cookie_response_handled(
        &self,
        after: &NetCrypto,
        packet: CookieResponse,
        source: Endpoint,
        now: Instant,
        res: Result<u64, Error>,
    ) -> bool {
        match res {
            Ok(handle) => exists|i: int, taken: CryptoConnection|
                {
                    &&& #[trigger] self.is_cookie_taken_at(after, i, taken, packet, source, now)
                    &&& self.entries@[i].handle == handle
                },
            Err(e) => {
                &&& e == Error::CookieMismatch
                &&& self.is_unchanged(after)
                &&& forall|j: int|
                    0 <= j < self.entries@.len() ==> spec_cookie_response_error(
                        (#[trigger] self.entries@[j]).connection.status,
                        packet,
                        self.entries@[j].connection.dht_precomputed_key,
                    ) is Some
            },
        }
    }

    /// Takes in a cookie response that came by the way `source`, and gives
    /// out the handle of the connection that it belongs to.
    ///
    /// The response belongs to the first connection that asks for a cookie,
    /// under whose DHT keys it opens and whose request it answers. That
    /// connection goes on to send its handshake packet. Fails with
    /// `CookieMismatch`, and changes nothing, where there is no such
    /// connection.
    pub fn handle_cookie_response(
        &mut self,
        packet: &CookieResponse,
        source: Endpoint,
        now: Instant,
    ) -> (res: Result<u64, Error>)
        requires
            old(self).wf(),
        ensures
            final(self).wf(),
            old(self).is_cookie_response_handled(final(self), *packet, source, now, res),
    {
        let keys = self.cookie_keys;
        let n = self.entries.len();
        let mut k: usize = 0;
        while k < n
            invariant
                k <= n,
                n == self.entries@.len(),
                old(self).wf(),
                old(self).is_unchanged(self),
                keys == old(self).cookie_keys,
                forall|j: int|
                    0 <= j < k ==> spec_cookie_response_error(
                        (#[trigger] old(self).entries@[j]).connection.status,
                        *packet,
                        old(self).entries@[j].connection.dht_precomputed_key,
                    ) is Some,
            decreases n - k,
        {
            assert(self.entries@[k as int] == old(self).entries@[k as int]);
            match self.entries[k].connection.handle_cookie_response(packet, &keys, now) {
                Ok(()) => {
                    let ghost taken = self.entries@[k as int].connection;
                    self.entries[k].connection.note_received(source, now);
                    let handle = self.entries[k].handle;
                    proof {
                        let noted = spec_noted(taken, source, now);
                        assert(self.entries@ =~= old(self).entries@.update(
                            k as int,
                            Entry { handle: old(self).entries@[k as int].handle, connection: noted },
                        ));
                        old(self).lemma_changed_at_is_wf(self, k as int, noted);
                        assert(old(self).is_cookie_taken_at(
                            self,
                            k as int,
                            taken,
                            *packet,
                            source,
                            now,
                        ));
                    }
                    return Ok(handle);
                },
                Err(_) => {
                    assert(self.entries@ =~= old(self).entries@);
                },
            }
            k += 1;
        }
        proof {
            old(self).lemma_unchanged_is_wf(self);
        }
        Err(Error::CookieMismatch)
    }

    /// An engine whose connections are what they were is as well formed as
    /// it was.
    pub proof fn lemma_unchanged_is_wf(&self, after: &NetCrypto)
        requires
            self.wf(),
            self.is_unchanged(after),
        ensures
            after.wf(),
    {
    }

    /// Whether a connection decides what becomes of a data packet, where
    /// trying it on the connection ends in `res`: the connection opened the
    /// packet, be it that it took what was in it or refused it after that.
    pub open spec fn spec_is_final(res: Result<DataKind, Error>) -> bool {
        match res {
            Ok(_) => true,
            Err(Error::OutOfRange) => true,
            Err(Error::Duplicate) => true,
            Err(_) => false,
        }
    }

    /// Whether `after` is this engine after the connection in the place `i`
    /// took in, at `now`, the data packet `packet` that came by the way
    /// `source`, with the outcome `res`, and became `taken` by it: no
    /// connection before it can open the packet, it has opened the packet,
    /// and it has noted the way by which the packet came.
    pub open spec fn is_data_taken_at(
        &self,
        after: &NetCrypto,
        i: int,
        taken: CryptoConnection,
        packet: CryptoData,
        source: Endpoint,
        now: Instant,
        res: Result<DataKind, Error>,
    ) -> bool {
        &&& 0 <= i < self.entries@.len()
        &&& forall|j: int|
            0 <= j < i ==> !(#[trigger] self.entries@[j]).connection.spec_opens(packet)
        &&& self.entries@[i].connection.spec_opens(packet)
        &&& Self::spec_is_final(res)
        &&& taken.is_data_handled_after(&self.entries@[i].connection, packet, now, res)
        &&& self.is_changed_at(after, i, spec_noted(taken, source, now))
    }

    /// Whether `after` is this engine after it took in, at `now`, the data
    /// packet `packet` that came by the way `source`, with the outcome `res`.
    pub open spec fn is_data_handled(
        &self,
        after: &NetCrypto,
        packet: CryptoData,
        source: Endpoint,
        now: Instant,
        res: Result<(u64, DataKind), Error>,
    ) -> bool {
        match res {
            Ok((handle, kind)) => exists|i: int, taken: CryptoConnection|
                {
                    &&& #[trigger] self.is_data_taken_at(
                        after,
                        i,
                        taken,
                        packet,
                        source,
                        now,
                        Ok(kind),
                    )
                    &&& self.entries@[i].handle == handle
                },
            Err(e) => if e == Error::Decrypt {
                &&& self.is_unchanged(after)
                &&& forall|j: int|
                    0 <= j < self.entries@.len() ==> !(#[trigger] self.entries@[j])
                        .connection.spec_opens(packet)
            } else {
                exists|i: int, taken: CryptoConnection| #[trigger]
                    self.is_data_taken_at(after, i, taken, packet, source, now, Err(e))
            },
        }
    }

    /// Takes in a data packet that came by the way `source`, and gives out
    /// the handle of the connection that it belongs to and what it carried.
    ///
    /// The packet belongs to the first connection that can open it. Where
    /// that connection then refuses what is in the packet, the error is
    /// `OutOfRange` or `Duplicate`. Fails with `Decrypt`, and changes
    /// nothing, where no connection can open the packet.
    pub fn handle_crypto_data(&mut self, packet: &CryptoData, source: Endpoint, now: Instant) -> (res:
        Result<(u64, DataKind), Error>)
        requires
            old(self).wf(),
        ensures
            final(self).wf(),
            old(self).is_data_handled(final(self), *packet, source, now, res),
    {
        let n = self.entries.len();
        let mut k: usize = 0;
        while k < n
            invariant
                k <= n,
                n == self.entries@.len(),
                old(self).wf(),
                old(self).is_unchanged(self),
                forall|j: int|
                    0 <= j < k ==> !(#[trigger] old(self).entries@[j]).connection.spec_opens(
                        *packet,
                    ),
            decreases n - k,
        {
            assert(self.entries@[k as int] == old(self).entries@[k as int]);
            let tried = self.entries[k].connection.handle_crypto_data(packet, now);
            proof {
                lemma_opened_is_final(
                    &self.entries@[k as int].connection,
                    &old(self).entries@[k as int].connection,
                    *packet,
                    now,
                    tried,
                );
            }
            let decided = match tried {
                Ok(_) => true,
                Err(Error::OutOfRange) => true,
                Err(Error::Duplicate) => true,
                Err(_) => false,
            };
            if decided {
                let ghost taken = self.entries@[k as int].connection;
                self.entries[k].connection.note_received(source, now);
                let handle = self.entries[k].handle;
                proof {
                    let noted = spec_noted(taken, source, now);
                    assert(self.entries@ =~= old(self).entries@.update(
                        k as int,
                        Entry { handle: old(self).entries@[k as int].handle, connection: noted },
                    ));
                    taken.lemma_data_handled_keeps_peer(
                        &old(self).entries@[k as int].connection,
                        *packet,
                        now,
                        tried,
                    );
                    old(self).lemma_changed_at_is_wf(self, k as int, noted);
                    assert(old(self).is_data_taken_at(
                        self,
                        k as int,
                        taken,
                        *packet,
                        source,
                        now,
                        tried,
                    ));
                }
                return match tried {
                    Ok(kind) => Ok((handle, kind)),
                    Err(e) => Err(e),
                };
            }
            proof {
                taken_nothing(
                    &self.entries@[k as int].connection,
                    &old(self).entries@[k as int].connection,
                    *packet,
                    now,
                    tried,
                );
                assert(self.entries@ =~= old(self).entries@);
            }
            k += 1;
        }
        proof {
            old(self).lemma_unchanged_is_wf(self);
        }
        Err(Error::Decrypt)
    }
}

/// A connection decides what becomes of a data packet where it can open
/// it, and nowhere else.
pub proof fn lemma_opened_is_final(
    after: &CryptoConnection,
    before: &CryptoConnection,
    packet: CryptoData,
    now: Instant,
    res: Result<DataKind, Error>,
)
    requires
        after.is_data_handled_after(before, packet, now, res),
    ensures
        NetCrypto::spec_is_final(res) == before.spec_opens(packet),
{
    match before.spec_session() {
        None => {},
        Some(session) => {
            let key = session.session_precomputed_key@;
            let offset = spec_nonce_offset(session.received_nonce, packet.nonce_last_bytes);
            let nonce = choose|nonce: Nonce| #[trigger]
                be_value(nonce@) == spec_nonce_add(session.received_nonce, offset)
                    && match packet.spec_get_payload(key, nonce) {
                    Err(e) => res == Err::<DataKind, Error>(e) && *after == *before,
                    Ok(plain) => exists|payload: CryptoDataPayload| #[trigger]
                        payload.wire() == plain && after.is_received_after(
                            before,
                            payload,
                            nonce,
                            offset >= 0,
                            now,
                            res,
                        ),
                };
            assert forall|other: Nonce| #[trigger]
                be_value(other@) == spec_nonce_add(session.received_nonce, offset) implies other
                == nonce by {
                other.lemma_same_value(&nonce);
            }
            match packet.spec_get_payload(key, nonce) {
                Err(e) => {},
                Ok(plain) => {
                    let payload = choose|payload: CryptoDataPayload| #[trigger]
                        payload.wire() == plain && after.is_received_after(
                            before,
                            payload,
                            nonce,
                            offset >= 0,
                            now,
                            res,
                        );
                    after.lemma_received_is_final(before, payload, nonce, offset >= 0, now, res);
                },
            }
        },
    }
}

/// A connection that could not open a data packet is what it was.
pub proof fn taken_nothing(
    after: &CryptoConnection,
    before: &CryptoConnection,
    packet: CryptoData,
    now: Instant,
    res: Result<DataKind, Error>,
)
    requires
        after.is_data_handled_after(before, packet, now, res),
        !NetCrypto::spec_is_final(res),
    ensures
        *after == *before,
{
    match before.spec_session() {
        None => {},
        Some(session) => {
            let offset = crate::crypto_data::spec_nonce_offset(
                session.received_nonce,
                packet.nonce_last_bytes,
            );
            let nonce = choose|nonce: crate::crypto_core::Nonce| #[trigger]
                crate::crypto_core::be_value(nonce@) == crate::crypto_core::spec_nonce_add(
                    session.received_nonce,
                    offset,
                ) && match packet.spec_get_payload(session.session_precomputed_key@, nonce) {
                    Err(e) => res == Err::<DataKind, Error>(e) && *after == *before,
                    Ok(plain) => exists|payload: crate::crypto_data::CryptoDataPayload| #[trigger]
                        payload.wire() == plain && after.is_received_after(
                            before,
                            payload,
                            nonce,
                            offset >= 0,
                            now,
                            res,
                        ),
                };
            match packet.spec_get_payload(session.session_precomputed_key@, nonce) {
                Err(e) => {},
                Ok(plain) => {
                    let payload = choose|payload: crate::crypto_data::CryptoDataPayload|
                        #[trigger] payload.wire() == plain && after.is_received_after(
                            before,
                            payload,
                            nonce,
                            offset >= 0,
                            now,
                            res,
                        );
                    after.lemma_received_is_final(before, payload, nonce, offset >= 0, now, res);
                },
            }
        },
    }
}

impl NetCrypto {
    /// Whether the application accepts the peer whose long-term key has the
    /// bytes `pk`.
    pub open spec fn spec_is_allowed_key(&self, pk: Seq<u8>) -> bool {
        exists|i: int| 0 <= i < self.allowed@.len() && (#[trigger] self.allowed@[i])@ == pk
    }

    /// Whether there is a connection to the peer whose long-term key has the
    /// bytes `pk`.
    pub open spec fn spec_has_peer(&self, pk: Seq<u8>) -> bool {
        exists|i: int|
            0 <= i < self.entries@.len() && (#[trigger] self.entries@[i]).connection.peer_real_pk@
                == pk
    }

    /// Why a handshake packet opens no new connection at `now`, or the bytes
    /// of what the packet carries.
    ///
    /// The cookie that travels with the packet has to open under our keys
    /// and to be no older than 15 seconds. The peer that it names has to be
    /// one that the application accepts (`CookieMismatch` otherwise) and one
    /// to which there is no connection yet (`Duplicate` otherwise). The
    /// packet has to pass every check of the handshake for that peer.
    pub open spec fn spec_accept_result(&self, packet: CryptoHandshake, now: Instant) -> Result<
        Seq<u8>,
        Error,
    > {
        match self.cookie_keys.spec_open(&packet.cookie) {
            Err(e) => Err(e),
            Ok(cookie) => if now.nanos > spec_u64_from_le_bytes(cookie.subrange(64, 72))
                + crate::cookie::COOKIE_TIMEOUT * crate::time::NANOS_PER_SEC {
                Err(Error::CookieExpired)
            } else if !self.spec_is_allowed_key(cookie.subrange(0, 32)) {
                Err(Error::CookieMismatch)
            } else if self.spec_has_peer(cookie.subrange(0, 32)) {
                Err(Error::Duplicate)
            } else {
                spec_validate_handshake(
                    packet,
                    spec_precompute(cookie.subrange(32, 64), self.dht_sk@),
                    self.cookie_keys,
                    cookie.subrange(0, 32),
                    cookie.subrange(32, 64),
                    now,
                )
            },
        }
    }

    /// Whether `connection` is the connection that the engine opens at
    /// `now` for a handshake packet that came by the way `source` with the
    /// cookie bytes `cookie` and carried the bytes `plain`: it is made for
    /// the peer that the cookie names, holds what the peer announced, echoes
    /// the cookie that the peer sent, and has noted the way by which the
    /// packet came.
    pub open spec fn is_accepted(
        &self,
        connection: CryptoConnection,
        cookie: Seq<u8>,
        plain: Seq<u8>,
        source: Endpoint,
        now: Instant,
    ) -> bool {
        exists|made: CryptoConnection|
            {
                &&& connection == spec_noted(made, source, now)
                &&& made.wf()
                &&& made.is_fresh()
                &&& made.peer_real_pk@ == cookie.subrange(0, 32)
                &&& made.peer_dht_pk@ == cookie.subrange(32, 64)
                &&& made.dht_precomputed_key@ == spec_precompute(made.peer_dht_pk@, self.dht_sk@)
                &&& exists|peer_nonce: crate::crypto_core::Nonce, peer_key: PublicKey|
                    {
                        &&& peer_nonce@ == plain.subrange(0, 24)
                        &&& peer_key@ == plain.subrange(24, 56)
                        &&& #[trigger] made.status.is_first_handshake(
                            made.dht_precomputed_key,
                            made.session_pk,
                            made.session_sk,
                            made.peer_real_pk,
                            made.peer_dht_pk,
                            peer_nonce,
                            peer_key,
                            plain.subrange(120, 232),
                            self.cookie_keys.current,
                            now,
                        )
                    }
            }
    }

    /// Opens a connection for a handshake packet of a peer to which there
    /// is no connection yet, and gives out its handle.
    ///
    /// The connection starts half way: it holds what the peer announced,
    /// sends a handshake packet of its own with the cookie that the peer
    /// sent, and waits for the first data packet. Fails with `OutOfRange`
    /// where no handle is left to give.
    pub fn accept_inbound_handshake(
        &mut self,
        packet: &CryptoHandshake,
        source: Endpoint,
        now: Instant,
    ) -> (res: Result<u64, Error>)
        requires
            old(self).wf(),
        ensures
            final(self).wf(),
            match res {
                Ok(handle) => {
                    &&& old(self).spec_accept_result(*packet, now) matches Ok(plain)
                    &&& old(self).cookie_keys.spec_open(&packet.cookie) matches Ok(cookie)
                    &&& handle == old(self).next_handle
                    &&& *final(self) == NetCrypto {
                        entries: final(self).entries,
                        next_handle: (handle + 1) as u64,
                        ..*old(self)
                    }
                    &&& final(self).entries@.len() == old(self).entries@.len() + 1
                    &&& final(self).entries@.drop_last() == old(self).entries@
                    &&& final(self).entries@.last().handle == handle
                    &&& old(self).is_accepted(
                        final(self).entries@.last().connection,
                        cookie,
                        plain,
                        source,
                        now,
                    )
                },
                Err(e) => {
                    &&& *final(self) == *old(self)
                    &&& match old(self).spec_accept_result(*packet, now) {
                        Err(reason) => e == reason,
                        Ok(_) => e == Error::OutOfRange && old(self).next_handle == u64::MAX,
                    }
                },
            },
    {
        let cookie = match self.cookie_keys.open(&packet.cookie) {
            Ok(cookie) => cookie,
            Err(e) => { return Err(e); },
        };
        proof {
            crate::binary_io::lemma_u64_le_round_trip();
            let w = cookie.wire();
            assert(w.subrange(0, 32) =~= cookie.real_pk@);
            assert(w.subrange(32, 64) =~= cookie.dht_pk@);
            assert(w.subrange(64, 72) =~= crate::binary_io::spec_u64_to_le_bytes(cookie.time));
        }
        if cookie.is_timed_out(now) {
            return Err(Error::CookieExpired);
        }
        if !self.is_allowed(&cookie.real_pk) {
            proof {
                if self.spec_is_allowed_key(cookie.real_pk@) {
                    let i = choose|i: int|
                        0 <= i < self.allowed@.len() && (#[trigger] self.allowed@[i])@
                            == cookie.real_pk@;
                    self.allowed@[i].lemma_same_bytes(&cookie.real_pk);
                }
            }
            return Err(Error::CookieMismatch);
        }
        proof {
            let i = choose|i: int|
                0 <= i < self.allowed@.len() && #[trigger] self.allowed@[i] == cookie.real_pk;
            assert(self.allowed@[i]@ == cookie.real_pk@);
        }
        match self.find_peer(&cookie.real_pk) {
            Some(i) => {
                assert(self.entries@[i as int].connection.peer_real_pk@ == cookie.real_pk@);
                return Err(Error::Duplicate);
            },
            None => {
                proof {
                    if self.spec_has_peer(cookie.real_pk@) {
                        let i = choose|i: int|
                            0 <= i < self.entries@.len() && (
                            #[trigger] self.entries@[i]).connection.peer_real_pk@
                                == cookie.real_pk@;
                        self.entries@[i].connection.peer_real_pk.lemma_same_bytes(
                            &cookie.real_pk,
                        );
                    }
                }
            },
        }
        let key = precompute(&cookie.dht_pk, &self.dht_sk);
        let payload = match validate_handshake(
            packet,
            &key,
            &self.cookie_keys,
            &cookie.real_pk,
            &cookie.dht_pk,
            now,
        ) {
            Ok(payload) => payload,
            Err(e) => { return Err(e); },
        };
        if self.next_handle == u64::MAX {
            return Err(Error::OutOfRange);
        }
        proof {
            payload.lemma_parses_wire(Seq::empty());
            assert(payload.wire().subrange(0, 24) =~= payload.base_nonce@);
            assert(payload.wire().subrange(24, 56) =~= payload.session_pk@);
            assert(payload.wire().subrange(120, 232) =~= payload.cookie.wire());
        }
        let handle = self.next_handle;
        let mut connection = CryptoConnection::new_not_confirmed(
            &self.dht_sk,
            cookie.real_pk,
            cookie.dht_pk,
            payload.base_nonce,
            payload.session_pk,
            payload.cookie,
            &self.cookie_keys.current,
            now,
        );
        let ghost made = connection;
        connection.note_received(source, now);
        self.entries.push(Entry { handle, connection });
        self.next_handle = handle + 1;
        proof {
            assert(self.entries@.drop_last() =~= old(self).entries@);
            assert forall|i: int| 0 <= i < self.entries@.len() implies (
            #[trigger] self.entries@[i]).connection.wf() && self.entries@[i].handle
                < self.next_handle by {
                if i < old(self).entries@.len() {
                    assert(self.entries@[i] == old(self).entries@[i]);
                }
            }
            assert forall|i: int, j: int| 0 <= i < j < self.entries@.len() implies (
            #[trigger] self.entries@[i]).handle != (#[trigger] self.entries@[j]).handle
                && self.entries@[i].connection.peer_real_pk
                != self.entries@[j].connection.peer_real_pk by {
                assert(self.entries@[i] == old(self).entries@[i]);
                if j < old(self).entries@.len() {
                    assert(self.entries@[j] == old(self).entries@[j]);
                }
            }
            assert(made.status.is_first_handshake(
                made.dht_precomputed_key,
                made.session_pk,
                made.session_sk,
                made.peer_real_pk,
                made.peer_dht_pk,
                payload.base_nonce,
                payload.session_pk,
                payload.wire().subrange(120, 232),
                self.cookie_keys.current,
                now,
            ));
            assert(old(self).is_accepted(
                self.entries@.last().connection,
                cookie.wire(),
                payload.wire(),
                source,
                now,
            ));
        }
        Ok(handle)
    }

    /// Whether `after` is this engine after the connection in the place `i`
    /// took in, at `now`, the handshake packet `packet` that came by the way
    /// `source` and became `taken` by it.
    pub open spec fn is_handshake_taken_at(
        &self,
        after: &NetCrypto,
        i: int,
        taken: CryptoConnection,
        packet: CryptoHandshake,
        source: Endpoint,
        now: Instant,
    ) -> bool {
        &&& 0 <= i < self.entries@.len()
        &&& spec_handshake_result(self.entries@[i].connection, packet, self.cookie_keys, now)
            matches Ok(plain)
        &&& taken.is_confirming_after(&self.entries@[i].connection, plain, self.cookie_keys, now)
        &&& self.is_changed_at(after, i, spec_noted(taken, source, now))
    }

    /// Whether `after` is this engine after it took in, at `now`, the
    /// handshake packet `packet` that came by the way `source`, with the
    /// outcome `res`.
    ///
    /// A packet whose cookie does not open changes nothing. A packet whose
    /// cookie names a peer to which there is a connection is taken by that
    /// connection or refused by it. For any other packet a connection is
    /// opened, unless something speaks against it.
    pub open spec fn is_handshake_handled(
        &self,
        after: &NetCrypto,
        packet: CryptoHandshake,
        source: Endpoint,
        now: Instant,
        res: Result<u64, Error>,
    ) -> bool {
        match self.cookie_keys.spec_open(&packet.cookie) {
            Err(e) => res == Err::<u64, Error>(e) && *after == *self,
            Ok(cookie) => if self.spec_has_peer(cookie.subrange(0, 32)) {
                exists|i: int|
                    {
                        &&& 0 <= i < self.entries@.len()
                        &&& (#[trigger] self.entries@[i]).connection.peer_real_pk@
                            == cookie.subrange(0, 32)
                        &&& match res {
                            Ok(handle) => handle == self.entries@[i].handle && exists|
                                taken: CryptoConnection,
                            | #[trigger]
                                self.is_handshake_taken_at(after, i, taken, packet, source, now),
                            Err(e) => self.is_unchanged(after) && spec_handshake_result(
                                self.entries@[i].connection,
                                packet,
                                self.cookie_keys,
                                now,
                            ) == Err::<Seq<u8>, Error>(e),
                        }
                    }
            } else {
                match res {
                    Ok(handle) => {
                        &&& after.entries@.len() == self.entries@.len() + 1
                        &&& after.entries@.drop_last() == self.entries@
                        &&& after.entries@.last().handle == handle
                        &&& *after == NetCrypto {
                            entries: after.entries,
                            next_handle: (handle + 1) as u64,
                            ..*self
                        }
                        &&& self.spec_accept_result(packet, now) matches Ok(plain)
                        &&& self.is_accepted(
                            after.entries@.last().connection,
                            cookie,
                            plain,
                            source,
                            now,
                        )
                    },
                    Err(e) => {
                        &&& *after == *self
                        &&& match self.spec_accept_result(packet, now) {
                            Err(reason) => e == reason,
                            Ok(_) => e == Error::OutOfRange && self.next_handle == u64::MAX,
                        }
                    },
                }
            },
        }
    }

    /// Takes in a handshake packet that came by the way `source`, and gives
    /// out the handle of the connection that it belongs to.
    ///
    /// The cookie that travels with the packet names the peer. Where there
    /// is a connection to that peer, the connection takes the packet. Where
    /// there is none, one is opened for it if the application accepts the
    /// peer.
    pub fn handle_crypto_handshake(
        &mut self,
        packet: &CryptoHandshake,
        source: Endpoint,
        now: Instant,
    ) -> (res: Result<u64, Error>)
        requires
            old(self).wf(),
        ensures
            final(self).wf(),
            old(self).is_handshake_handled(final(self), *packet, source, now, res),
    {
        let keys = self.cookie_keys;
        let cookie = match keys.open(&packet.cookie) {
            Ok(cookie) => cookie,
            Err(e) => { return Err(e); },
        };
        proof {
            crate::binary_io::lemma_u64_le_round_trip();
            assert(cookie.wire().subrange(0, 32) =~= cookie.real_pk@);
        }
        match self.find_peer(&cookie.real_pk) {
            Some(i) => {
                assert(self.entries@[i as int].connection.peer_real_pk@ == cookie.real_pk@);
                match self.entries[i].connection.handle_crypto_handshake(packet, &keys, now) {
                    Ok(()) => {
                        let ghost taken = self.entries@[i as int].connection;
                        self.entries[i].connection.note_received(source, now);
                        proof {
                            let noted = spec_noted(taken, source, now);
                            assert(self.entries@ =~= old(self).entries@.update(
                                i as int,
                                Entry {
                                    handle: old(self).entries@[i as int].handle,
                                    connection: noted,
                                },
                            ));
                            old(self).lemma_changed_at_is_wf(self, i as int, noted);
                            assert(old(self).is_handshake_taken_at(
                                self,
                                i as int,
                                taken,
                                *packet,
                                source,
                                now,
                            ));
                        }
                        Ok(self.entries[i].handle)
                    },
                    Err(e) => {
                        proof {
                            assert(self.entries@ =~= old(self).entries@);
                            old(self).lemma_unchanged_is_wf(self);
                        }
                        Err(e)
                    },
                }
            },
            None => {
                proof {
                    if self.spec_has_peer(cookie.real_pk@) {
                        let i = choose|i: int|
                            0 <= i < self.entries@.len() && (
                            #[trigger] self.entries@[i]).connection.peer_real_pk@
                                == cookie.real_pk@;
                        self.entries@[i].connection.peer_real_pk.lemma_same_bytes(
                            &cookie.real_pk,
                        );
                    }
                }
                self.accept_inbound_handshake(packet, source, now)
            },
        }
    }

    /// Takes in a packet that came by the way `source`: hands it to the
    /// connection that it belongs to, and gives out the handle of that
    /// connection and the packets that are to be sent in answer.
    ///
    /// Only a cookie request is answered at once, to where it came from. A
    /// packet that no connection takes changes nothing.
    pub fn handle_packet(&mut self, packet: &Packet, source: Endpoint, now: Instant) -> (handled:
        Handled)
        requires
            old(self).wf(),
        ensures
            final(self).wf(),
            match *packet {
                Packet::CookieRequest(request) => {
                    &&& *final(self) == *old(self)
                    &&& handled.handle is None
                    &&& match request.spec_get_payload(
                        spec_precompute(request.pk@, old(self).dht_sk@),
                    ) {
                        Err(_) => handled.outgoing@.len() == 0,
                        Ok(plain) => {
                            &&& handled.outgoing@.len() == 1
                            &&& handled.outgoing@[0].endpoint == source
                            &&& handled.outgoing@[0].packet matches Packet::CookieResponse(response)
                            &&& old(self).is_answer(response, plain, request.pk, now)
                        },
                    }
                },
                Packet::CookieResponse(response) => {
                    &&& handled.outgoing@.len() == 0
                    &&& exists|res: Result<u64, Error>|
                        {
                            &&& #[trigger] old(self).is_cookie_response_handled(
                                final(self),
                                response,
                                source,
                                now,
                                res,
                            )
                            &&& handled.handle == match res {
                                Ok(handle) => Some(handle),
                                Err(_) => None,
                            }
                        }
                },
                Packet::CryptoHandshake(handshake) => {
                    &&& handled.outgoing@.len() == 0
                    &&& exists|res: Result<u64, Error>|
                        {
                            &&& #[trigger] old(self).is_handshake_handled(
                                final(self),
                                handshake,
                                source,
                                now,
                                res,
                            )
                            &&& handled.handle == match res {
                                Ok(handle) => Some(handle),
                                Err(_) => None,
                            }
                        }
                },
                Packet::CryptoData(data) => {
                    &&& handled.outgoing@.len() == 0
                    &&& exists|res: Result<(u64, DataKind), Error>|
                        {
                            &&& #[trigger] old(self).is_data_handled(
                                final(self),
                                data,
                                source,
                                now,
                                res,
                            )
                            &&& handled.handle == match res {
                                Ok((handle, _)) => Some(handle),
                                Err(_) => None,
                            }
                        }
                },
            },
    {
        let mut outgoing: Vec<Outgoing> = Vec::new();
        let handle = match packet {
            Packet::CookieRequest(request) => {
                match self.handle_cookie_request(request, now) {
                    Ok(response) => {
                        outgoing.push(
                            Outgoing { endpoint: source, packet: Packet::CookieResponse(response) },
                        );
                    },
                    Err(_) => {},
                }
                None
            },
            Packet::CookieResponse(response) => match self.handle_cookie_response(
                response,
                source,
                now,
            ) {
                Ok(handle) => Some(handle),
                Err(_) => None,
            },
            Packet::CryptoHandshake(handshake) => match self.handle_crypto_handshake(
                handshake,
                source,
                now,
            ) {
                Ok(handle) => Some(handle),
                Err(_) => None,
            },
            Packet::CryptoData(data) => match self.handle_crypto_data(data, source, now) {
                Ok((handle, _)) => Some(handle),
                Err(_) => None,
            },
        };
        Handled { handle, outgoing }
    }
}

} // verus!
