//! The owner of all connections of one node.
//!
//! The engine takes in the packets that the transport delivers, hands each
//! to the connection that it belongs to, and gives out the packets that are
//! to be sent. It never touches a socket and never reads a clock: packets
//! and the time come from the caller.

use vstd::prelude::*;
use crate::binary_io::ToBytes;
use crate::cookie::{Cookie, CookieKeys, EncryptedCookie};
use crate::cookie_request::{CookieRequest, CookieRequestPayload};
use crate::cookie_response::{CookieResponse, CookieResponsePayload};
use crate::crypto_connection::{CryptoConnection, Endpoint, TCP_RTT};
use crate::crypto_core::{precompute, spec_precompute, PublicKey, SecretKey};
use crate::crypto_data::CryptoData;
use crate::error::Error;
use crate::ip_addr::SocketAddr;
use crate::packet::Packet;
use crate::time::{Duration, Instant, NANOS_PER_MILLI};
use crate::transport::{address, Outgoing};

verus! {

/// A connection with the handle by which the application names it.
#[derive(Clone, Debug, PartialEq, Eq)]
pub struct Entry {
    /// The handle of the connection.
    pub handle: u64,
    /// The connection.
    pub connection: CryptoConnection,
}

/// The connections of one node, with the keys of the node.
#[derive(Clone, Debug, PartialEq, Eq)]
pub struct NetCrypto {
    /// DHT public key of the node.
    pub dht_pk: PublicKey,
    /// DHT secret key of the node.
    pub dht_sk: SecretKey,
    /// Long-term public key of the node.
    pub real_pk: PublicKey,
    /// The keys under which the node seals its cookies.
    pub cookie_keys: CookieKeys,
    /// The long-term keys of the peers whose handshake packets are accepted.
    pub allowed: Vec<PublicKey>,
    /// The connections, each with its handle.
    pub entries: Vec<Entry>,
    /// The handle that the next connection gets.
    pub next_handle: u64,
}

/// A connection that failed and was closed.
#[derive(Clone, Copy, Debug, PartialEq, Eq)]
pub struct Failure {
    /// The handle that the connection had.
    pub handle: u64,
    /// Why the connection failed.
    pub error: Error,
}

/// What the timer gave.
#[derive(Clone, Debug, PartialEq, Eq)]
pub struct Ticked {
    /// The packets that are to be sent.
    pub outgoing: Vec<Outgoing>,
    /// The connections that timed out and were closed, each with the error
    /// `Timeout`.
    pub failed: Vec<Failure>,
}

/// What became of a packet that came in.
#[derive(Clone, Debug, PartialEq, Eq)]
pub struct Handled {
    /// The handle of the connection that took the packet, if one did.
    pub handle: Option<u64>,
    /// The packets that are to be sent in answer.
    pub outgoing: Vec<Outgoing>,
}

/// The connection `connection` after a packet of the peer came in at `now`
/// by the way `source`.
pub open spec fn spec_noted(
    connection: CryptoConnection,
    source: Endpoint,
    now: Instant,
) -> CryptoConnection {
    match source {
        Endpoint::Udp(addr) => CryptoConnection {
            udp_addr: Some(addr),
            udp_received_time: Some(now),
            ..connection
        },
        Endpoint::TcpRelay { relay_id, .. } => CryptoConnection {
            tcp_relay: Some(relay_id),
            ..connection
        },
    }
}

impl NetCrypto {
    /// Every connection is well formed, no two connections have the same
    /// handle or the same peer, and every handle was given out before.
    pub open spec fn wf(&self) -> bool {
        &&& forall|i: int|
            0 <= i < self.entries@.len() ==> (#[trigger] self.entries@[i]).connection.wf()
                && self.entries@[i].handle < self.next_handle
        &&& forall|i: int, j: int|
            0 <= i < j < self.entries@.len() ==> (#[trigger] self.entries@[i]).handle != (
            #[trigger] self.entries@[j]).handle && self.entries@[i].connection.peer_real_pk
                != self.entries@[j].connection.peer_real_pk
    }

    /// Whether a connection has the handle `handle`.
    pub open spec fn spec_has(&self, handle: u64) -> bool {
        exists|i: int| 0 <= i < self.entries@.len() && (#[trigger] self.entries@[i]).handle == handle
    }

    /// Whether `after` is this engine with the connection `connection` in
    /// the place `i` and nothing else changed.
    pub open spec fn is_changed_at(
        &self,
        after: &NetCrypto,
        i: int,
        connection: CryptoConnection,
    ) -> bool {
        &&& 0 <= i < self.entries@.len()
        &&& *after == NetCrypto { entries: after.entries, ..*self }
        &&& after.entries@ == self.entries@.update(
            i,
            Entry { handle: self.entries@[i].handle, connection },
        )
    }

    /// Whether the engine is well formed.
    pub fn is_wf(&self) -> (ok: bool)
        ensures
            ok == self.wf(),
    {
        let n = self.entries.len();
        let mut i: usize = 0;
        while i < n
            invariant
                i <= n,
                n == self.entries@.len(),
                forall|k: int|
                    0 <= k < i ==> (#[trigger] self.entries@[k]).connection.wf()
                        && self.entries@[k].handle < self.next_handle,
                forall|k: int, j: int|
                    0 <= k < j < i ==> (#[trigger] self.entries@[k]).handle != (
                    #[trigger] self.entries@[j]).handle && self.entries@[k].connection.peer_real_pk
                        != self.entries@[j].connection.peer_real_pk,
            decreases n - i,
        {
            if !self.entries[i].connection.is_wf() || self.entries[i].handle >= self.next_handle {
                return false;
            }
            let mut k: usize = 0;
            while k < i
                invariant
                    k <= i < n,
                    n == self.entries@.len(),
                    forall|l: int|
                        0 <= l < k ==> (#[trigger] self.entries@[l]).handle
                            != self.entries@[i as int].handle
                            && self.entries@[l].connection.peer_real_pk
                            != self.entries@[i as int].connection.peer_real_pk,
                decreases i - k,
            {
                if self.entries[k].handle == self.entries[i].handle
                    || self.entries[k].connection.peer_real_pk.same_as(
                    &self.entries[i].connection.peer_real_pk,
                ) {
                    return false;
                }
                k += 1;
            }
            i += 1;
        }
        true
    }

    /// Whether `after` is this engine with nothing changed.
    pub open spec fn is_unchanged(&self, after: &NetCrypto) -> bool {
        &&& *after == NetCrypto { entries: after.entries, ..*self }
        &&& after.entries@ == self.entries@
    }

    /// An engine for the node with the keys given, with no connections and a
    /// fresh random key for its cookies.
    pub fn new(dht_pk: PublicKey, dht_sk: SecretKey, real_pk: PublicKey) -> (engine: NetCrypto)
        ensures
            engine.wf(),
            engine.dht_pk == dht_pk,
            engine.dht_sk == dht_sk,
            engine.real_pk == real_pk,
            engine.cookie_keys.previous is None,
            engine.cookie_keys.rotated_at is None,
            engine.allowed@.len() == 0,
            engine.entries@.len() == 0,
    {
        NetCrypto::with_cookie_keys(dht_pk, dht_sk, real_pk, CookieKeys::new())
    }

    /// An engine for the node with the keys given, with no connections and
    /// the keys `cookie_keys` for its cookies.
    pub fn with_cookie_keys(
        dht_pk: PublicKey,
        dht_sk: SecretKey,
        real_pk: PublicKey,
        cookie_keys: CookieKeys,
    ) -> (engine: NetCrypto)
        ensures
            engine.wf(),
            engine.dht_pk == dht_pk,
            engine.dht_sk == dht_sk,
            engine.real_pk == real_pk,
            engine.cookie_keys == cookie_keys,
            engine.allowed@.len() == 0,
            engine.entries@.len() == 0,
            engine.next_handle == 0,
    {
        NetCrypto {
            dht_pk,
            dht_sk,
            real_pk,
            cookie_keys,
            allowed: Vec::new(),
            entries: Vec::new(),
            next_handle: 0,
        }
    }

    /// Replaces the key under which cookies are sealed by a fresh random
    /// one, if the last change is longer ago than a cookie lives. The
    /// cookies that were sealed under the replaced key can still be opened
    /// until the key is replaced once more. Tells whether the key was
    /// replaced.
    pub fn rotate_cookie_key(&mut self, now: Instant) -> (rotated: bool)
        requires
            old(self).wf(),
        ensures
            final(self).wf(),
            *final(self) == (NetCrypto { cookie_keys: final(self).cookie_keys, ..*old(self) }),
            rotated == old(self).cookie_keys.spec_may_rotate(now),
            rotated ==> final(self).cookie_keys.previous == Some(old(self).cookie_keys.current)
                && final(self).cookie_keys.rotated_at == Some(now),
            !rotated ==> final(self).cookie_keys == old(self).cookie_keys,
    {
        self.cookie_keys.rotate(now)
    }

    /// Whether the application accepts the peer with the long-term key `pk`.
    pub open spec fn spec_is_allowed(&self, pk: PublicKey) -> bool {
        exists|i: int| 0 <= i < self.allowed@.len() && #[trigger] self.allowed@[i] == pk
    }

    /// Whether the application accepts the peer with the long-term key `pk`.
    pub fn is_allowed(&self, pk: &PublicKey) -> (allowed: bool)
        ensures
            allowed == self.spec_is_allowed(*pk),
    {
        let n = self.allowed.len();
        let mut k: usize = 0;
        while k < n
            invariant
                k <= n,
                n == self.allowed@.len(),
                forall|i: int| 0 <= i < k ==> self.allowed@[i] != *pk,
            decreases n - k,
        {
            if self.allowed[k].same_as(pk) {
                return true;
            }
            k += 1;
        }
        false
    }

    /// Makes the handshake packets of the peer with the long-term key `pk`
    /// be accepted from now on.
    pub fn allow_peer(&mut self, pk: PublicKey)
        requires
            old(self).wf(),
        ensures
            final(self).wf(),
            final(self).spec_is_allowed(pk),
            forall|other: PublicKey|
                old(self).spec_is_allowed(other) ==> final(self).spec_is_allowed(other),
            forall|other: PublicKey|
                final(self).spec_is_allowed(other) ==> other == pk || old(self).spec_is_allowed(
                    other,
                ),
            *final(self) == (NetCrypto { allowed: final(self).allowed, ..*old(self) }),
    {
        if !self.is_allowed(&pk) {
            self.allowed.push(pk);
            proof {
                let n = old(self).allowed@.len() as int;
                assert(self.allowed@[n] == pk);
                assert forall|other: PublicKey|
                    old(self).spec_is_allowed(other) implies self.spec_is_allowed(other) by {
                    let i = choose|i: int|
                        0 <= i < old(self).allowed@.len() && #[trigger] old(self).allowed@[i]
                            == other;
                    assert(self.allowed@[i] == other);
                }
                assert forall|other: PublicKey| self.spec_is_allowed(other) implies other == pk
                    || old(self).spec_is_allowed(other) by {
                    let i = choose|i: int|
                        0 <= i < self.allowed@.len() && #[trigger] self.allowed@[i] == other;
                    if i < n {
                        assert(old(self).allowed@[i] == other);
                    }
                }
            }
        }
    }

    /// The place of the connection with the handle `handle`.
    pub fn find(&self, handle: u64) -> (place: Option<usize>)
        ensures
            match place {
                Some(i) => i < self.entries@.len() && self.entries@[i as int].handle == handle,
                None => !self.spec_has(handle),
            },
    {
        let n = self.entries.len();
        let mut k: usize = 0;
        while k < n
            invariant
                k <= n,
                n == self.entries@.len(),
                forall|i: int| 0 <= i < k ==> (#[trigger] self.entries@[i]).handle != handle,
            decreases n - k,
        {
            if self.entries[k].handle == handle {
                return Some(k);
            }
            k += 1;
        }
        None
    }

    /// The place of the connection to the peer with the long-term key `pk`.
    pub fn find_peer(&self, pk: &PublicKey) -> (place: Option<usize>)
        ensures
            match place {
                Some(i) => i < self.entries@.len() && self.entries@[i as int].connection.peer_real_pk
                    == *pk,
                None => forall|i: int|
                    0 <= i < self.entries@.len() ==> (
                    #[trigger] self.entries@[i]).connection.peer_real_pk != *pk,
            },
    {
        let n = self.entries.len();
        let mut k: usize = 0;
        while k < n
            invariant
                k <= n,
                n == self.entries@.len(),
                forall|i: int|
                    0 <= i < k ==> (#[trigger] self.entries@[i]).connection.peer_real_pk != *pk,
            decreases n - k,
        {
            if self.entries[k].connection.peer_real_pk.same_as(pk) {
                return Some(k);
            }
            k += 1;
        }
        None
    }

    /// The connection with the handle `handle`.
    pub fn connection(&self, handle: u64) -> (connection: Option<&CryptoConnection>)
        ensures
            match connection {
                Some(c) => exists|i: int|
                    0 <= i < self.entries@.len() && (#[trigger] self.entries@[i]).handle == handle
                        && self.entries@[i].connection == *c,
                None => !self.spec_has(handle),
            },
    {
        match self.find(handle) {
            Some(i) => {
                assert(self.entries@[i as int].handle == handle);
                Some(&self.entries[i].connection)
            },
            None => None,
        }
    }

    /// Opens a connection to the peer with the keys `peer_real_pk` and
    /// `peer_dht_pk` and gives out its handle. The connection starts by
    /// asking for a cookie.
    ///
    /// Where there is a connection to that peer already, its handle is
    /// given out and nothing changes. Where no handle is left to give,
    /// nothing is given out and nothing changes.
    pub fn connect(&mut self, peer_real_pk: PublicKey, peer_dht_pk: PublicKey, now: Instant) -> (res:
        Option<u64>)
        requires
            old(self).wf(),
        ensures
            final(self).wf(),
            match res {
                Some(handle) => {
                    ||| {
                        &&& *final(self) == *old(self)
                        &&& exists|i: int|
                            0 <= i < old(self).entries@.len() && (#[trigger] old(
                                self,
                            ).entries@[i]).handle == handle && old(
                                self,
                            ).entries@[i].connection.peer_real_pk == peer_real_pk
                    }
                    ||| {
                        &&& forall|i: int|
                            0 <= i < old(self).entries@.len() ==> (#[trigger] old(
                                self,
                            ).entries@[i]).connection.peer_real_pk != peer_real_pk
                        &&& handle == old(self).next_handle
                        &&& *final(self) == NetCrypto {
                            entries: final(self).entries,
                            next_handle: (handle + 1) as u64,
                            ..*old(self)
                        }
                        &&& final(self).entries@.len() == old(self).entries@.len() + 1
                        &&& final(self).entries@.drop_last() == old(self).entries@
                        &&& final(self).entries@.last().handle == handle
                        &&& Self::is_opened(
                            old(self),
                            final(self).entries@.last().connection,
                            peer_real_pk,
                            peer_dht_pk,
                            now,
                        )
                    }
                },
                None => {
                    &&& *final(self) == *old(self)
                    &&& old(self).next_handle == u64::MAX
                    &&& forall|i: int|
                        0 <= i < old(self).entries@.len() ==> (#[trigger] old(
                            self,
                        ).entries@[i]).connection.peer_real_pk != peer_real_pk
                },
            },
    {
        match self.find_peer(&peer_real_pk) {
            Some(i) => { return Some(self.entries[i].handle); },
            None => {},
        }
        if self.next_handle == u64::MAX {
            return None;
        }
        let handle = self.next_handle;
        let connection = CryptoConnection::new(
            &self.dht_sk,
            self.dht_pk,
            self.real_pk,
            peer_real_pk,
            peer_dht_pk,
            now,
        );
        self.entries.push(Entry { handle, connection });
        self.next_handle = handle + 1;
        proof {
            assert(self.entries@.drop_last() =~= old(self).entries@);
            assert forall|i: int| 0 <= i < self.entries@.len() implies (
            #[trigger] self.entries@[i]).connection.wf() && self.entries@[i].handle
                < self.next_handle by {
                if i < old(self).entries@.len() {
                    assert(self.entries@[i] == old(self).entries@[i]);
                }
            }
            assert forall|i: int, j: int| 0 <= i < j < self.entries@.len() implies (
            #[trigger] self.entries@[i]).handle != (#[trigger] self.entries@[j]).handle
                && self.entries@[i].connection.peer_real_pk
                != self.entries@[j].connection.peer_real_pk by {
                assert(self.entries@[i] == old(self).entries@[i]);
                if j < old(self).entries@.len() {
                    assert(self.entries@[j] == old(self).entries@[j]);
                }
            }
        }
        Some(handle)
    }

    /// Whether `connection` is a connection that the engine `engine` has
    /// opened at `now` to the peer with the keys given.
    pub open spec fn is_opened(
        engine: &NetCrypto,
        connection: CryptoConnection,
        peer_real_pk: PublicKey,
        peer_dht_pk: PublicKey,
        now: Instant,
    ) -> bool {
        &&& connection.wf()
        &&& connection.is_fresh()
        &&& connection.dht_precomputed_key@ == spec_precompute(peer_dht_pk@, engine.dht_sk@)
        &&& connection.peer_real_pk == peer_real_pk
        &&& connection.peer_dht_pk == peer_dht_pk
        &&& connection.status.is_first_request(
            engine.dht_pk,
            engine.real_pk,
            connection.dht_precomputed_key,
            now,
        )
    }

    /// Tells the address at which the peer of the connection `handle` can be
    /// reached by UDP. Tells back whether there is such a connection.
    pub fn set_udp_addr(&mut self, handle: u64, addr: SocketAddr) -> (known: bool)
        requires
            old(self).wf(),
        ensures
            final(self).wf(),
            known == old(self).spec_has(handle),
            !known ==> *final(self) == *old(self),
            known ==> exists|i: int|
                0 <= i < old(self).entries@.len() && (#[trigger] old(self).entries@[i]).handle
                    == handle && old(self).is_changed_at(
                    final(self),
                    i,
                    CryptoConnection { udp_addr: Some(addr), ..old(self).entries@[i].connection },
                ),
    {
        match self.find(handle) {
            Some(i) => {
                self.entries[i].connection.udp_addr = Some(addr);
                proof {
                    old(self).lemma_changed_at_is_wf(
                        self,
                        i as int,
                        CryptoConnection {
                            udp_addr: Some(addr),
                            ..old(self).entries@[i as int].connection
                        },
                    );
                }
                true
            },
            None => false,
        }
    }

    /// Tells the TCP relay through which the peer of the connection `handle`
    /// can be reached. A connection that has no address for UDP takes the
    /// round trip time of a relay. Tells back whether there is such a
    /// connection.
    pub fn set_tcp_relay(&mut self, handle: u64, relay_id: u64) -> (known: bool)
        requires
            old(self).wf(),
        ensures
            final(self).wf(),
            known == old(self).spec_has(handle),
            !known ==> *final(self) == *old(self),
            known ==> exists|i: int|
                0 <= i < old(self).entries@.len() && (#[trigger] old(self).entries@[i]).handle
                    == handle && old(self).is_changed_at(
                    final(self),
                    i,
                    CryptoConnection {
                        tcp_relay: Some(relay_id),
                        rtt: if old(self).entries@[i].connection.udp_addr is None {
                            Duration { nanos: (TCP_RTT * NANOS_PER_MILLI) as u64 }
                        } else {
                            old(self).entries@[i].connection.rtt
                        },
                        ..old(self).entries@[i].connection
                    },
                ),
    {
        match self.find(handle) {
            Some(i) => {
                let ghost changed = CryptoConnection {
                    tcp_relay: Some(relay_id),
                    rtt: if old(self).entries@[i as int].connection.udp_addr is None {
                        Duration { nanos: (TCP_RTT * NANOS_PER_MILLI) as u64 }
                    } else {
                        old(self).entries@[i as int].connection.rtt
                    },
                    ..old(self).entries@[i as int].connection
                };
                self.entries[i].connection.tcp_relay = Some(relay_id);
                if self.entries[i].connection.udp_addr.is_none() {
                    self.entries[i].connection.rtt = Duration::from_millis(TCP_RTT);
                }
                proof {
                    assert(500 * 1_000_000 == 500_000_000int);
                    assert(self.entries@[i as int].connection.rtt == changed.rtt);
                    assert(self.entries@[i as int].connection == changed);
                    assert(self.entries@ =~= old(self).entries@.update(
                        i as int,
                        Entry { handle: old(self).entries@[i as int].handle, connection: changed },
                    ));
                    old(self).lemma_changed_at_is_wf(self, i as int, changed);
                }
                true
            },
            None => false,
        }
    }

    /// An engine stays well formed when one of its connections is replaced
    /// by a well-formed connection to the same peer.
    pub proof fn lemma_changed_at_is_wf(
        &self,
        after: &NetCrypto,
        i: int,
        connection: CryptoConnection,
    )
        requires
            self.wf(),
            0 <= i < self.entries@.len(),
            after.entries@ == self.entries@.update(
                i,
                Entry { handle: self.entries@[i].handle, connection },
            ),
            after.next_handle == self.next_handle,
            connection.wf(),
            connection.peer_real_pk == self.entries@[i].connection.peer_real_pk,
        ensures
            after.wf(),
    {
        assert forall|k: int| 0 <= k < after.entries@.len() implies (
        #[trigger] after.entries@[k]).connection.wf() && after.entries@[k].handle
            < after.next_handle by {
            if k != i {
                assert(after.entries@[k] == self.entries@[k]);
            }
        }
        assert forall|k: int, j: int| 0 <= k < j < after.entries@.len() implies (
        #[trigger] after.entries@[k]).handle != (#[trigger] after.entries@[j]).handle
            && after.entries@[k].connection.peer_real_pk
            != after.entries@[j].connection.peer_real_pk by {
            assert(self.entries@[k].handle != self.entries@[j].handle);
        }
    }

    /// Closes the connection `handle`: the engine forgets it. Tells back
    /// whether there was such a connection.
    pub fn close(&mut self, handle: u64) -> (known: bool)
        requires
            old(self).wf(),
        ensures
            final(self).wf(),
            known == old(self).spec_has(handle),
            !final(self).spec_has(handle),
            *final(self) == (NetCrypto { entries: final(self).entries, ..*old(self) }),
            !known ==> final(self).entries == old(self).entries,
            known ==> exists|i: int|
                0 <= i < old(self).entries@.len() && (#[trigger] old(self).entries@[i]).handle
                    == handle && final(self).entries@ == old(self).entries@.remove(i),
    {
        match self.find(handle) {
            Some(i) => {
                self.entries.remove(i);
                proof {
                    old(self).lemma_removed_is_wf(self, i as int);
                    assert(old(self).entries@[i as int].handle == handle);
                }
                true
            },
            None => false,
        }
    }

    /// An engine stays well formed when one of its connections is taken
    /// away, and the handle of that connection is then no longer known.
    pub proof fn lemma_removed_is_wf(&self, after: &NetCrypto, i: int)
        requires
            self.wf(),
            0 <= i < self.entries@.len(),
            after.entries@ == self.entries@.remove(i),
            after.next_handle == self.next_handle,
        ensures
            after.wf(),
            !after.spec_has(self.entries@[i].handle),
    {
        assert forall|k: int| 0 <= k < after.entries@.len() implies (
        #[trigger] after.entries@[k]).connection.wf() && after.entries@[k].handle
            < after.next_handle by {
            if k < i {
                assert(after.entries@[k] == self.entries@[k]);
            } else {
                assert(after.entries@[k] == self.entries@[k + 1]);
            }
        }
        assert forall|k: int, j: int| 0 <= k < j < after.entries@.len() implies (
        #[trigger] after.entries@[k]).handle != (#[trigger] after.entries@[j]).handle
            && after.entries@[k].connection.peer_real_pk
            != after.entries@[j].connection.peer_real_pk by {
            let k0 = if k < i { k } else { k + 1 };
            let j0 = if j < i { j } else { j + 1 };
            assert(after.entries@[k] == self.entries@[k0]);
            assert(after.entries@[j] == self.entries@[j0]);
            assert(self.entries@[k0].handle != self.entries@[j0].handle);
        }
        assert forall|k: int| 0 <= k < after.entries@.len() implies (
        #[trigger] after.entries@[k]).handle != self.entries@[i].handle by {
            let k0 = if k < i { k } else { k + 1 };
            assert(after.entries@[k] == self.entries@[k0]);
            if k0 < i {
                assert(self.entries@[k0].handle != self.entries@[i].handle);
            } else {
                assert(self.entries@[i].handle != self.entries@[k0].handle);
            }
        }
    }
}

impl NetCrypto {
    /// Whether the packets `out` are the packet with the bytes `wire`, once
    /// for each of the ways `endpoints`.
    pub open spec fn is_addressed(
        out: Seq<Outgoing>,
        endpoints: Seq<Endpoint>,
        wire: Seq<u8>,
    ) -> bool {
        &&& out.len() == endpoints.len()
        &&& forall|k: int|
            0 <= k < out.len() ==> (#[trigger] out[k]).endpoint == endpoints[k]
                && out[k].packet.wire() == wire
    }

    /// Takes `data` from the application for the connection `handle` and
    /// gives out the packets that carry it, one for each way by which data
    /// goes to the peer.
    ///
    /// Fails with `NotEstablished` where there is no such connection or it
    /// is not established, with `MalformedPacket` where the data is not fit
    /// to be sent, and with `WouldBlock` where the send window is used up.
    pub fn send(&mut self, handle: u64, data: Vec<u8>, now: Instant) -> (res: Result<
        Vec<Outgoing>,
        Error,
    >)
        requires
            old(self).wf(),
        ensures
            final(self).wf(),
            match res {
                Ok(out) => exists|i: int, sent: CryptoConnection, packet: CryptoData|
                    {
                        &&& 0 <= i < old(self).entries@.len()
                        &&& old(self).entries@[i].handle == handle
                        &&& #[trigger] sent.is_sent_after(
                            &old(self).entries@[i].connection,
                            data,
                            now,
                            packet,
                        )
                        &&& old(self).is_changed_at(
                            final(self),
                            i,
                            if sent.udp_addr is Some {
                                CryptoConnection { udp_send_attempt_time: Some(now), ..sent }
                            } else {
                                sent
                            },
                        )
                        &&& Self::is_addressed(
                            out@,
                            sent.spec_data_endpoints(now),
                            Packet::CryptoData(packet).wire(),
                        )
                    },
                Err(e) => {
                    &&& old(self).is_unchanged(final(self))
                    &&& if old(self).spec_has(handle) {
                        exists|i: int|
                            0 <= i < old(self).entries@.len() && (#[trigger] old(
                                self,
                            ).entries@[i]).handle == handle && old(
                                self,
                            ).entries@[i].connection.spec_send_error(data@) == Some(e)
                    } else {
                        e == Error::NotEstablished
                    }
                },
            },
    {
        let i = match self.find(handle) {
            Some(i) => i,
            None => { return Err(Error::NotEstablished); },
        };
        let packet = match self.entries[i].connection.send_data(data, now) {
            Ok(packet) => packet,
            Err(e) => {
                proof {
                    assert(self.entries@ =~= old(self).entries@);
                    assert(old(self).entries@[i as int].handle == handle);
                }
                return Err(e);
            },
        };
        let ghost sent = self.entries@[i as int].connection;
        let endpoints = self.entries[i].connection.data_endpoints(now);
        let mut out: Vec<Outgoing> = Vec::new();
        address(&mut out, &endpoints, &Packet::CryptoData(packet));
        self.entries[i].connection.note_sent(now);
        proof {
            let noted = if sent.udp_addr is Some {
                CryptoConnection { udp_send_attempt_time: Some(now), ..sent }
            } else {
                sent
            };
            assert(self.entries@ =~= old(self).entries@.update(
                i as int,
                Entry { handle: old(self).entries@[i as int].handle, connection: noted },
            ));
            old(self).lemma_changed_at_is_wf(self, i as int, noted);
            assert(sent.is_sent_after(&old(self).entries@[i as int].connection, data, now, packet));
            assert(Self::is_addressed(
                out@,
                sent.spec_data_endpoints(now),
                Packet::CryptoData(packet).wire(),
            )) by {
                assert forall|k: int| 0 <= k < out@.len() implies (#[trigger] out@[k]).endpoint
                    == endpoints@[k] && out@[k].packet.wire() == Packet::CryptoData(
                    packet,
                ).wire() by {
                    assert(out@[0 + k].endpoint == endpoints@[k]);
                }
            }
            assert(old(self).is_changed_at(self, i as int, noted));
        }
        Ok(out)
    }

    /// Hands the next piece of data of the connection `handle` to the
    /// application, if the piece with the next sequence number has come in.
    /// There is none where there is no such connection.
    pub fn poll_recv(&mut self, handle: u64) -> (res: Option<Vec<u8>>)
        requires
            old(self).wf(),
        ensures
            final(self).wf(),
            if old(self).spec_has(handle) {
                exists|i: int, polled: CryptoConnection|
                    {
                        &&& 0 <= i < old(self).entries@.len()
                        &&& old(self).entries@[i].handle == handle
                        &&& #[trigger] polled.is_polled_after(&old(self).entries@[i].connection, res)
                        &&& old(self).is_changed_at(final(self), i, polled)
                    }
            } else {
                res is None && old(self).is_unchanged(final(self))
            },
    {
        let i = match self.find(handle) {
            Some(i) => i,
            None => { return None; },
        };
        let res = self.entries[i].connection.poll_recv();
        proof {
            let polled = self.entries@[i as int].connection;
            assert(self.entries@ =~= old(self).entries@.update(
                i as int,
                Entry { handle: old(self).entries@[i as int].handle, connection: polled },
            ));
            old(self).lemma_changed_at_is_wf(self, i as int, polled);
            assert(polled.is_polled_after(&old(self).entries@[i as int].connection, res));
            assert(old(self).entries@[i as int].handle == handle);
        }
        res
    }

    /// What under the seal of the answer to the cookie request with the
    /// bytes `plain` under its seal lies, where the answer is made at `now`
    /// for a request in the name of `dht_pk` and the cookie in it is sealed
    /// with the nonce `cookie_nonce`: the cookie for the two keys of the
    /// requester, and the id of the request.
    pub open spec fn spec_cookie_response_plain(
        &self,
        plain: Seq<u8>,
        dht_pk: PublicKey,
        cookie_nonce: crate::secretbox::Nonce,
        now: Instant,
    ) -> Seq<u8> {
        cookie_nonce@ + crate::secretbox::spec_seal(
            plain.subrange(0, 32) + dht_pk@ + crate::binary_io::spec_u64_to_le_bytes(now.nanos),
            cookie_nonce@,
            self.cookie_keys.current@,
        ) + plain.subrange(56, 64)
    }

    /// Whether `response` is the answer, made at `now`, to the cookie
    /// request in the name of `dht_pk` with the bytes `plain` under its seal.
    pub open spec fn is_answer(
        &self,
        response: CookieResponse,
        plain: Seq<u8>,
        dht_pk: PublicKey,
        now: Instant,
    ) -> bool {
        &&& response.wf()
        &&& exists|cookie_nonce: crate::secretbox::Nonce|
            response.payload@ == crate::crypto_core::spec_seal(
                #[trigger] self.spec_cookie_response_plain(plain, dht_pk, cookie_nonce, now),
                response.nonce@,
                spec_precompute(dht_pk@, self.dht_sk@),
            )
    }

    /// Answers a cookie request.
    ///
    /// The request has to open under the key that our DHT secret key shares
    /// with the DHT key in whose name it comes. The answer carries a cookie
    /// for the two keys of the requester, made at `now`, and repeats the id
    /// of the request. Nothing is kept of the request.
    pub fn handle_cookie_request(&self, packet: &CookieRequest, now: Instant) -> (res: Result<
        CookieResponse,
        Error,
    >)
        ensures
            match packet.spec_get_payload(spec_precompute(packet.pk@, self.dht_sk@)) {
                Err(e) => res == Err::<CookieResponse, Error>(e),
                Ok(plain) => res matches Ok(response) && self.is_answer(
                    response,
                    plain,
                    packet.pk,
                    now,
                ),
            },
    {
        let key = precompute(&packet.pk, &self.dht_sk);
        let payload = match packet.get_payload(&key) {
            Ok(payload) => payload,
            Err(e) => { return Err(e); },
        };
        Ok(self.answer_cookie_request(&payload, &packet.pk, now))
    }

    /// Makes the answer to a cookie request that came in the name of
    /// `dht_pk` and carried `payload`: a cookie for the two keys of the
    /// requester, made at `now`, and the id of the request, sealed for the
    /// requester.
    pub fn answer_cookie_request(
        &self,
        payload: &CookieRequestPayload,
        dht_pk: &PublicKey,
        now: Instant,
    ) -> (response: CookieResponse)
        ensures
            self.is_answer(response, payload.wire(), *dht_pk, now),
    {
        let key = precompute(dht_pk, &self.dht_sk);
        let cookie = Cookie::new(payload.pk, *dht_pk, now);
        let encrypted = EncryptedCookie::new(&self.cookie_keys.current, &cookie);
        let ghost cookie_nonce = encrypted.nonce;
        let response_payload = CookieResponsePayload { cookie: encrypted, id: payload.id };
        let response = CookieResponse::new(&key, &response_payload);
        proof {
            let plain = payload.wire();
            crate::binary_io::lemma_u64_le_round_trip();
            payload.lemma_parses_wire(Seq::empty());
            assert(plain.subrange(0, 32) =~= payload.pk@);
            assert(plain.subrange(56, 64) =~= crate::binary_io::spec_u64_to_le_bytes(payload.id));
            assert(cookie.wire() =~= plain.subrange(0, 32) + dht_pk@
                + crate::binary_io::spec_u64_to_le_bytes(now.nanos));
            assert(response_payload.wire() =~= self.spec_cookie_response_plain(
                plain,
                *dht_pk,
                cookie_nonce,
                now,
            ));
        }
        response
    }
}

} // verus!
