//! The cookie that proves to a peer that it answered a cookie request of
//! ours a short while ago.
//!
//! A cookie holds the two long-term public keys of the peer that asked for
//! it and the time at which it was made. It travels sealed under a symmetric
//! key that only its maker knows, so the maker can recognise it later
//! without keeping any state.

use vstd::prelude::*;
use vstd::slice::slice_subrange;
use crate::binary_io::{
    append, gen_slice, le_u64, lemma_u64_le_round_trip, missing, spec_u64_from_le_bytes,
    spec_u64_to_le_bytes, take_array, to_vec, u64_to_le_bytes, FromBytes, GenError, ParseError,
    ToBytes,
};
use crate::crypto_core::{hash512, spec_hash512, Digest, PublicKey, PUBLICKEYBYTES};
use crate::error::Error;
use crate::secretbox;
use crate::time::{Instant, NANOS_PER_SEC};

verus! {

/// How many seconds a cookie stays valid.
pub const COOKIE_TIMEOUT: u64 = 15;

/// Number of bytes in the wire form of a [`Cookie`].
pub const COOKIE_SIZE: usize = 72;

/// Number of bytes in the sealed part of an [`EncryptedCookie`].
pub const ENCRYPTED_COOKIE_PAYLOAD_SIZE: usize = 88;

/// Number of bytes in the wire form of an [`EncryptedCookie`].
pub const ENCRYPTED_COOKIE_SIZE: usize = 112;

/// The two long-term keys of a peer and the time at which the cookie was made.
///
/// On the wire: the real public key (32 bytes), the DHT public key (32
/// bytes), the time (8 bytes, little-endian).
#[derive(Clone, Copy, Debug, PartialEq, Eq)]
pub struct Cookie {
    /// Long-term public key of the peer.
    pub real_pk: PublicKey,
    /// DHT public key of the peer.
    pub dht_pk: PublicKey,
    /// When the cookie was made, in nanoseconds of the maker's clock.
    pub time: u64,
}

/// A [`Cookie`] sealed under the symmetric key of its maker.
///
/// On the wire: the nonce (24 bytes), the sealed cookie (88 bytes).
#[derive(Clone, Debug, PartialEq, Eq)]
pub struct EncryptedCookie {
    /// Nonce under which the cookie was sealed.
    pub nonce: secretbox::Nonce,
    /// The sealed cookie.
    pub payload: Vec<u8>,
}

/// The symmetric keys under which cookies are sealed and opened.
///
/// Cookies are sealed under the current key. After a change of key, the
/// cookies that were sealed under the key before it can still be opened.
/// The key changes no more often than a cookie lives, so that every cookie
/// can be opened for as long as it is valid.
#[derive(Clone, Copy, Debug, PartialEq, Eq)]
pub struct CookieKeys {
    /// The key under which cookies are sealed.
    pub current: secretbox::Key,
    /// The key that was the current one before the last change, if there was one.
    pub previous: Option<secretbox::Key>,
    /// When the key was changed last, if it was changed.
    pub rotated_at: Option<Instant>,
}

impl CookieKeys {
    /// A fresh random key, with no key before it.
    pub fn new() -> (keys: CookieKeys)
        ensures
            keys.previous is None,
            keys.rotated_at is None,
    {
        CookieKeys { current: secretbox::gen_key(), previous: None, rotated_at: None }
    }

    /// The key `key`, with no key before it.
    pub fn from_key(key: secretbox::Key) -> (keys: CookieKeys)
        ensures
            keys == (CookieKeys { current: key, previous: None, rotated_at: None }),
    {
        CookieKeys { current: key, previous: None, rotated_at: None }
    }

    /// Whether the key may be changed at `now`: it was never changed, or the
    /// last change is longer ago than a cookie lives.
    pub open spec fn spec_may_rotate(&self, now: Instant) -> bool {
        match self.rotated_at {
            Some(time) => now.spec_since(time) > COOKIE_TIMEOUT * NANOS_PER_SEC,
            None => true,
        }
    }

    /// Whether the key may be changed at `now`.
    pub fn may_rotate(&self, now: Instant) -> (may: bool)
        ensures
            may == self.spec_may_rotate(now),
    {
        match self.rotated_at {
            Some(time) => now.duration_since(time).nanos > COOKIE_TIMEOUT * NANOS_PER_SEC,
            None => true,
        }
    }

    /// Replaces the current key by a fresh random one, if the key may be
    /// changed at `now`, and keeps the replaced key for the cookies that
    /// were sealed under it. Tells whether the key was changed.
    pub fn rotate(&mut self, now: Instant) -> (rotated: bool)
        ensures
            rotated == old(self).spec_may_rotate(now),
            rotated ==> final(self).previous == Some(old(self).current) && final(self).rotated_at
                == Some(now),
            !rotated ==> *final(self) == *old(self),
    {
        let fresh = secretbox::gen_key();
        self.rotate_to(fresh, now)
    }

    /// Replaces the current key by `fresh`, if the key may be changed at
    /// `now`, and keeps the replaced key for the cookies that were sealed
    /// under it. Tells whether the key was changed.
    pub fn rotate_to(&mut self, fresh: secretbox::Key, now: Instant) -> (rotated: bool)
        ensures
            rotated == old(self).spec_may_rotate(now),
            rotated ==> *final(self) == (CookieKeys {
                current: fresh,
                previous: Some(old(self).current),
                rotated_at: Some(now),
            }),
            !rotated ==> *final(self) == *old(self),
    {
        if !self.may_rotate(now) {
            return false;
        }
        self.previous = Some(self.current);
        self.current = fresh;
        self.rotated_at = Some(now);
        true
    }

    /// A cookie that opens under the current key still opens after the key
    /// was changed once.
    pub proof fn lemma_opens_after_rotation(
        &self,
        rotated: &CookieKeys,
        cookie: &EncryptedCookie,
        fresh: secretbox::Key,
    )
        requires
            rotated.current == fresh,
            rotated.previous == Some(self.current),
            cookie.spec_get_payload(self.current@) is Ok,
        ensures
            rotated.spec_open(cookie) is Ok,
    {
    }

    /// A cookie that was made before a change of key has run out by the
    /// time the key can be changed again: two changes of key lie further
    /// apart than a cookie lives.
    pub proof fn lemma_cookie_runs_out_first(
        &self,
        cookie: Cookie,
        first: Instant,
        second: Instant,
    )
        requires
            self.rotated_at == Some(first),
            first.nanos <= second.nanos,
            cookie.time <= first.nanos,
            self.spec_may_rotate(second),
        ensures
            cookie.spec_is_timed_out(second),
    {
    }

    /// What opening `cookie` gives: what the current key gives or, where the
    /// current key fails, what the key before it gives; where both fail, the
    /// failure of the current key.
    pub open spec fn spec_open(&self, cookie: &EncryptedCookie) -> Result<Seq<u8>, Error> {
        match cookie.spec_get_payload(self.current@) {
            Ok(plain) => Ok(plain),
            Err(e) => match self.previous {
                Some(previous) => match cookie.spec_get_payload(previous@) {
                    Ok(plain) => Ok(plain),
                    Err(_) => Err(e),
                },
                None => Err(e),
            },
        }
    }

    /// Opens `cookie` under the current key or, where that fails, under the
    /// key before it.
    pub fn open(&self, cookie: &EncryptedCookie) -> (res: Result<Cookie, Error>)
        ensures
            match res {
                Ok(plain) => self.spec_open(cookie) == Ok::<Seq<u8>, Error>(plain.wire()),
                Err(e) => self.spec_open(cookie) == Err::<Seq<u8>, Error>(e),
            },
    {
        match cookie.get_payload(&self.current) {
            Ok(plain) => Ok(plain),
            Err(e) => match self.previous {
                Some(previous) => match cookie.get_payload(&previous) {
                    Ok(plain) => Ok(plain),
                    Err(_) => Err(e),
                },
                None => Err(e),
            },
        }
    }
}

impl Cookie {
    /// A cookie for the peer with the keys `real_pk` and `dht_pk`, made at `now`.
    pub fn new(real_pk: PublicKey, dht_pk: PublicKey, now: Instant) -> (cookie: Cookie)
        ensures
            cookie == (Cookie { real_pk, dht_pk, time: now.nanos }),
    {
        Cookie { real_pk, dht_pk, time: now.nanos }
    }

    /// Whether the cookie is older at `now` than its lifetime of 15 seconds.
    pub open spec fn spec_is_timed_out(&self, now: Instant) -> bool {
        now.nanos > self.time + COOKIE_TIMEOUT * NANOS_PER_SEC
    }

    /// Whether the cookie is older at `now` than its lifetime of 15 seconds.
    pub fn is_timed_out(&self, now: Instant) -> (timed_out: bool)
        ensures
            timed_out == self.spec_is_timed_out(now),
    {
        now.nanos >= self.time && now.nanos - self.time > COOKIE_TIMEOUT * NANOS_PER_SEC
    }

    /// Whether a cookie can be read from the front of `i`.
    pub open spec fn parses(i: Seq<u8>) -> bool {
        i.len() >= COOKIE_SIZE
    }

    /// The bytes of this cookie.
    pub fn encode(&self) -> (out: Vec<u8>)
        ensures
            out@ == self.wire(),
            out@.len() == COOKIE_SIZE,
    {
        let mut out: Vec<u8> = Vec::new();
        append(&mut out, self.real_pk.0.as_slice());
        append(&mut out, self.dht_pk.0.as_slice());
        let time = u64_to_le_bytes(self.time);
        append(&mut out, time.as_slice());
        out
    }

    /// Every cookie can be read back from its bytes, whatever follows them.
    pub proof fn lemma_parses_wire(&self, tail: Seq<u8>)
        ensures
            self.wire().len() == COOKIE_SIZE,
            Cookie::parses(self.wire() + tail),
    {
        lemma_u64_le_round_trip();
    }

    /// Two cookies with the same bytes are the same cookie, and what follows
    /// the bytes is the same too.
    pub proof fn lemma_wire_injective(&self, other: &Cookie, tail: Seq<u8>, other_tail: Seq<u8>)
        requires
            self.wire() + tail == other.wire() + other_tail,
        ensures
            *self == *other,
            tail == other_tail,
    {
        lemma_u64_le_round_trip();
        let a = self.wire() + tail;
        let b = other.wire() + other_tail;
        assert(self.real_pk@ =~= a.subrange(0, 32));
        assert(other.real_pk@ =~= b.subrange(0, 32));
        assert(self.dht_pk@ =~= a.subrange(32, 64));
        assert(other.dht_pk@ =~= b.subrange(32, 64));
        assert(spec_u64_to_le_bytes(self.time) =~= a.subrange(64, 72));
        assert(spec_u64_to_le_bytes(other.time) =~= b.subrange(64, 72));
        assert(tail =~= a.subrange(72, a.len() as int));
        assert(other_tail =~= b.subrange(72, b.len() as int));
        assert(self.real_pk.0 == other.real_pk.0);
        assert(self.dht_pk.0 == other.dht_pk.0);
        assert(spec_u64_from_le_bytes(spec_u64_to_le_bytes(self.time)) == self.time);
    }
}

impl ToBytes for Cookie {
    open spec fn wire(&self) -> Seq<u8> {
        self.real_pk@ + self.dht_pk@ + spec_u64_to_le_bytes(self.time)
    }

    fn to_bytes(&self, buf: &mut [u8], pos: usize) -> (res: Result<usize, GenError>)
        ensures
            res is Ok <==> pos + COOKIE_SIZE <= old(buf)@.len(),
            res matches Err(e) ==> e == GenError::BufferTooSmall(
                missing(old(buf)@.len() as int, pos as int, COOKIE_SIZE as int) as usize,
            ),
    {
        let bytes = self.encode();
        gen_slice(buf, pos, bytes.as_slice())
    }
}

impl FromBytes for Cookie {
    fn from_bytes(i: &[u8]) -> (res: Result<(&[u8], Cookie), ParseError>)
        ensures
            match res {
                Ok((rest, cookie)) => Cookie::parses(i@) && cookie.wire() + rest@ == i@,
                Err(e) => !Cookie::parses(i@) && e == ParseError::Incomplete(
                    (COOKIE_SIZE - i@.len()) as usize,
                ),
            },
    {
        let len = i.len();
        if len < COOKIE_SIZE {
            return Err(ParseError::Incomplete(COOKIE_SIZE - len));
        }
        let cookie = Cookie {
            real_pk: PublicKey(take_array(i, 0)),
            dht_pk: PublicKey(take_array(i, PUBLICKEYBYTES)),
            time: le_u64(i, 2 * PUBLICKEYBYTES),
        };
        let rest = slice_subrange(i, COOKIE_SIZE, len);
        proof {
            lemma_u64_le_round_trip();
            assert(i@.subrange(64, 72).len() == 8);
            assert(cookie.wire() + rest@ =~= i@);
        }
        Ok((rest, cookie))
    }
}

impl EncryptedCookie {
    /// The sealed part has the length that a sealed cookie has.
    pub open spec fn wf(&self) -> bool {
        self.payload@.len() == ENCRYPTED_COOKIE_PAYLOAD_SIZE
    }

    /// Whether an encrypted cookie can be read from the front of `i`.
    pub open spec fn parses(i: Seq<u8>) -> bool {
        i.len() >= ENCRYPTED_COOKIE_SIZE
    }

    /// Seals `payload` under `symmetric_key` with a fresh random nonce.
    pub fn new(symmetric_key: &secretbox::Key, payload: &Cookie) -> (cookie: EncryptedCookie)
        ensures
            cookie.wf(),
            cookie.payload@ == secretbox::spec_seal(payload.wire(), cookie.nonce@, symmetric_key@),
    {
        let nonce = secretbox::gen_nonce();
        EncryptedCookie::with_nonce(symmetric_key, payload, nonce)
    }

    /// Seals `payload` under `symmetric_key` with the nonce `nonce`.
    pub fn with_nonce(
        symmetric_key: &secretbox::Key,
        payload: &Cookie,
        nonce: secretbox::Nonce,
    ) -> (cookie: EncryptedCookie)
        ensures
            cookie.wf(),
            cookie.nonce == nonce,
            cookie.payload@ == secretbox::spec_seal(payload.wire(), nonce@, symmetric_key@),
    {
        let plain = payload.encode();
        let sealed = secretbox::seal(plain.as_slice(), &nonce, symmetric_key);
        EncryptedCookie { nonce, payload: sealed }
    }

    /// What opening this cookie under `symmetric_key` gives: the cookie, or
    /// the reason why there is none.
    pub open spec fn spec_get_payload(&self, symmetric_key: Seq<u8>) -> Result<
        Seq<u8>,
        Error,
    > {
        match secretbox::spec_open(self.payload@, self.nonce@, symmetric_key) {
            None => Err(Error::Decrypt),
            Some(plain) => if Cookie::parses(plain) {
                Ok(plain.subrange(0, COOKIE_SIZE as int))
            } else {
                Err(Error::MalformedPacket)
            },
        }
    }

    /// Opens the cookie under `symmetric_key`.
    ///
    /// Fails with `Decrypt` where the sealed part does not pass
    /// authentication, and with `MalformedPacket` where what comes out is too
    /// short for a cookie.
    pub fn get_payload(&self, symmetric_key: &secretbox::Key) -> (res: Result<Cookie, Error>)
        ensures
            match res {
                Ok(cookie) => self.spec_get_payload(symmetric_key@) == Ok::<Seq<u8>, Error>(
                    cookie.wire(),
                ),
                Err(e) => self.spec_get_payload(symmetric_key@) == Err::<Seq<u8>, Error>(e),
            },
    {
        let plain = match secretbox::open(self.payload.as_slice(), &self.nonce, symmetric_key) {
            Ok(plain) => plain,
            Err(e) => { return Err(e); },
        };
        match Cookie::from_bytes(plain.as_slice()) {
            Ok((rest, cookie)) => {
                proof {
                    cookie.lemma_parses_wire(rest@);
                    assert(plain@.subrange(0, COOKIE_SIZE as int) =~= cookie.wire());
                }
                Ok(cookie)
            },
            Err(_) => Err(Error::MalformedPacket),
        }
    }

    /// The SHA-512 digest of the bytes of this encrypted cookie.
    pub fn hash(&self) -> (digest: Digest)
        ensures
            digest@ == spec_hash512(self.wire()),
    {
        let bytes = self.encode();
        hash512(bytes.as_slice())
    }

    /// The bytes of this encrypted cookie.
    pub fn encode(&self) -> (out: Vec<u8>)
        ensures
            out@ == self.wire(),
    {
        let mut out: Vec<u8> = Vec::new();
        append(&mut out, self.nonce.0.as_slice());
        append(&mut out, self.payload.as_slice());
        out
    }

    /// Whether `other` has the same nonce and the same sealed part.
    pub open spec fn same(&self, other: &EncryptedCookie) -> bool {
        self.nonce == other.nonce && self.payload@ == other.payload@
    }

    /// A copy of this encrypted cookie.
    pub fn duplicate(&self) -> (copy: EncryptedCookie)
        ensures
            copy.same(self),
            copy.wire() == self.wire(),
    {
        EncryptedCookie { nonce: self.nonce, payload: to_vec(self.payload.as_slice()) }
    }

    /// A well-formed encrypted cookie can be read back from its bytes,
    /// whatever follows them.
    pub proof fn lemma_parses_wire(&self, tail: Seq<u8>)
        requires
            self.wf(),
        ensures
            self.wire().len() == ENCRYPTED_COOKIE_SIZE,
            EncryptedCookie::parses(self.wire() + tail),
    {
    }

    /// Two well-formed encrypted cookies with the same bytes are the same,
    /// and what follows the bytes is the same too.
    pub proof fn lemma_wire_injective(
        &self,
        other: &EncryptedCookie,
        tail: Seq<u8>,
        other_tail: Seq<u8>,
    )
        requires
            self.wf(),
            other.wf(),
            self.wire() + tail == other.wire() + other_tail,
        ensures
            self.same(other),
            tail == other_tail,
    {
        let a = self.wire() + tail;
        let b = other.wire() + other_tail;
        assert(self.nonce@ =~= a.subrange(0, 24));
        assert(other.nonce@ =~= b.subrange(0, 24));
        assert(self.payload@ =~= a.subrange(24, 112));
        assert(other.payload@ =~= b.subrange(24, 112));
        assert(tail =~= a.subrange(112, a.len() as int));
        assert(other_tail =~= b.subrange(112, b.len() as int));
        assert(self.nonce.0 == other.nonce.0);
    }
}

impl ToBytes for EncryptedCookie {
    open spec fn wire(&self) -> Seq<u8> {
        self.nonce@ + self.payload@
    }

    fn to_bytes(&self, buf: &mut [u8], pos: usize) -> (res: Result<usize, GenError>)
        ensures
            res is Ok <==> pos + self.wire().len() <= old(buf)@.len(),
            res matches Err(e) ==> e == GenError::BufferTooSmall(
                missing(old(buf)@.len() as int, pos as int, self.wire().len() as int) as usize,
            ),
    {
        let bytes = self.encode();
        gen_slice(buf, pos, bytes.as_slice())
    }
}

impl FromBytes for EncryptedCookie {
    fn from_bytes(i: &[u8]) -> (res: Result<(&[u8], EncryptedCookie), ParseError>)
        ensures
            match res {
                Ok((rest, cookie)) => EncryptedCookie::parses(i@) && cookie.wf() && cookie.wire()
                    + rest@ == i@,
                Err(e) => !EncryptedCookie::parses(i@) && e == ParseError::Incomplete(
                    (ENCRYPTED_COOKIE_SIZE - i@.len()) as usize,
                ),
            },
    {
        let len = i.len();
        if len < ENCRYPTED_COOKIE_SIZE {
            return Err(ParseError::Incomplete(ENCRYPTED_COOKIE_SIZE - len));
        }
        let cookie = EncryptedCookie {
            nonce: secretbox::Nonce(take_array(i, 0)),
            payload: to_vec(slice_subrange(i, secretbox::NONCEBYTES, ENCRYPTED_COOKIE_SIZE)),
        };
        let rest = slice_subrange(i, ENCRYPTED_COOKIE_SIZE, len);
        assert(cookie.wire() + rest@ =~= i@);
        Ok((rest, cookie))
    }
}

} // verus!
