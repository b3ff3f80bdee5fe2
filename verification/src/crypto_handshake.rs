//! The packet that carries the session key and the base nonce of a peer,
//! and what it carries.

use vstd::prelude::*;
use vstd::slice::slice_subrange;
use crate::binary_io::{
    append, gen_slice, missing, take_array, to_vec, FromBytes, GenError, ParseError, ToBytes,
};
use crate::cookie::{EncryptedCookie, ENCRYPTED_COOKIE_SIZE};
use crate::crypto_core::{
    gen_nonce, open, seal, spec_open, spec_seal, Digest, Nonce, PrecomputedKey, PublicKey,
    DIGESTBYTES, NONCEBYTES, PUBLICKEYBYTES,
};
use crate::error::Error;

verus! {

/// First byte of a [`CryptoHandshake`] on the wire.
pub const CRYPTO_HANDSHAKE_TAG: u8 = 0x1a;

/// Number of bytes in the wire form of a [`CryptoHandshakePayload`].
pub const CRYPTO_HANDSHAKE_PAYLOAD_SIZE: usize = 232;

/// Number of bytes in the sealed part of a [`CryptoHandshake`].
pub const CRYPTO_HANDSHAKE_SEALED_SIZE: usize = 248;

/// Number of bytes in the wire form of a [`CryptoHandshake`].
pub const CRYPTO_HANDSHAKE_SIZE: usize = 385;

/// The packet that sets up the session keys.
///
/// On the wire: the tag `0x1a`, the encrypted cookie that the receiver made
/// (112 bytes), the nonce (24 bytes), the sealed payload (248 bytes).
#[derive(Clone, Debug, PartialEq, Eq)]
pub struct CryptoHandshake {
    /// The cookie that the receiver of this packet made for its sender.
    pub cookie: EncryptedCookie,
    /// Nonce under which the payload was sealed.
    pub nonce: Nonce,
    /// The sealed payload.
    pub payload: Vec<u8>,
}

/// What a [`CryptoHandshake`] carries under its seal.
///
/// On the wire: the base nonce (24 bytes), the session public key (32
/// bytes), the SHA-512 digest of the cookie that travels with the packet (64
/// bytes), a fresh encrypted cookie for the receiver (112 bytes).
#[derive(Clone, Debug, PartialEq, Eq)]
pub struct CryptoHandshakePayload {
    /// The nonce from which the sender counts the nonces of its data packets.
    pub base_nonce: Nonce,
    /// The public key of the sender for this session.
    pub session_pk: PublicKey,
    /// SHA-512 digest of the encrypted cookie that travels with the packet.
    pub cookie_hash: Digest,
    /// A cookie that the receiver can use for a handshake packet of its own.
    pub cookie: EncryptedCookie,
}

impl CryptoHandshakePayload {
    /// The cookie in it is well formed.
    pub open spec fn wf(&self) -> bool {
        self.cookie.wf()
    }

    /// Whether a payload can be read from the front of `i`.
    pub open spec fn parses(i: Seq<u8>) -> bool {
        i.len() >= CRYPTO_HANDSHAKE_PAYLOAD_SIZE
    }

    /// Whether `other` has the same fields.
    pub open spec fn same(&self, other: &CryptoHandshakePayload) -> bool {
        &&& self.base_nonce == other.base_nonce
        &&& self.session_pk == other.session_pk
        &&& self.cookie_hash == other.cookie_hash
        &&& self.cookie.same(&other.cookie)
    }

    /// The bytes of this payload.
    pub fn encode(&self) -> (out: Vec<u8>)
        ensures
            out@ == self.wire(),
    {
        let mut out: Vec<u8> = Vec::new();
        append(&mut out, self.base_nonce.0.as_slice());
        append(&mut out, self.session_pk.0.as_slice());
        append(&mut out, self.cookie_hash.0.as_slice());
        let cookie = self.cookie.encode();
        append(&mut out, cookie.as_slice());
        out
    }

    /// A well-formed payload can be read back from its bytes, whatever
    /// follows them.
    pub proof fn lemma_parses_wire(&self, tail: Seq<u8>)
        requires
            self.wf(),
        ensures
            self.wire().len() == CRYPTO_HANDSHAKE_PAYLOAD_SIZE,
            CryptoHandshakePayload::parses(self.wire() + tail),
    {
    }

    /// Two well-formed payloads with the same bytes are the same payload,
    /// and what follows the bytes is the same too.
    pub proof fn lemma_wire_injective(
        &self,
        other: &CryptoHandshakePayload,
        tail: Seq<u8>,
        other_tail: Seq<u8>,
    )
        requires
            self.wf(),
            other.wf(),
            self.wire() + tail == other.wire() + other_tail,
        ensures
            self.same(other),
            tail == other_tail,
    {
        let a = self.wire() + tail;
        let b = other.wire() + other_tail;
        assert(self.base_nonce@ =~= a.subrange(0, 24));
        assert(other.base_nonce@ =~= b.subrange(0, 24));
        assert(self.session_pk@ =~= a.subrange(24, 56));
        assert(other.session_pk@ =~= b.subrange(24, 56));
        assert(self.cookie_hash@ =~= a.subrange(56, 120));
        assert(other.cookie_hash@ =~= b.subrange(56, 120));
        assert(self.cookie.wire() + tail =~= a.subrange(120, a.len() as int));
        assert(other.cookie.wire() + other_tail =~= b.subrange(120, b.len() as int));
        self.cookie.lemma_wire_injective(&other.cookie, tail, other_tail);
        assert(self.base_nonce.0 == other.base_nonce.0);
        assert(self.session_pk.0 == other.session_pk.0);
        assert(self.cookie_hash.0 == other.cookie_hash.0);
    }
}

impl ToBytes for CryptoHandshakePayload {
    open spec fn wire(&self) -> Seq<u8> {
        self.base_nonce@ + self.session_pk@ + self.cookie_hash@ + self.cookie.wire()
    }

    fn to_bytes(&self, buf: &mut [u8], pos: usize) -> (res: Result<usize, GenError>)
        ensures
            res is Ok <==> pos + self.wire().len() <= old(buf)@.len(),
            res matches Err(e) ==> e == GenError::BufferTooSmall(
                missing(old(buf)@.len() as int, pos as int, self.wire().len() as int) as usize,
            ),
    {
        let bytes = self.encode();
        gen_slice(buf, pos, bytes.as_slice())
    }
}

impl FromBytes for CryptoHandshakePayload {
    fn from_bytes(i: &[u8]) -> (res: Result<(&[u8], CryptoHandshakePayload), ParseError>)
        ensures
            match res {
                Ok((rest, payload)) => CryptoHandshakePayload::parses(i@) && payload.wf()
                    && payload.wire() + rest@ == i@,
                Err(e) => !CryptoHandshakePayload::parses(i@) && e == ParseError::Incomplete(
                    (CRYPTO_HANDSHAKE_PAYLOAD_SIZE - i@.len()) as usize,
                ),
            },
    {
        let len = i.len();
        if len < CRYPTO_HANDSHAKE_PAYLOAD_SIZE {
            return Err(ParseError::Incomplete(CRYPTO_HANDSHAKE_PAYLOAD_SIZE - len));
        }
        let at = NONCEBYTES + PUBLICKEYBYTES + DIGESTBYTES;
        let cookie = match EncryptedCookie::from_bytes(slice_subrange(i, at, len)) {
            Ok((_, cookie)) => cookie,
            Err(e) => { return Err(e); },
        };
        let payload = CryptoHandshakePayload {
            base_nonce: Nonce(take_array(i, 0)),
            session_pk: PublicKey(take_array(i, NONCEBYTES)),
            cookie_hash: Digest(take_array(i, NONCEBYTES + PUBLICKEYBYTES)),
            cookie,
        };
        let rest = slice_subrange(i, CRYPTO_HANDSHAKE_PAYLOAD_SIZE, len);
        proof {
            assert(payload.cookie.wire() =~= i@.subrange(120, 232));
            assert(payload.wire() + rest@ =~= i@);
        }
        Ok((rest, payload))
    }
}

impl CryptoHandshake {
    /// The cookie is well formed and the sealed part has the length that a
    /// sealed payload has.
    pub open spec fn wf(&self) -> bool {
        self.cookie.wf() && self.payload@.len() == CRYPTO_HANDSHAKE_SEALED_SIZE
    }

    /// Whether a handshake packet can be read from the front of `i`.
    pub open spec fn parses(i: Seq<u8>) -> bool {
        i.len() >= CRYPTO_HANDSHAKE_SIZE && i[0] == CRYPTO_HANDSHAKE_TAG
    }

    /// Whether `other` has the same fields.
    pub open spec fn same(&self, other: &CryptoHandshake) -> bool {
        self.cookie.same(&other.cookie) && self.nonce == other.nonce && self.payload@
            == other.payload@
    }

    /// A handshake packet with the cookie `cookie`, its payload sealed under
    /// `shared_secret` with a fresh random nonce.
    pub fn new(
        shared_secret: &PrecomputedKey,
        payload: &CryptoHandshakePayload,
        cookie: EncryptedCookie,
    ) -> (packet: CryptoHandshake)
        requires
            payload.wf(),
        ensures
            packet.cookie == cookie,
            packet.payload@.len() == CRYPTO_HANDSHAKE_SEALED_SIZE,
            packet.payload@ == spec_seal(payload.wire(), packet.nonce@, shared_secret@),
    {
        let nonce = gen_nonce();
        CryptoHandshake::with_nonce(shared_secret, payload, cookie, nonce)
    }

    /// A handshake packet with the cookie `cookie`, its payload sealed under
    /// `shared_secret` with the nonce `nonce`.
    pub fn with_nonce(
        shared_secret: &PrecomputedKey,
        payload: &CryptoHandshakePayload,
        cookie: EncryptedCookie,
        nonce: Nonce,
    ) -> (packet: CryptoHandshake)
        requires
            payload.wf(),
        ensures
            packet.cookie == cookie,
            packet.nonce == nonce,
            packet.payload@.len() == CRYPTO_HANDSHAKE_SEALED_SIZE,
            packet.payload@ == spec_seal(payload.wire(), nonce@, shared_secret@),
    {
        let plain = payload.encode();
        proof {
            payload.lemma_parses_wire(Seq::empty());
        }
        let sealed = seal(shared_secret, &nonce, plain.as_slice());
        CryptoHandshake { cookie, nonce, payload: sealed }
    }

    /// What opening this packet under `shared_secret` gives: the bytes of
    /// the payload, or the reason why there is none.
    pub open spec fn spec_get_payload(&self, shared_secret: Seq<u8>) -> Result<
        Seq<u8>,
        Error,
    > {
        match spec_open(self.payload@, self.nonce@, shared_secret) {
            None => Err(Error::Decrypt),
            Some(plain) => if CryptoHandshakePayload::parses(plain) {
                Ok(plain.subrange(0, CRYPTO_HANDSHAKE_PAYLOAD_SIZE as int))
            } else {
                Err(Error::MalformedPacket)
            },
        }
    }

    /// Opens the payload under `shared_secret`.
    ///
    /// Fails with `Decrypt` where the sealed part does not pass
    /// authentication, and with `MalformedPacket` where what comes out is no
    /// payload.
    pub fn get_payload(&self, shared_secret: &PrecomputedKey) -> (res: Result<
        CryptoHandshakePayload,
        Error,
    >)
        ensures
            match res {
                Ok(payload) => payload.wf() && self.spec_get_payload(shared_secret@) == Ok::<
                    Seq<u8>,
                    Error,
                >(payload.wire()),
                Err(e) => self.spec_get_payload(shared_secret@) == Err::<Seq<u8>, Error>(e),
            },
    {
        let plain = match open(shared_secret, &self.nonce, self.payload.as_slice()) {
            Ok(plain) => plain,
            Err(e) => { return Err(e); },
        };
        match CryptoHandshakePayload::from_bytes(plain.as_slice()) {
            Ok((rest, payload)) => {
                proof {
                    payload.lemma_parses_wire(rest@);
                    assert(plain@.subrange(0, CRYPTO_HANDSHAKE_PAYLOAD_SIZE as int)
                        =~= payload.wire());
                }
                Ok(payload)
            },
            Err(_) => Err(Error::MalformedPacket),
        }
    }

    /// The bytes of this packet.
    pub fn encode(&self) -> (out: Vec<u8>)
        ensures
            out@ == self.wire(),
    {
        let mut out: Vec<u8> = Vec::new();
        out.push(CRYPTO_HANDSHAKE_TAG);
        let cookie = self.cookie.encode();
        append(&mut out, cookie.as_slice());
        append(&mut out, self.nonce.0.as_slice());
        append(&mut out, self.payload.as_slice());
        assert(out@ =~= self.wire());
        out
    }

    /// A copy of this packet.
    pub fn duplicate(&self) -> (copy: CryptoHandshake)
        ensures
            copy.same(self),
            copy.wire() == self.wire(),
    {
        CryptoHandshake {
            cookie: self.cookie.duplicate(),
            nonce: self.nonce,
            payload: to_vec(self.payload.as_slice()),
        }
    }

    /// A well-formed packet can be read back from its bytes, whatever
    /// follows them.
    pub proof fn lemma_parses_wire(&self, tail: Seq<u8>)
        requires
            self.wf(),
        ensures
            self.wire().len() == CRYPTO_HANDSHAKE_SIZE,
            CryptoHandshake::parses(self.wire() + tail),
    {
    }

    /// Two well-formed packets with the same bytes are the same packet, and
    /// what follows the bytes is the same too.
    pub proof fn lemma_wire_injective(
        &self,
        other: &CryptoHandshake,
        tail: Seq<u8>,
        other_tail: Seq<u8>,
    )
        requires
            self.wf(),
            other.wf(),
            self.wire() + tail == other.wire() + other_tail,
        ensures
            self.same(other),
            tail == other_tail,
    {
        let a = self.wire() + tail;
        let b = other.wire() + other_tail;
        assert(self.cookie.wire() =~= a.subrange(1, 113));
        assert(other.cookie.wire() =~= b.subrange(1, 113));
        self.cookie.lemma_wire_injective(&other.cookie, Seq::empty(), Seq::empty());
        assert(self.nonce@ =~= a.subrange(113, 137));
        assert(other.nonce@ =~= b.subrange(113, 137));
        assert(self.payload@ =~= a.subrange(137, 385));
        assert(other.payload@ =~= b.subrange(137, 385));
        assert(tail =~= a.subrange(385, a.len() as int));
        assert(other_tail =~= b.subrange(385, b.len() as int));
        assert(self.nonce.0 == other.nonce.0);
    }
}

impl ToBytes for CryptoHandshake {
    open spec fn wire(&self) -> Seq<u8> {
        seq![CRYPTO_HANDSHAKE_TAG] + self.cookie.wire() + self.nonce@ + self.payload@
    }

    fn to_bytes(&self, buf: &mut [u8], pos: usize) -> (res: Result<usize, GenError>)
        ensures
            res is Ok <==> pos + self.wire().len() <= old(buf)@.len(),
            res matches Err(e) ==> e == GenError::BufferTooSmall(
                missing(old(buf)@.len() as int, pos as int, self.wire().len() as int) as usize,
            ),
    {
        let bytes = self.encode();
        gen_slice(buf, pos, bytes.as_slice())
    }
}

impl FromBytes for CryptoHandshake {
    fn from_bytes(i: &[u8]) -> (res: Result<(&[u8], CryptoHandshake), ParseError>)
        ensures
            match res {
                Ok((rest, packet)) => CryptoHandshake::parses(i@) && packet.wf() && packet.wire()
                    + rest@ == i@,
                Err(e) => !CryptoHandshake::parses(i@) && e == if i@.len() > 0 && i@[0]
                    != CRYPTO_HANDSHAKE_TAG {
                    ParseError::Malformed
                } else {
                    ParseError::Incomplete((CRYPTO_HANDSHAKE_SIZE - i@.len()) as usize)
                },
            },
    {
        let len = i.len();
        if len > 0 && i[0] != CRYPTO_HANDSHAKE_TAG {
            return Err(ParseError::Malformed);
        }
        if len < CRYPTO_HANDSHAKE_SIZE {
            return Err(ParseError::Incomplete(CRYPTO_HANDSHAKE_SIZE - len));
        }
        let cookie = match EncryptedCookie::from_bytes(slice_subrange(i, 1, len)) {
            Ok((_, cookie)) => cookie,
            Err(e) => { return Err(e); },
        };
        let packet = CryptoHandshake {
            cookie,
            nonce: Nonce(take_array(i, 1 + ENCRYPTED_COOKIE_SIZE)),
            payload: to_vec(
                slice_subrange(i, 1 + ENCRYPTED_COOKIE_SIZE + NONCEBYTES, CRYPTO_HANDSHAKE_SIZE),
            ),
        };
        let rest = slice_subrange(i, CRYPTO_HANDSHAKE_SIZE, len);
        proof {
            assert(packet.cookie.wire() =~= i@.subrange(1, 113));
            assert(packet.wire() + rest@ =~= i@);
        }
        Ok((rest, packet))
    }
}

} // verus!
