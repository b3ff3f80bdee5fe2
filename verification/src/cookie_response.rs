//! The packet that answers a cookie request, and what it carries.

use vstd::prelude::*;
use vstd::slice::slice_subrange;
use crate::binary_io::{
    append, gen_slice, le_u64, lemma_u64_le_round_trip, missing, spec_u64_from_le_bytes,
    spec_u64_to_le_bytes, take_array, to_vec, u64_to_le_bytes, FromBytes, GenError, ParseError,
    ToBytes,
};
use crate::cookie::{EncryptedCookie, ENCRYPTED_COOKIE_SIZE};
use crate::crypto_core::{
    gen_nonce, open, seal, spec_open, spec_seal, Nonce, PrecomputedKey, NONCEBYTES,
};
use crate::error::Error;

verus! {

/// First byte of a [`CookieResponse`] on the wire.
pub const COOKIE_RESPONSE_TAG: u8 = 0x19;

/// Number of bytes in the wire form of a [`CookieResponsePayload`].
pub const COOKIE_RESPONSE_PAYLOAD_SIZE: usize = 120;

/// Number of bytes in the sealed part of a [`CookieResponse`].
pub const COOKIE_RESPONSE_SEALED_SIZE: usize = 136;

/// Number of bytes in the wire form of a [`CookieResponse`].
pub const COOKIE_RESPONSE_SIZE: usize = 161;

/// The answer to a cookie request.
///
/// On the wire: the tag `0x19`, the nonce (24 bytes), the sealed payload
/// (136 bytes).
#[derive(Clone, Debug, PartialEq, Eq)]
pub struct CookieResponse {
    /// Nonce under which the payload was sealed.
    pub nonce: Nonce,
    /// The sealed payload.
    pub payload: Vec<u8>,
}

/// What a [`CookieResponse`] carries under its seal.
///
/// On the wire: the encrypted cookie (112 bytes), the request id (8 bytes,
/// little-endian).
#[derive(Clone, Debug, PartialEq, Eq)]
pub struct CookieResponsePayload {
    /// The cookie that the peer made for us.
    pub cookie: EncryptedCookie,
    /// The id of the request that this answers.
    pub id: u64,
}

impl CookieResponsePayload {
    /// The cookie in it is well formed.
    pub open spec fn wf(&self) -> bool {
        self.cookie.wf()
    }

    /// Whether a payload can be read from the front of `i`.
    pub open spec fn parses(i: Seq<u8>) -> bool {
        i.len() >= COOKIE_RESPONSE_PAYLOAD_SIZE
    }

    /// Whether `other` has the same fields.
    pub open spec fn same(&self, other: &CookieResponsePayload) -> bool {
        self.cookie.same(&other.cookie) && self.id == other.id
    }

    /// The bytes of this payload.
    pub fn encode(&self) -> (out: Vec<u8>)
        ensures
            out@ == self.wire(),
    {
        let mut out = self.cookie.encode();
        let id = u64_to_le_bytes(self.id);
        append(&mut out, id.as_slice());
        out
    }

    /// A well-formed payload can be read back from its bytes, whatever
    /// follows them.
    pub proof fn lemma_parses_wire(&self, tail: Seq<u8>)
        requires
            self.wf(),
        ensures
            self.wire().len() == COOKIE_RESPONSE_PAYLOAD_SIZE,
            CookieResponsePayload::parses(self.wire() + tail),
    {
        lemma_u64_le_round_trip();
    }

    /// Two well-formed payloads with the same bytes are the same payload,
    /// and what follows the bytes is the same too.
    pub proof fn lemma_wire_injective(
        &self,
        other: &CookieResponsePayload,
        tail: Seq<u8>,
        other_tail: Seq<u8>,
    )
        requires
            self.wf(),
            other.wf(),
            self.wire() + tail == other.wire() + other_tail,
        ensures
            self.same(other),
            tail == other_tail,
    {
        lemma_u64_le_round_trip();
        let a = self.wire() + tail;
        let b = other.wire() + other_tail;
        let id = spec_u64_to_le_bytes(self.id);
        let other_id = spec_u64_to_le_bytes(other.id);
        assert(a =~= self.cookie.wire() + (id + tail));
        assert(b =~= other.cookie.wire() + (other_id + other_tail));
        self.cookie.lemma_wire_injective(&other.cookie, id + tail, other_id + other_tail);
        assert(id =~= (id + tail).subrange(0, 8));
        assert(other_id =~= (other_id + other_tail).subrange(0, 8));
        assert(tail =~= (id + tail).subrange(8, 8 + tail.len() as int));
        assert(other_tail =~= (other_id + other_tail).subrange(8, 8 + other_tail.len() as int));
        assert(spec_u64_from_le_bytes(spec_u64_to_le_bytes(self.id)) == self.id);
    }
}

impl ToBytes for CookieResponsePayload {
    open spec fn wire(&self) -> Seq<u8> {
        self.cookie.wire() + spec_u64_to_le_bytes(self.id)
    }

    fn to_bytes(&self, buf: &mut [u8], pos: usize) -> (res: Result<usize, GenError>)
        ensures
            res is Ok <==> pos + self.wire().len() <= old(buf)@.len(),
            res matches Err(e) ==> e == GenError::BufferTooSmall(
                missing(old(buf)@.len() as int, pos as int, self.wire().len() as int) as usize,
            ),
    {
        let bytes = self.encode();
        gen_slice(buf, pos, bytes.as_slice())
    }
}

impl FromBytes for CookieResponsePayload {
    fn from_bytes(i: &[u8]) -> (res: Result<(&[u8], CookieResponsePayload), ParseError>)
        ensures
            match res {
                Ok((rest, payload)) => CookieResponsePayload::parses(i@) && payload.wf()
                    && payload.wire() + rest@ == i@,
                Err(e) => !CookieResponsePayload::parses(i@) && e == ParseError::Incomplete(
                    (COOKIE_RESPONSE_PAYLOAD_SIZE - i@.len()) as usize,
                ),
            },
    {
        let len = i.len();
        if len < COOKIE_RESPONSE_PAYLOAD_SIZE {
            return Err(ParseError::Incomplete(COOKIE_RESPONSE_PAYLOAD_SIZE - len));
        }
        let cookie = match EncryptedCookie::from_bytes(i) {
            Ok((_, cookie)) => cookie,
            Err(e) => { return Err(e); },
        };
        let payload = CookieResponsePayload { cookie, id: le_u64(i, ENCRYPTED_COOKIE_SIZE) };
        let rest = slice_subrange(i, COOKIE_RESPONSE_PAYLOAD_SIZE, len);
        proof {
            lemma_u64_le_round_trip();
            assert(i@.subrange(112, 120).len() == 8);
            assert(payload.cookie.wire() =~= i@.subrange(0, 112));
            assert(payload.wire() + rest@ =~= i@);
        }
        Ok((rest, payload))
    }
}

impl CookieResponse {
    /// The sealed part has the length that a sealed payload has.
    pub open spec fn wf(&self) -> bool {
        self.payload@.len() == COOKIE_RESPONSE_SEALED_SIZE
    }

    /// Whether a cookie response can be read from the front of `i`.
    pub open spec fn parses(i: Seq<u8>) -> bool {
        i.len() >= COOKIE_RESPONSE_SIZE && i[0] == COOKIE_RESPONSE_TAG
    }

    /// Whether `other` has the same fields.
    pub open spec fn same(&self, other: &CookieResponse) -> bool {
        self.nonce == other.nonce && self.payload@ == other.payload@
    }

    /// A response whose payload is sealed under `shared_secret` with a fresh
    /// random nonce.
    pub fn new(shared_secret: &PrecomputedKey, payload: &CookieResponsePayload) -> (packet:
        CookieResponse)
        requires
            payload.wf(),
        ensures
            packet.wf(),
            packet.payload@ == spec_seal(payload.wire(), packet.nonce@, shared_secret@),
    {
        let nonce = gen_nonce();
        CookieResponse::with_nonce(shared_secret, payload, nonce)
    }

    /// A response whose payload is sealed under `shared_secret` with the
    /// nonce `nonce`.
    pub fn with_nonce(
        shared_secret: &PrecomputedKey,
        payload: &CookieResponsePayload,
        nonce: Nonce,
    ) -> (packet: CookieResponse)
        requires
            payload.wf(),
        ensures
            packet.wf(),
            packet.nonce == nonce,
            packet.payload@ == spec_seal(payload.wire(), nonce@, shared_secret@),
    {
        let plain = payload.encode();
        proof {
            payload.lemma_parses_wire(Seq::empty());
        }
        let sealed = seal(shared_secret, &nonce, plain.as_slice());
        CookieResponse { nonce, payload: sealed }
    }

    /// What opening this response under `shared_secret` gives: the bytes of
    /// the payload, or the reason why there is none.
    pub open spec fn spec_get_payload(&self, shared_secret: Seq<u8>) -> Result<
        Seq<u8>,
        Error,
    > {
        match spec_open(self.payload@, self.nonce@, shared_secret) {
            None => Err(Error::Decrypt),
            Some(plain) => if CookieResponsePayload::parses(plain) {
                Ok(plain.subrange(0, COOKIE_RESPONSE_PAYLOAD_SIZE as int))
            } else {
                Err(Error::MalformedPacket)
            },
        }
    }

    /// Opens the payload under `shared_secret`.
    ///
    /// Fails with `Decrypt` where the sealed part does not pass
    /// authentication, and with `MalformedPacket` where what comes out is no
    /// payload.
    pub fn get_payload(&self, shared_secret: &PrecomputedKey) -> (res: Result<
        CookieResponsePayload,
        Error,
    >)
        ensures
            match res {
                Ok(payload) => payload.wf() && self.spec_get_payload(shared_secret@) == Ok::<
                    Seq<u8>,
                    Error,
                >(payload.wire()),
                Err(e) => self.spec_get_payload(shared_secret@) == Err::<Seq<u8>, Error>(e),
            },
    {
        let plain = match open(shared_secret, &self.nonce, self.payload.as_slice()) {
            Ok(plain) => plain,
            Err(e) => { return Err(e); },
        };
        match CookieResponsePayload::from_bytes(plain.as_slice()) {
            Ok((rest, payload)) => {
                proof {
                    payload.lemma_parses_wire(rest@);
                    assert(plain@.subrange(0, COOKIE_RESPONSE_PAYLOAD_SIZE as int)
                        =~= payload.wire());
                }
                Ok(payload)
            },
            Err(_) => Err(Error::MalformedPacket),
        }
    }

    /// The bytes of this response.
    pub fn encode(&self) -> (out: Vec<u8>)
        ensures
            out@ == self.wire(),
    {
        let mut out: Vec<u8> = Vec::new();
        out.push(COOKIE_RESPONSE_TAG);
        append(&mut out, self.nonce.0.as_slice());
        append(&mut out, self.payload.as_slice());
        assert(out@ =~= self.wire());
        out
    }

    /// A copy of this response.
    pub fn duplicate(&self) -> (copy: CookieResponse)
        ensures
            copy.same(self),
            copy.wire() == self.wire(),
    {
        CookieResponse { nonce: self.nonce, payload: to_vec(self.payload.as_slice()) }
    }

    /// A well-formed response can be read back from its bytes, whatever
    /// follows them.
    pub proof fn lemma_parses_wire(&self, tail: Seq<u8>)
        requires
            self.wf(),
        ensures
            self.wire().len() == COOKIE_RESPONSE_SIZE,
            CookieResponse::parses(self.wire() + tail),
    {
    }

    /// Two well-formed responses with the same bytes are the same response,
    /// and what follows the bytes is the same too.
    pub proof fn lemma_wire_injective(
        &self,
        other: &CookieResponse,
        tail: Seq<u8>,
        other_tail: Seq<u8>,
    )
        requires
            self.wf(),
            other.wf(),
            self.wire() + tail == other.wire() + other_tail,
        ensures
            self.same(other),
            tail == other_tail,
    {
        let a = self.wire() + tail;
        let b = other.wire() + other_tail;
        assert(self.nonce@ =~= a.subrange(1, 25));
        assert(other.nonce@ =~= b.subrange(1, 25));
        assert(self.payload@ =~= a.subrange(25, 161));
        assert(other.payload@ =~= b.subrange(25, 161));
        assert(tail =~= a.subrange(161, a.len() as int));
        assert(other_tail =~= b.subrange(161, b.len() as int));
        assert(self.nonce.0 == other.nonce.0);
    }
}

impl ToBytes for CookieResponse {
    open spec fn wire(&self) -> Seq<u8> {
        seq![COOKIE_RESPONSE_TAG] + self.nonce@ + self.payload@
    }

    fn to_bytes(&self, buf: &mut [u8], pos: usize) -> (res: Result<usize, GenError>)
        ensures
            res is Ok <==> pos + self.wire().len() <= old(buf)@.len(),
            res matches Err(e) ==> e == GenError::BufferTooSmall(
                missing(old(buf)@.len() as int, pos as int, self.wire().len() as int) as usize,
            ),
    {
        let bytes = self.encode();
        gen_slice(buf, pos, bytes.as_slice())
    }
}

impl FromBytes for CookieResponse {
    fn from_bytes(i: &[u8]) -> (res: Result<(&[u8], CookieResponse), ParseError>)
        ensures
            match res {
                Ok((rest, packet)) => CookieResponse::parses(i@) && packet.wf() && packet.wire()
                    + rest@ == i@,
                Err(e) => !CookieResponse::parses(i@) && e == if i@.len() > 0 && i@[0]
                    != COOKIE_RESPONSE_TAG {
                    ParseError::Malformed
                } else {
                    ParseError::Incomplete((COOKIE_RESPONSE_SIZE - i@.len()) as usize)
                },
            },
    {
        let len = i.len();
        if len > 0 && i[0] != COOKIE_RESPONSE_TAG {
            return Err(ParseError::Malformed);
        }
        if len < COOKIE_RESPONSE_SIZE {
            return Err(ParseError::Incomplete(COOKIE_RESPONSE_SIZE - len));
        }
        let packet = CookieResponse {
            nonce: Nonce(take_array(i, 1)),
            payload: to_vec(slice_subrange(i, 1 + NONCEBYTES, COOKIE_RESPONSE_SIZE)),
        };
        let rest = slice_subrange(i, COOKIE_RESPONSE_SIZE, len);
        assert(packet.wire() + rest@ =~= i@);
        Ok((rest, packet))
    }
}

} // verus!
