//! The packet that asks a peer for a cookie, and what it carries.

use vstd::prelude::*;
use vstd::slice::slice_subrange;
use crate::binary_io::{
    append, bytes_eq, gen_slice, le_u64, lemma_u64_le_round_trip, missing, spec_u64_from_le_bytes,
    spec_u64_to_le_bytes, take_array, to_vec, u64_to_le_bytes, FromBytes, GenError, ParseError,
    ToBytes,
};
use crate::crypto_core::{
    gen_nonce, open, seal, spec_open, spec_seal, Nonce, PrecomputedKey, PublicKey, NONCEBYTES,
    PUBLICKEYBYTES,
};
use crate::error::Error;

verus! {

/// First byte of a [`CookieRequest`] on the wire.
pub const COOKIE_REQUEST_TAG: u8 = 0x18;

/// Number of bytes in the wire form of a [`CookieRequestPayload`].
pub const COOKIE_REQUEST_PAYLOAD_SIZE: usize = 64;

/// Number of bytes in the sealed part of a [`CookieRequest`].
pub const COOKIE_REQUEST_SEALED_SIZE: usize = 80;

/// Number of bytes in the wire form of a [`CookieRequest`].
pub const COOKIE_REQUEST_SIZE: usize = 137;

/// Number of zero bytes between the key and the id of a [`CookieRequestPayload`].
pub const COOKIE_REQUEST_PADDING: usize = 24;

/// The first packet of a handshake: it asks the peer for a cookie.
///
/// On the wire: the tag `0x18`, the DHT public key of the sender (32 bytes),
/// the nonce (24 bytes), the sealed payload (80 bytes).
#[derive(Clone, Debug, PartialEq, Eq)]
pub struct CookieRequest {
    /// DHT public key of the sender.
    pub pk: PublicKey,
    /// Nonce under which the payload was sealed.
    pub nonce: Nonce,
    /// The sealed payload.
    pub payload: Vec<u8>,
}

/// What a [`CookieRequest`] carries under its seal.
///
/// On the wire: the long-term public key of the sender (32 bytes), 24 zero
/// bytes, the request id (8 bytes, little-endian).
#[derive(Clone, Copy, Debug, PartialEq, Eq)]
pub struct CookieRequestPayload {
    /// Long-term public key of the sender.
    pub pk: PublicKey,
    /// Number that the response has to repeat.
    pub id: u64,
}

/// `n` zero bytes.
pub open spec fn zeros(n: nat) -> Seq<u8> {
    Seq::new(n, |i: int| 0u8)
}

/// The zero bytes between the key and the id of a [`CookieRequestPayload`].
fn zero_padding() -> (padding: [u8; COOKIE_REQUEST_PADDING])
    ensures
        padding@ == zeros(24),
{
    let padding = [0u8; COOKIE_REQUEST_PADDING];
    proof {
        vstd::array::axiom_spec_array_fill_for_copy_type::<u8, COOKIE_REQUEST_PADDING>(0u8);
        assert(padding@ =~= zeros(24));
    }
    padding
}

impl CookieRequestPayload {
    /// Whether a payload can be read from the front of `i`.
    pub open spec fn parses(i: Seq<u8>) -> bool {
        i.len() >= COOKIE_REQUEST_PAYLOAD_SIZE && i.subrange(32, 56) == zeros(24)
    }

    /// The bytes of this payload.
    pub fn encode(&self) -> (out: Vec<u8>)
        ensures
            out@ == self.wire(),
            out@.len() == COOKIE_REQUEST_PAYLOAD_SIZE,
    {
        let mut out: Vec<u8> = Vec::new();
        append(&mut out, self.pk.0.as_slice());
        let padding = zero_padding();
        append(&mut out, padding.as_slice());
        let id = u64_to_le_bytes(self.id);
        append(&mut out, id.as_slice());
        out
    }

    /// Every payload can be read back from its bytes, whatever follows them.
    pub proof fn lemma_parses_wire(&self, tail: Seq<u8>)
        ensures
            self.wire().len() == COOKIE_REQUEST_PAYLOAD_SIZE,
            CookieRequestPayload::parses(self.wire() + tail),
    {
        lemma_u64_le_round_trip();
        assert((self.wire() + tail).subrange(32, 56) =~= zeros(24));
    }

    /// Two payloads with the same bytes are the same payload, and what
    /// follows the bytes is the same too.
    pub proof fn lemma_wire_injective(
        &self,
        other: &CookieRequestPayload,
        tail: Seq<u8>,
        other_tail: Seq<u8>,
    )
        requires
            self.wire() + tail == other.wire() + other_tail,
        ensures
            *self == *other,
            tail == other_tail,
    {
        lemma_u64_le_round_trip();
        let a = self.wire() + tail;
        let b = other.wire() + other_tail;
        assert(self.pk@ =~= a.subrange(0, 32));
        assert(other.pk@ =~= b.subrange(0, 32));
        assert(spec_u64_to_le_bytes(self.id) =~= a.subrange(56, 64));
        assert(spec_u64_to_le_bytes(other.id) =~= b.subrange(56, 64));
        assert(tail =~= a.subrange(64, a.len() as int));
        assert(other_tail =~= b.subrange(64, b.len() as int));
        assert(self.pk.0 == other.pk.0);
        assert(spec_u64_from_le_bytes(spec_u64_to_le_bytes(self.id)) == self.id);
    }
}

impl ToBytes for CookieRequestPayload {
    open spec fn wire(&self) -> Seq<u8> {
        self.pk@ + zeros(24) + spec_u64_to_le_bytes(self.id)
    }

    fn to_bytes(&self, buf: &mut [u8], pos: usize) -> (res: Result<usize, GenError>)
        ensures
            res is Ok <==> pos + COOKIE_REQUEST_PAYLOAD_SIZE <= old(buf)@.len(),
            res matches Err(e) ==> e == GenError::BufferTooSmall(
                missing(
                    old(buf)@.len() as int,
                    pos as int,
                    COOKIE_REQUEST_PAYLOAD_SIZE as int,
                ) as usize,
            ),
    {
        let bytes = self.encode();
        gen_slice(buf, pos, bytes.as_slice())
    }
}

impl FromBytes for CookieRequestPayload {
    fn from_bytes(i: &[u8]) -> (res: Result<(&[u8], CookieRequestPayload), ParseError>)
        ensures
            match res {
                Ok((rest, payload)) => CookieRequestPayload::parses(i@) && payload.wire() + rest@
                    == i@,
                Err(e) => !CookieRequestPayload::parses(i@) && e == if i@.len()
                    < COOKIE_REQUEST_PAYLOAD_SIZE {
                    ParseError::Incomplete((COOKIE_REQUEST_PAYLOAD_SIZE - i@.len()) as usize)
                } else {
                    ParseError::Malformed
                },
            },
    {
        let len = i.len();
        if len < COOKIE_REQUEST_PAYLOAD_SIZE {
            return Err(ParseError::Incomplete(COOKIE_REQUEST_PAYLOAD_SIZE - len));
        }
        let padding = zero_padding();
        if !bytes_eq(
            slice_subrange(i, PUBLICKEYBYTES, PUBLICKEYBYTES + COOKIE_REQUEST_PADDING),
            padding.as_slice(),
        ) {
            return Err(ParseError::Malformed);
        }
        let payload = CookieRequestPayload {
            pk: PublicKey(take_array(i, 0)),
            id: le_u64(i, PUBLICKEYBYTES + COOKIE_REQUEST_PADDING),
        };
        let rest = slice_subrange(i, COOKIE_REQUEST_PAYLOAD_SIZE, len);
        proof {
            lemma_u64_le_round_trip();
            assert(i@.subrange(56, 64).len() == 8);
            assert(payload.wire() + rest@ =~= i@);
        }
        Ok((rest, payload))
    }
}

impl CookieRequest {
    /// The sealed part has the length that a sealed payload has.
    pub open spec fn wf(&self) -> bool {
        self.payload@.len() == COOKIE_REQUEST_SEALED_SIZE
    }

    /// Whether a cookie request can be read from the front of `i`.
    pub open spec fn parses(i: Seq<u8>) -> bool {
        i.len() >= COOKIE_REQUEST_SIZE && i[0] == COOKIE_REQUEST_TAG
    }

    /// Whether `other` has the same fields.
    pub open spec fn same(&self, other: &CookieRequest) -> bool {
        self.pk == other.pk && self.nonce == other.nonce && self.payload@ == other.payload@
    }

    /// A request from the peer with the DHT key `pk`, its payload sealed
    /// under `shared_secret` with a fresh random nonce.
    pub fn new(
        shared_secret: &PrecomputedKey,
        pk: &PublicKey,
        payload: &CookieRequestPayload,
    ) -> (packet: CookieRequest)
        ensures
            packet.wf(),
            packet.pk == *pk,
            packet.payload@ == spec_seal(payload.wire(), packet.nonce@, shared_secret@),
    {
        let nonce = gen_nonce();
        CookieRequest::with_nonce(shared_secret, pk, payload, nonce)
    }

    /// A request from the peer with the DHT key `pk`, its payload sealed
    /// under `shared_secret` with the nonce `nonce`.
    pub fn with_nonce(
        shared_secret: &PrecomputedKey,
        pk: &PublicKey,
        payload: &CookieRequestPayload,
        nonce: Nonce,
    ) -> (packet: CookieRequest)
        ensures
            packet.wf(),
            packet.pk == *pk,
            packet.nonce == nonce,
            packet.payload@ == spec_seal(payload.wire(), nonce@, shared_secret@),
    {
        let plain = payload.encode();
        let sealed = seal(shared_secret, &nonce, plain.as_slice());
        CookieRequest { pk: *pk, nonce, payload: sealed }
    }

    /// What opening this request under `shared_secret` gives: the bytes of
    /// the payload, or the reason why there is none.
    pub open spec fn spec_get_payload(&self, shared_secret: Seq<u8>) -> Result<
        Seq<u8>,
        Error,
    > {
        match spec_open(self.payload@, self.nonce@, shared_secret) {
            None => Err(Error::Decrypt),
            Some(plain) => if CookieRequestPayload::parses(plain) {
                Ok(plain.subrange(0, COOKIE_REQUEST_PAYLOAD_SIZE as int))
            } else {
                Err(Error::MalformedPacket)
            },
        }
    }

    /// Opens the payload under `shared_secret`.
    ///
    /// Fails with `Decrypt` where the sealed part does not pass
    /// authentication, and with `MalformedPacket` where what comes out is no
    /// payload.
    pub fn get_payload(&self, shared_secret: &PrecomputedKey) -> (res: Result<
        CookieRequestPayload,
        Error,
    >)
        ensures
            match res {
                Ok(payload) => self.spec_get_payload(shared_secret@) == Ok::<Seq<u8>, Error>(
                    payload.wire(),
                ),
                Err(e) => self.spec_get_payload(shared_secret@) == Err::<Seq<u8>, Error>(e),
            },
    {
        let plain = match open(shared_secret, &self.nonce, self.payload.as_slice()) {
            Ok(plain) => plain,
            Err(e) => { return Err(e); },
        };
        match CookieRequestPayload::from_bytes(plain.as_slice()) {
            Ok((rest, payload)) => {
                proof {
                    payload.lemma_parses_wire(rest@);
                    assert(plain@.subrange(0, COOKIE_REQUEST_PAYLOAD_SIZE as int)
                        =~= payload.wire());
                }
                Ok(payload)
            },
            Err(_) => Err(Error::MalformedPacket),
        }
    }

    /// The bytes of this request.
    pub fn encode(&self) -> (out: Vec<u8>)
        ensures
            out@ == self.wire(),
    {
        let mut out: Vec<u8> = Vec::new();
        out.push(COOKIE_REQUEST_TAG);
        append(&mut out, self.pk.0.as_slice());
        append(&mut out, self.nonce.0.as_slice());
        append(&mut out, self.payload.as_slice());
        assert(out@ =~= self.wire());
        out
    }

    /// A copy of this request.
    pub fn duplicate(&self) -> (copy: CookieRequest)
        ensures
            copy.same(self),
            copy.wire() == self.wire(),
    {
        CookieRequest { pk: self.pk, nonce: self.nonce, payload: to_vec(self.payload.as_slice()) }
    }

    /// A well-formed request can be read back from its bytes, whatever
    /// follows them.
    pub proof fn lemma_parses_wire(&self, tail: Seq<u8>)
        requires
            self.wf(),
        ensures
            self.wire().len() == COOKIE_REQUEST_SIZE,
            CookieRequest::parses(self.wire() + tail),
    {
    }

    /// Two well-formed requests with the same bytes are the same request,
    /// and what follows the bytes is the same too.
    pub proof fn lemma_wire_injective(
        &self,
        other: &CookieRequest,
        tail: Seq<u8>,
        other_tail: Seq<u8>,
    )
        requires
            self.wf(),
            other.wf(),
            self.wire() + tail == other.wire() + other_tail,
        ensures
            self.same(other),
            tail == other_tail,
    {
        let a = self.wire() + tail;
        let b = other.wire() + other_tail;
        assert(self.pk@ =~= a.subrange(1, 33));
        assert(other.pk@ =~= b.subrange(1, 33));
        assert(self.nonce@ =~= a.subrange(33, 57));
        assert(other.nonce@ =~= b.subrange(33, 57));
        assert(self.payload@ =~= a.subrange(57, 137));
        assert(other.payload@ =~= b.subrange(57, 137));
        assert(tail =~= a.subrange(137, a.len() as int));
        assert(other_tail =~= b.subrange(137, b.len() as int));
        assert(self.pk.0 == other.pk.0);
        assert(self.nonce.0 == other.nonce.0);
    }
}

impl ToBytes for CookieRequest {
    open spec fn wire(&self) -> Seq<u8> {
        seq![COOKIE_REQUEST_TAG] + self.pk@ + self.nonce@ + self.payload@
    }

    fn to_bytes(&self, buf: &mut [u8], pos: usize) -> (res: Result<usize, GenError>)
        ensures
            res is Ok <==> pos + self.wire().len() <= old(buf)@.len(),
            res matches Err(e) ==> e == GenError::BufferTooSmall(
                missing(old(buf)@.len() as int, pos as int, self.wire().len() as int) as usize,
            ),
    {
        let bytes = self.encode();
        gen_slice(buf, pos, bytes.as_slice())
    }
}

impl FromBytes for CookieRequest {
    fn from_bytes(i: &[u8]) -> (res: Result<(&[u8], CookieRequest), ParseError>)
        ensures
            match res {
                Ok((rest, packet)) => CookieRequest::parses(i@) && packet.wf() && packet.wire()
                    + rest@ == i@,
                Err(e) => !CookieRequest::parses(i@) && e == if i@.len() > 0 && i@[0]
                    != COOKIE_REQUEST_TAG {
                    ParseError::Malformed
                } else {
                    ParseError::Incomplete((COOKIE_REQUEST_SIZE - i@.len()) as usize)
                },
            },
    {
        let len = i.len();
        if len > 0 && i[0] != COOKIE_REQUEST_TAG {
            return Err(ParseError::Malformed);
        }
        if len < COOKIE_REQUEST_SIZE {
            return Err(ParseError::Incomplete(COOKIE_REQUEST_SIZE - len));
        }
        let packet = CookieRequest {
            pk: PublicKey(take_array(i, 1)),
            nonce: Nonce(take_array(i, 1 + PUBLICKEYBYTES)),
            payload: to_vec(
                slice_subrange(i, 1 + PUBLICKEYBYTES + NONCEBYTES, COOKIE_REQUEST_SIZE),
            ),
        };
        let rest = slice_subrange(i, COOKIE_REQUEST_SIZE, len);
        assert(packet.wire() + rest@ =~= i@);
        Ok((rest, packet))
    }
}

} // verus!
