//! The packet that carries data over an established session, and what it
//! carries.

use vstd::prelude::*;
use vstd::slice::slice_subrange;
use crate::binary_io::{
    append, gen_len_limit, gen_slice, le_u32, lemma_u32_le_round_trip, missing,
    spec_u16_from_be_bytes, spec_u16_to_be_bytes, spec_u32_from_le_bytes, spec_u32_to_le_bytes,
    to_vec, u16_from_be_bytes, u16_to_be_bytes, u32_to_le_bytes, FromBytes, GenError, ParseError,
    ToBytes,
};
use crate::crypto_core::{
    be_value, decrement_nonce, increment_nonce, lemma_be_value_low, open, pow256, seal, spec_open,
    spec_seal, Nonce, PrecomputedKey, NONCEBYTES,
};
use crate::error::Error;

verus! {

/// First byte of a [`CryptoData`] on the wire.
pub const CRYPTO_DATA_TAG: u8 = 0x1b;

/// The largest number of bytes that a [`CryptoData`] takes on the wire.
pub const MAX_CRYPTO_PACKET_SIZE: usize = 1400;

/// The largest number of bytes of data that one [`CryptoDataPayload`] holds.
pub const MAX_CRYPTO_DATA_SIZE: usize = 1373;

/// Number of bytes in a [`CryptoData`] before its sealed part.
pub const CRYPTO_DATA_HEADER_SIZE: usize = 3;

/// Number of bytes in a [`CryptoDataPayload`] before its data.
pub const CRYPTO_DATA_PAYLOAD_HEADER_SIZE: usize = 8;

/// A packet of an established session.
///
/// On the wire: the tag `0x1b`, the last two bytes of the nonce (big-endian),
/// the sealed payload.
#[derive(Clone, Debug, PartialEq, Eq)]
pub struct CryptoData {
    /// The last two bytes of the nonce under which the payload was sealed.
    pub nonce_last_bytes: u16,
    /// The sealed payload.
    pub payload: Vec<u8>,
}

/// What a [`CryptoData`] carries under its seal.
///
/// On the wire: the sequence number up to which the sender has received
/// everything (4 bytes, little-endian), the sequence number of this packet
/// (4 bytes, little-endian), the data.
#[derive(Clone, Debug, PartialEq, Eq)]
pub struct CryptoDataPayload {
    /// The first sequence number that the sender has not received yet.
    pub buffer_start: u32,
    /// The sequence number of this packet.
    pub packet_number: u32,
    /// The data.
    pub data: Vec<u8>,
}

/// The last two bytes of `nonce`, read as a number with the high byte first.
pub open spec fn spec_nonce_last_bytes(nonce: Nonce) -> u16 {
    spec_u16_from_be_bytes(nonce@.subrange(NONCEBYTES - 2, NONCEBYTES as int))
}

/// How far from `base` the nearest nonce lies whose last two bytes spell
/// `hint`: up to 32767 places behind it, or up to 32768 places before it.
pub open spec fn spec_nonce_offset(base: Nonce, hint: u16) -> int {
    let d = hint.wrapping_sub(spec_nonce_last_bytes(base));
    if d < 32768 {
        d as int
    } else {
        d - 65536
    }
}

/// The last two bytes of a nonce spell what is left of its number after
/// division by 65536.
pub proof fn lemma_nonce_last_bytes(nonce: Nonce)
    ensures
        spec_nonce_last_bytes(nonce) == be_value(nonce@) % 65536,
{
    lemma_be_value_low(nonce@);
}

/// The nonce that lies `offset` places from `base` ends in the two bytes
/// that lie `offset` places from those of `base`.
pub proof fn lemma_nonce_moved(base: Nonce, moved: Nonce, offset: int)
    requires
        be_value(moved@) == (be_value(base@) + offset) % (pow256(NONCEBYTES as nat) as int),
    ensures
        spec_nonce_last_bytes(moved) == (spec_nonce_last_bytes(base) + offset) % 65536,
{
    lemma_nonce_last_bytes(base);
    lemma_nonce_last_bytes(moved);
    lemma_be_value_low(base@);
    let m = pow256(24) as int;
    let x = be_value(base@) + offset;
    let k = m / 65536;
    vstd::arithmetic::div_mod::lemma_fundamental_div_mod(m, 65536);
    assert(m == 65536 * k);
    vstd::arithmetic::div_mod::lemma_mod_mod(x, 65536, k);
    assert((x % m) % 65536 == x % 65536);
}

/// The nearest nonce to `base` whose last two bytes spell `hint` does end
/// in those two bytes.
pub proof fn lemma_nonce_offset_hits(base: Nonce, hint: u16)
    ensures
        (spec_nonce_last_bytes(base) + spec_nonce_offset(base, hint)) % 65536 == hint,
{
}

impl CryptoDataPayload {
    /// The data is no longer than one packet can carry.
    pub open spec fn wf(&self) -> bool {
        self.data@.len() <= MAX_CRYPTO_DATA_SIZE
    }

    /// Whether a payload can be read from `i`.
    pub open spec fn parses(i: Seq<u8>) -> bool {
        i.len() >= CRYPTO_DATA_PAYLOAD_HEADER_SIZE
    }

    /// Whether `other` has the same fields.
    pub open spec fn same(&self, other: &CryptoDataPayload) -> bool {
        &&& self.buffer_start == other.buffer_start
        &&& self.packet_number == other.packet_number
        &&& self.data@ == other.data@
    }

    /// The bytes of this payload.
    pub fn encode(&self) -> (out: Vec<u8>)
        ensures
            out@ == self.wire(),
            out@.len() == CRYPTO_DATA_PAYLOAD_HEADER_SIZE + self.data@.len(),
    {
        let mut out = u32_to_le_bytes(self.buffer_start);
        let number = u32_to_le_bytes(self.packet_number);
        append(&mut out, number.as_slice());
        append(&mut out, self.data.as_slice());
        out
    }

    /// Every payload can be read back from its bytes.
    pub proof fn lemma_parses_wire(&self)
        ensures
            self.wire().len() == CRYPTO_DATA_PAYLOAD_HEADER_SIZE + self.data@.len(),
            CryptoDataPayload::parses(self.wire()),
    {
        lemma_u32_le_round_trip();
    }

    /// Two payloads with the same bytes are the same payload.
    pub proof fn lemma_wire_injective(&self, other: &CryptoDataPayload)
        requires
            self.wire() == other.wire(),
        ensures
            self.same(other),
    {
        lemma_u32_le_round_trip();
        let a = self.wire();
        let b = other.wire();
        assert(spec_u32_to_le_bytes(self.buffer_start) =~= a.subrange(0, 4));
        assert(spec_u32_to_le_bytes(other.buffer_start) =~= b.subrange(0, 4));
        assert(spec_u32_to_le_bytes(self.packet_number) =~= a.subrange(4, 8));
        assert(spec_u32_to_le_bytes(other.packet_number) =~= b.subrange(4, 8));
        assert(self.data@ =~= a.subrange(8, a.len() as int));
        assert(other.data@ =~= b.subrange(8, b.len() as int));
        assert(spec_u32_from_le_bytes(spec_u32_to_le_bytes(self.buffer_start))
            == self.buffer_start);
        assert(spec_u32_from_le_bytes(spec_u32_to_le_bytes(self.packet_number))
            == self.packet_number);
    }
}

impl ToBytes for CryptoDataPayload {
    open spec fn wire(&self) -> Seq<u8> {
        spec_u32_to_le_bytes(self.buffer_start) + spec_u32_to_le_bytes(self.packet_number)
            + self.data@
    }

    fn to_bytes(&self, buf: &mut [u8], pos: usize) -> (res: Result<usize, GenError>)
        ensures
            res is Ok <==> pos + self.wire().len() <= old(buf)@.len(),
            res matches Err(e) ==> e == GenError::BufferTooSmall(
                missing(old(buf)@.len() as int, pos as int, self.wire().len() as int) as usize,
            ),
    {
        let bytes = self.encode();
        gen_slice(buf, pos, bytes.as_slice())
    }
}

impl FromBytes for CryptoDataPayload {
    fn from_bytes(i: &[u8]) -> (res: Result<(&[u8], CryptoDataPayload), ParseError>)
        ensures
            match res {
                Ok((rest, payload)) => CryptoDataPayload::parses(i@) && rest@.len() == 0
                    && payload.wire() == i@,
                Err(e) => !CryptoDataPayload::parses(i@) && e == ParseError::Incomplete(
                    (CRYPTO_DATA_PAYLOAD_HEADER_SIZE - i@.len()) as usize,
                ),
            },
    {
        let len = i.len();
        if len < CRYPTO_DATA_PAYLOAD_HEADER_SIZE {
            return Err(ParseError::Incomplete(CRYPTO_DATA_PAYLOAD_HEADER_SIZE - len));
        }
        let payload = CryptoDataPayload {
            buffer_start: le_u32(i, 0),
            packet_number: le_u32(i, 4),
            data: to_vec(slice_subrange(i, CRYPTO_DATA_PAYLOAD_HEADER_SIZE, len)),
        };
        let rest = slice_subrange(i, len, len);
        proof {
            lemma_u32_le_round_trip();
            assert(i@.subrange(0, 4).len() == 4);
            assert(i@.subrange(4, 8).len() == 4);
            assert(payload.wire() =~= i@);
        }
        Ok((rest, payload))
    }
}

impl CryptoData {
    /// The packet is no longer than a packet may be.
    pub open spec fn wf(&self) -> bool {
        CRYPTO_DATA_HEADER_SIZE + self.payload@.len() <= MAX_CRYPTO_PACKET_SIZE
    }

    /// Whether a data packet can be read from `i`.
    pub open spec fn parses(i: Seq<u8>) -> bool {
        &&& CRYPTO_DATA_HEADER_SIZE <= i.len() <= MAX_CRYPTO_PACKET_SIZE
        &&& i[0] == CRYPTO_DATA_TAG
    }

    /// Whether `other` has the same fields.
    pub open spec fn same(&self, other: &CryptoData) -> bool {
        self.nonce_last_bytes == other.nonce_last_bytes && self.payload@ == other.payload@
    }

    /// The last two bytes of `nonce`, read as a number with the high byte first.
    pub fn nonce_last_bytes(nonce: Nonce) -> (last: u16)
        ensures
            last == spec_nonce_last_bytes(nonce),
    {
        u16_from_be_bytes(nonce.0.as_slice(), NONCEBYTES - 2)
    }

    /// The nonce under which this packet was sealed, if it was sealed under
    /// the nonce nearest to `base` that ends in the two bytes of the packet.
    /// The flag tells whether that nonce is `base` or lies behind it.
    pub fn full_nonce(&self, base: &Nonce) -> (res: (Nonce, bool))
        ensures
            be_value(res.0@) == (be_value(base@) + spec_nonce_offset(*base, self.nonce_last_bytes))
                % (pow256(NONCEBYTES as nat) as int),
            res.1 == (spec_nonce_offset(*base, self.nonce_last_bytes) >= 0),
            spec_nonce_last_bytes(res.0) == self.nonce_last_bytes,
    {
        let d = self.nonce_last_bytes.wrapping_sub(CryptoData::nonce_last_bytes(*base));
        let mut nonce = *base;
        if d < 32768 {
            increment_nonce(&mut nonce, d as u64);
        } else {
            decrement_nonce(&mut nonce, (65536 - d as u32) as u64);
        }
        proof {
            lemma_nonce_moved(*base, nonce, spec_nonce_offset(*base, self.nonce_last_bytes));
        }
        (nonce, d < 32768)
    }

    /// A data packet whose payload is sealed under `shared_secret` with the
    /// nonce `nonce`.
    pub fn new(shared_secret: &PrecomputedKey, nonce: Nonce, payload: &CryptoDataPayload) -> (packet:
        CryptoData)
        requires
            payload.wf(),
        ensures
            packet.wf(),
            packet.nonce_last_bytes == spec_nonce_last_bytes(nonce),
            packet.payload@ == spec_seal(payload.wire(), nonce@, shared_secret@),
    {
        let plain = payload.encode();
        let sealed = seal(shared_secret, &nonce, plain.as_slice());
        CryptoData { nonce_last_bytes: CryptoData::nonce_last_bytes(nonce), payload: sealed }
    }

    /// What opening this packet under `shared_secret` with the nonce `nonce`
    /// gives: the bytes of the payload, or the reason why there is none.
    pub open spec fn spec_get_payload(&self, shared_secret: Seq<u8>, nonce: Nonce) -> Result<
        Seq<u8>,
        Error,
    > {
        match spec_open(self.payload@, nonce@, shared_secret) {
            None => Err(Error::Decrypt),
            Some(plain) => if CryptoDataPayload::parses(plain) {
                Ok(plain)
            } else {
                Err(Error::MalformedPacket)
            },
        }
    }

    /// Opens the payload under `shared_secret` with the nonce `nonce`.
    ///
    /// Fails with `Decrypt` where the sealed part does not pass
    /// authentication, and with `MalformedPacket` where what comes out is no
    /// payload.
    pub fn get_payload(&self, shared_secret: &PrecomputedKey, nonce: &Nonce) -> (res: Result<
        CryptoDataPayload,
        Error,
    >)
        ensures
            match res {
                Ok(payload) => self.spec_get_payload(shared_secret@, *nonce) == Ok::<
                    Seq<u8>,
                    Error,
                >(payload.wire()) && (self.wf() ==> payload.wf()),
                Err(e) => self.spec_get_payload(shared_secret@, *nonce) == Err::<Seq<u8>, Error>(
                    e,
                ),
            },
    {
        let plain = match open(shared_secret, nonce, self.payload.as_slice()) {
            Ok(plain) => plain,
            Err(e) => { return Err(e); },
        };
        match CryptoDataPayload::from_bytes(plain.as_slice()) {
            Ok((_, payload)) => {
                proof {
                    payload.lemma_parses_wire();
                }
                Ok(payload)
            },
            Err(_) => Err(Error::MalformedPacket),
        }
    }

    /// The bytes of this packet.
    pub fn encode(&self) -> (out: Vec<u8>)
        ensures
            out@ == self.wire(),
    {
        let mut out: Vec<u8> = Vec::new();
        out.push(CRYPTO_DATA_TAG);
        let hint = u16_to_be_bytes(self.nonce_last_bytes);
        append(&mut out, hint.as_slice());
        append(&mut out, self.payload.as_slice());
        assert(out@ =~= self.wire());
        out
    }

    /// A copy of this packet.
    pub fn duplicate(&self) -> (copy: CryptoData)
        ensures
            copy.same(self),
            copy.wire() == self.wire(),
    {
        CryptoData {
            nonce_last_bytes: self.nonce_last_bytes,
            payload: to_vec(self.payload.as_slice()),
        }
    }

    /// A well-formed packet can be read back from its bytes.
    pub proof fn lemma_parses_wire(&self)
        requires
            self.wf(),
        ensures
            self.wire().len() == CRYPTO_DATA_HEADER_SIZE + self.payload@.len(),
            CryptoData::parses(self.wire()),
    {
    }

    /// Two packets with the same bytes are the same packet.
    pub proof fn lemma_wire_injective(&self, other: &CryptoData)
        requires
            self.wire() == other.wire(),
        ensures
            self.same(other),
    {
        let a = self.wire();
        let b = other.wire();
        assert(spec_u16_to_be_bytes(self.nonce_last_bytes) =~= a.subrange(1, 3));
        assert(spec_u16_to_be_bytes(other.nonce_last_bytes) =~= b.subrange(1, 3));
        assert(self.payload@ =~= a.subrange(3, a.len() as int));
        assert(other.payload@ =~= b.subrange(3, b.len() as int));
        crate::binary_io::lemma_u16_be_round_trip(self.nonce_last_bytes, Seq::empty());
        crate::binary_io::lemma_u16_be_round_trip(other.nonce_last_bytes, Seq::empty());
    }
}

impl ToBytes for CryptoData {
    open spec fn wire(&self) -> Seq<u8> {
        seq![CRYPTO_DATA_TAG] + spec_u16_to_be_bytes(self.nonce_last_bytes) + self.payload@
    }

    fn to_bytes(&self, buf: &mut [u8], pos: usize) -> (res: Result<usize, GenError>)
        ensures
            res is Ok <==> self.wf() && pos + self.wire().len() <= old(buf)@.len(),
            res matches Err(e) ==> e == if !self.wf() {
                GenError::BufferTooSmall(self.wire().len() as usize)
            } else {
                GenError::BufferTooSmall(
                    missing(
                        old(buf)@.len() as int,
                        pos as int,
                        self.wire().len() as int,
                    ) as usize,
                )
            },
    {
        let bytes = self.encode();
        match gen_len_limit(bytes.len(), MAX_CRYPTO_PACKET_SIZE) {
            Ok(_) => gen_slice(buf, pos, bytes.as_slice()),
            Err(e) => Err(e),
        }
    }
}

impl FromBytes for CryptoData {
    fn from_bytes(i: &[u8]) -> (res: Result<(&[u8], CryptoData), ParseError>)
        ensures
            match res {
                Ok((rest, packet)) => CryptoData::parses(i@) && packet.wf() && rest@.len() == 0
                    && packet.wire() == i@,
                Err(e) => !CryptoData::parses(i@) && e == if i@.len() > 0 && i@[0]
                    != CRYPTO_DATA_TAG {
                    ParseError::Malformed
                } else if i@.len() < CRYPTO_DATA_HEADER_SIZE {
                    ParseError::Incomplete((CRYPTO_DATA_HEADER_SIZE - i@.len()) as usize)
                } else {
                    ParseError::Malformed
                },
            },
    {
        let len = i.len();
        if len > 0 && i[0] != CRYPTO_DATA_TAG {
            return Err(ParseError::Malformed);
        }
        if len < CRYPTO_DATA_HEADER_SIZE {
            return Err(ParseError::Incomplete(CRYPTO_DATA_HEADER_SIZE - len));
        }
        if len > MAX_CRYPTO_PACKET_SIZE {
            return Err(ParseError::Malformed);
        }
        let packet = CryptoData {
            nonce_last_bytes: u16_from_be_bytes(i, 1),
            payload: to_vec(slice_subrange(i, CRYPTO_DATA_HEADER_SIZE, len)),
        };
        let rest = slice_subrange(i, len, len);
        proof {
            crate::binary_io::lemma_u16_be_round_trip(0, i@.subrange(1, 3));
            assert(packet.wire() =~= i@);
        }
        Ok((rest, packet))
    }
}

} // verus!
