//! The packets of the session layer as one type.

use vstd::prelude::*;
use crate::binary_io::{missing, FromBytes, GenError, ParseError, ToBytes};
use crate::cookie_request::{CookieRequest, COOKIE_REQUEST_SIZE, COOKIE_REQUEST_TAG};
use crate::cookie_response::{CookieResponse, COOKIE_RESPONSE_SIZE, COOKIE_RESPONSE_TAG};
use crate::crypto_data::{CryptoData, CRYPTO_DATA_HEADER_SIZE, CRYPTO_DATA_TAG};
use crate::crypto_handshake::{CryptoHandshake, CRYPTO_HANDSHAKE_SIZE, CRYPTO_HANDSHAKE_TAG};

verus! {

/// A packet of the session layer. Its first byte on the wire tells which.
#[derive(Clone, Debug, PartialEq, Eq)]
pub enum Packet {
    /// Asks for a cookie.
    CookieRequest(CookieRequest),
    /// Answers a cookie request.
    CookieResponse(CookieResponse),
    /// Sets up the session keys.
    CryptoHandshake(CryptoHandshake),
    /// Carries data.
    CryptoData(CryptoData),
}

impl Packet {
    /// The packet inside is well formed.
    pub open spec fn wf(&self) -> bool {
        match self {
            Packet::CookieRequest(p) => p.wf(),
            Packet::CookieResponse(p) => p.wf(),
            Packet::CryptoHandshake(p) => p.wf(),
            Packet::CryptoData(p) => p.wf(),
        }
    }

    /// Whether the packet is a data packet that is longer than a packet may
    /// be.
    pub open spec fn spec_is_too_long(&self) -> bool {
        match self {
            Packet::CryptoData(p) => !p.wf(),
            _ => false,
        }
    }

    /// Whether `other` is a packet of the same kind with the same fields.
    pub open spec fn same(&self, other: &Packet) -> bool {
        match (self, other) {
            (Packet::CookieRequest(p), Packet::CookieRequest(q)) => p.same(q),
            (Packet::CookieResponse(p), Packet::CookieResponse(q)) => p.same(q),
            (Packet::CryptoHandshake(p), Packet::CryptoHandshake(q)) => p.same(q),
            (Packet::CryptoData(p), Packet::CryptoData(q)) => p.same(q),
            _ => false,
        }
    }

    /// Whether a packet can be read from the front of `i`.
    pub open spec fn parses(i: Seq<u8>) -> bool {
        ||| CookieRequest::parses(i)
        ||| CookieResponse::parses(i)
        ||| CryptoHandshake::parses(i)
        ||| CryptoData::parses(i)
    }

    /// Why no packet can be read from the front of `i`, where none can: the
    /// first byte is missing or is the tag of no packet, the packet that
    /// the tag announces is not all there, or it is a data packet that is
    /// longer than a packet may be.
    pub open spec fn spec_parse_error(i: Seq<u8>) -> ParseError {
        if i.len() == 0 {
            ParseError::Incomplete(1)
        } else if i[0] == COOKIE_REQUEST_TAG {
            ParseError::Incomplete((COOKIE_REQUEST_SIZE - i.len()) as usize)
        } else if i[0] == COOKIE_RESPONSE_TAG {
            ParseError::Incomplete((COOKIE_RESPONSE_SIZE - i.len()) as usize)
        } else if i[0] == CRYPTO_HANDSHAKE_TAG {
            ParseError::Incomplete((CRYPTO_HANDSHAKE_SIZE - i.len()) as usize)
        } else if i[0] == CRYPTO_DATA_TAG && i.len() < CRYPTO_DATA_HEADER_SIZE {
            ParseError::Incomplete((CRYPTO_DATA_HEADER_SIZE - i.len()) as usize)
        } else {
            ParseError::Malformed
        }
    }

    /// The bytes of this packet.
    pub fn encode(&self) -> (out: Vec<u8>)
        ensures
            out@ == self.wire(),
    {
        match self {
            Packet::CookieRequest(p) => p.encode(),
            Packet::CookieResponse(p) => p.encode(),
            Packet::CryptoHandshake(p) => p.encode(),
            Packet::CryptoData(p) => p.encode(),
        }
    }

    /// A copy of this packet.
    pub fn duplicate(&self) -> (copy: Packet)
        ensures
            copy.same(self),
            copy.wire() == self.wire(),
    {
        match self {
            Packet::CookieRequest(p) => Packet::CookieRequest(p.duplicate()),
            Packet::CookieResponse(p) => Packet::CookieResponse(p.duplicate()),
            Packet::CryptoHandshake(p) => Packet::CryptoHandshake(p.duplicate()),
            Packet::CryptoData(p) => Packet::CryptoData(p.duplicate()),
        }
    }

    /// A well-formed packet can be read back from its bytes, and two
    /// well-formed packets with the same bytes are the same packet.
    pub proof fn lemma_wire_injective(&self, other: &Packet)
        requires
            self.wf(),
            other.wf(),
            self.wire() == other.wire(),
        ensures
            Packet::parses(self.wire()),
            self.same(other),
    {
        let empty = Seq::<u8>::empty();
        assert(self.wire() + empty =~= self.wire());
        assert(other.wire() + empty =~= other.wire());
        match self {
            Packet::CookieRequest(p) => p.lemma_parses_wire(empty),
            Packet::CookieResponse(p) => p.lemma_parses_wire(empty),
            Packet::CryptoHandshake(p) => p.lemma_parses_wire(empty),
            Packet::CryptoData(p) => p.lemma_parses_wire(),
        }
        match other {
            Packet::CookieRequest(p) => p.lemma_parses_wire(empty),
            Packet::CookieResponse(p) => p.lemma_parses_wire(empty),
            Packet::CryptoHandshake(p) => p.lemma_parses_wire(empty),
            Packet::CryptoData(p) => p.lemma_parses_wire(),
        }
        match (self, other) {
            (Packet::CookieRequest(p), Packet::CookieRequest(q)) => {
                p.lemma_wire_injective(q, empty, empty);
            },
            (Packet::CookieResponse(p), Packet::CookieResponse(q)) => {
                p.lemma_wire_injective(q, empty, empty);
            },
            (Packet::CryptoHandshake(p), Packet::CryptoHandshake(q)) => {
                p.lemma_wire_injective(q, empty, empty);
            },
            (Packet::CryptoData(p), Packet::CryptoData(q)) => {
                p.lemma_wire_injective(q);
            },
            _ => {
                assert(self.wire()[0] != other.wire()[0]);
            },
        }
    }
}

impl ToBytes for Packet {
    open spec fn wire(&self) -> Seq<u8> {
        match self {
            Packet::CookieRequest(p) => p.wire(),
            Packet::CookieResponse(p) => p.wire(),
            Packet::CryptoHandshake(p) => p.wire(),
            Packet::CryptoData(p) => p.wire(),
        }
    }

    fn to_bytes(&self, buf: &mut [u8], pos: usize) -> (res: Result<usize, GenError>)
        ensures
            res is Ok <==> !self.spec_is_too_long() && pos + self.wire().len() <= old(buf)@.len(),
            res matches Err(e) ==> e == if self.spec_is_too_long() {
                GenError::BufferTooSmall(self.wire().len() as usize)
            } else {
                GenError::BufferTooSmall(
                    missing(
                        old(buf)@.len() as int,
                        pos as int,
                        self.wire().len() as int,
                    ) as usize,
                )
            },
    {
        match self {
            Packet::CookieRequest(p) => p.to_bytes(buf, pos),
            Packet::CookieResponse(p) => p.to_bytes(buf, pos),
            Packet::CryptoHandshake(p) => p.to_bytes(buf, pos),
            Packet::CryptoData(p) => p.to_bytes(buf, pos),
        }
    }
}

impl FromBytes for Packet {
    fn from_bytes(i: &[u8]) -> (res: Result<(&[u8], Packet), ParseError>)
        ensures
            match res {
                Ok((rest, packet)) => Packet::parses(i@) && packet.wf() && packet.wire() + rest@
                    == i@,
                Err(e) => !Packet::parses(i@) && e == Packet::spec_parse_error(i@),
            },
    {
        if i.len() == 0 {
            return Err(ParseError::Incomplete(1));
        }
        let tag = i[0];
        if tag == COOKIE_REQUEST_TAG {
            match CookieRequest::from_bytes(i) {
                Ok((rest, p)) => Ok((rest, Packet::CookieRequest(p))),
                Err(e) => Err(e),
            }
        } else if tag == COOKIE_RESPONSE_TAG {
            match CookieResponse::from_bytes(i) {
                Ok((rest, p)) => Ok((rest, Packet::CookieResponse(p))),
                Err(e) => Err(e),
            }
        } else if tag == CRYPTO_HANDSHAKE_TAG {
            match CryptoHandshake::from_bytes(i) {
                Ok((rest, p)) => Ok((rest, Packet::CryptoHandshake(p))),
                Err(e) => Err(e),
            }
        } else if tag == CRYPTO_DATA_TAG {
            match CryptoData::from_bytes(i) {
                Ok((rest, p)) => {
                    assert(p.wire() + rest@ =~= i@);
                    Ok((rest, Packet::CryptoData(p)))
                },
                Err(e) => Err(e),
            }
        } else {
            Err(ParseError::Malformed)
        }
    }
}

} // verus!
