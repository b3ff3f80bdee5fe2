//! Internet addresses as plain values, and their wire forms.
//!
//! An IPv4 address goes on the wire as its four octets. An IPv6 address goes
//! on the wire as its eight segments, each as two bytes with the low byte
//! first.

use vstd::prelude::*;
use vstd::slice::slice_subrange;
use crate::binary_io::{
    append, gen_slice, le_u16, lemma_u16_le_round_trip, missing, spec_u16_from_le_bytes,
    spec_u16_to_le_bytes, take_array, u16_to_le_bytes, FromBytes, GenError, ParseError, ToBytes,
};

verus! {

/// Number of bytes in the wire form of an [`Ipv4Addr`].
pub const IPV4_SIZE: usize = 4;

/// Number of bytes in the wire form of an [`Ipv6Addr`].
pub const IPV6_SIZE: usize = 16;

/// An IPv4 address.
#[derive(Clone, Copy, Debug, PartialEq, Eq, Hash)]
pub struct Ipv4Addr {
    /// The four octets, the first one first.
    pub octets: [u8; 4],
}

/// An IPv6 address.
#[derive(Clone, Copy, Debug, PartialEq, Eq, Hash)]
pub struct Ipv6Addr {
    /// The eight 16-bit segments, the first one first.
    pub segments: [u16; 8],
}

/// An IP address of either version.
#[derive(Clone, Copy, Debug, PartialEq, Eq, Hash)]
pub enum IpAddr {
    /// An IPv4 address.
    V4(Ipv4Addr),
    /// An IPv6 address.
    V6(Ipv6Addr),
}

/// An IP address with a port.
#[derive(Clone, Copy, Debug, PartialEq, Eq, Hash)]
pub struct SocketAddr {
    /// The address.
    pub ip: IpAddr,
    /// The port.
    pub port: u16,
}

/// The bytes of the first `n` of the segments `s`, each with its low byte first.
pub open spec fn segments_wire(s: Seq<u16>, n: nat) -> Seq<u8>
    decreases n,
{
    if n == 0 {
        Seq::empty()
    } else {
        segments_wire(s, (n - 1) as nat) + spec_u16_to_le_bytes(s[n - 1])
    }
}

/// The bytes of `n` segments are twice as many.
pub proof fn lemma_segments_wire_len(s: Seq<u16>, n: nat)
    ensures
        segments_wire(s, n).len() == 2 * n,
    decreases n,
{
    lemma_u16_le_round_trip();
    if n > 0 {
        lemma_segments_wire_len(s, (n - 1) as nat);
    }
}

/// The segment `k` stands in the bytes `2 * k` and `2 * k + 1`, its low byte
/// first.
pub proof fn lemma_segments_wire_at(s: Seq<u16>, n: nat, k: int)
    requires
        0 <= k < n,
    ensures
        segments_wire(s, n).len() == 2 * n,
        segments_wire(s, n)[2 * k] == s[k] % 256,
        segments_wire(s, n)[2 * k + 1] == s[k] / 256,
    decreases n,
{
    lemma_segments_wire_len(s, n);
    lemma_segments_wire_len(s, (n - 1) as nat);
    if k < n - 1 {
        lemma_segments_wire_at(s, (n - 1) as nat, k);
    }
}

impl Ipv4Addr {
    /// The address with the octets `a`, `b`, `c` and `d`.
    pub fn new(a: u8, b: u8, c: u8, d: u8) -> (addr: Ipv4Addr)
        ensures
            addr.octets@ == seq![a, b, c, d],
    {
        let addr = Ipv4Addr { octets: [a, b, c, d] };
        assert(addr.octets@ =~= seq![a, b, c, d]);
        addr
    }

    /// The four octets of the address.
    pub fn octets(&self) -> (o: [u8; 4])
        ensures
            o == self.octets,
    {
        self.octets
    }
}

impl Ipv6Addr {
    /// The address with the eight segments given.
    pub fn new(a: u16, b: u16, c: u16, d: u16, e: u16, f: u16, g: u16, h: u16) -> (addr:
        Ipv6Addr)
        ensures
            addr.segments@ == seq![a, b, c, d, e, f, g, h],
    {
        let addr = Ipv6Addr { segments: [a, b, c, d, e, f, g, h] };
        assert(addr.segments@ =~= seq![a, b, c, d, e, f, g, h]);
        addr
    }

    /// The eight segments of the address.
    pub fn segments(&self) -> (s: [u16; 8])
        ensures
            s == self.segments,
    {
        self.segments
    }
}

impl ToBytes for Ipv4Addr {
    open spec fn wire(&self) -> Seq<u8> {
        self.octets@
    }

    fn to_bytes(&self, buf: &mut [u8], pos: usize) -> (res: Result<usize, GenError>)
        ensures
            res is Ok <==> pos + IPV4_SIZE <= old(buf)@.len(),
            res matches Err(e) ==> e == GenError::BufferTooSmall(
                missing(old(buf)@.len() as int, pos as int, IPV4_SIZE as int) as usize,
            ),
    {
        let o = self.octets();
        gen_slice(buf, pos, o.as_slice())
    }
}

impl FromBytes for Ipv4Addr {
    fn from_bytes(i: &[u8]) -> (res: Result<(&[u8], Ipv4Addr), ParseError>)
        ensures
            match res {
                Ok((rest, addr)) => i@.len() >= IPV4_SIZE && addr.wire() + rest@ == i@,
                Err(e) => i@.len() < IPV4_SIZE && e == ParseError::Incomplete(
                    (IPV4_SIZE - i@.len()) as usize,
                ),
            },
    {
        let len = i.len();
        if len < IPV4_SIZE {
            return Err(ParseError::Incomplete(IPV4_SIZE - len));
        }
        let addr = Ipv4Addr { octets: take_array(i, 0) };
        let rest = slice_subrange(i, IPV4_SIZE, len);
        assert(addr.wire() + rest@ =~= i@);
        Ok((rest, addr))
    }
}

impl ToBytes for Ipv6Addr {
    open spec fn wire(&self) -> Seq<u8> {
        segments_wire(self.segments@, 8)
    }

    fn to_bytes(&self, buf: &mut [u8], pos: usize) -> (res: Result<usize, GenError>)
        ensures
            res is Ok <==> pos + IPV6_SIZE <= old(buf)@.len(),
            res matches Err(e) ==> e == GenError::BufferTooSmall(
                missing(old(buf)@.len() as int, pos as int, IPV6_SIZE as int) as usize,
            ),
    {
        let s = self.segments();
        let mut bytes: Vec<u8> = Vec::new();
        let mut k: usize = 0;
        while k < 8
            invariant
                k <= 8,
                s == self.segments,
                bytes@ == segments_wire(self.segments@, k as nat),
            decreases 8 - k,
        {
            let segment = u16_to_le_bytes(s[k]);
            append(&mut bytes, segment.as_slice());
            k += 1;
        }
        proof {
            lemma_segments_wire_len(self.segments@, 8);
        }
        gen_slice(buf, pos, bytes.as_slice())
    }
}

impl FromBytes for Ipv6Addr {
    fn from_bytes(i: &[u8]) -> (res: Result<(&[u8], Ipv6Addr), ParseError>)
        ensures
            match res {
                Ok((rest, addr)) => i@.len() >= IPV6_SIZE && addr.wire() + rest@ == i@,
                Err(e) => i@.len() < IPV6_SIZE && e == ParseError::Incomplete(
                    (IPV6_SIZE - i@.len()) as usize,
                ),
            },
    {
        let len = i.len();
        if len < IPV6_SIZE {
            return Err(ParseError::Incomplete(IPV6_SIZE - len));
        }
        let mut segments = [0u16; 8];
        let mut k: usize = 0;
        while k < 8
            invariant
                k <= 8,
                len == i@.len(),
                len >= IPV6_SIZE,
                segments_wire(segments@, k as nat) == i@.subrange(0, 2 * k),
            decreases 8 - k,
        {
            let ghost before = segments@;
            segments[k] = le_u16(i, 2 * k);
            proof {
                lemma_u16_le_round_trip();
                lemma_segments_wire_same(before, segments@, k as nat);
                assert(i@.subrange(2 * k, 2 * k + 2).len() == 2);
                assert(i@.subrange(0, 2 * k) + i@.subrange(2 * k, 2 * k + 2) =~= i@.subrange(
                    0,
                    2 * k + 2,
                ));
            }
            k += 1;
        }
        let addr = Ipv6Addr { segments };
        let rest = slice_subrange(i, IPV6_SIZE, len);
        assert(addr.wire() + rest@ =~= i@);
        Ok((rest, addr))
    }
}

/// The bytes of the first `n` segments depend on those segments alone.
pub proof fn lemma_segments_wire_same(s: Seq<u16>, t: Seq<u16>, n: nat)
    requires
        forall|j: int| 0 <= j < n ==> s[j] == t[j],
    ensures
        segments_wire(s, n) == segments_wire(t, n),
    decreases n,
{
    if n > 0 {
        lemma_segments_wire_same(s, t, (n - 1) as nat);
    }
}

/// Segments with the same bytes are the same segments.
pub proof fn lemma_segments_wire_injective(s: Seq<u16>, t: Seq<u16>, n: nat)
    requires
        segments_wire(s, n) == segments_wire(t, n),
    ensures
        forall|j: int| 0 <= j < n ==> s[j] == t[j],
    decreases n,
{
    if n > 0 {
        let m = (n - 1) as nat;
        let cut = 2 * m as int;
        lemma_u16_le_round_trip();
        lemma_segments_wire_len(s, m);
        lemma_segments_wire_len(t, m);
        let a = segments_wire(s, n);
        let b = segments_wire(t, n);
        assert(segments_wire(s, m) =~= a.subrange(0, cut));
        assert(segments_wire(t, m) =~= b.subrange(0, cut));
        assert(spec_u16_to_le_bytes(s[n - 1]) =~= a.subrange(cut, cut + 2));
        assert(spec_u16_to_le_bytes(t[n - 1]) =~= b.subrange(cut, cut + 2));
        assert(spec_u16_from_le_bytes(spec_u16_to_le_bytes(s[n - 1])) == s[n - 1]);
        assert(spec_u16_from_le_bytes(spec_u16_to_le_bytes(t[n - 1])) == t[n - 1]);
        lemma_segments_wire_injective(s, t, m);
    }
}

impl Ipv6Addr {
    /// Two addresses with the same bytes are the same address.
    pub proof fn lemma_wire_injective(&self, other: &Ipv6Addr)
        requires
            self.wire() == other.wire(),
        ensures
            *self == *other,
    {
        lemma_segments_wire_injective(self.segments@, other.segments@, 8);
        assert(self.segments =~= other.segments);
    }
}

impl ToBytes for IpAddr {
    open spec fn wire(&self) -> Seq<u8> {
        match self {
            IpAddr::V4(p) => p.wire(),
            IpAddr::V6(p) => p.wire(),
        }
    }

    fn to_bytes(&self, buf: &mut [u8], pos: usize) -> (res: Result<usize, GenError>)
        ensures
            res is Ok <==> pos + self.wire().len() <= old(buf)@.len(),
            res matches Err(e) ==> e == GenError::BufferTooSmall(
                missing(old(buf)@.len() as int, pos as int, self.wire().len() as int) as usize,
            ),
    {
        proof {
            match self {
                IpAddr::V4(p) => {},
                IpAddr::V6(p) => { lemma_segments_wire_len(p.segments@, 8); },
            }
        }
        match *self {
            IpAddr::V4(ref p) => p.to_bytes(buf, pos),
            IpAddr::V6(ref p) => p.to_bytes(buf, pos),
        }
    }
}

} // verus!
