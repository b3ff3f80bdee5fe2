//! Reading values from raw bytes and writing them into byte buffers.
//!
//! A value that can be sent has one wire form, a sequence of bytes. Writing
//! puts that sequence into a buffer at a position and returns the position
//! after it; reading takes a value from the front of the input and returns
//! what is left of the input.

use vstd::prelude::*;
use vstd::slice::slice_subrange;
use crate::crypto_core::{Digest, Digest256, Nonce, PublicKey, SecretKey};
use crate::crypto_core::{
    DIGEST256BYTES, DIGESTBYTES, NONCEBYTES, PUBLICKEYBYTES, SECRETKEYBYTES,
};
use crate::secretbox;

verus! {

/// Why a value could not be written.
#[derive(Clone, Copy, Debug, PartialEq, Eq, Structural)]
pub enum GenError {
    /// The buffer, or the size allowed for the value, is too small. The number
    /// says by how much, or which size was asked for.
    BufferTooSmall(usize),
    /// The value has no wire form; the number names the reason.
    CustomError(u32),
}

/// Why no value could be read.
#[derive(Clone, Copy, Debug, PartialEq, Eq, Structural)]
pub enum ParseError {
    /// The input ends too early: at least this many more bytes are needed.
    Incomplete(usize),
    /// The input does not have the form of the value.
    Malformed,
}

/// `before` with `bytes` written over it from position `pos` on.
pub open spec fn spliced(before: Seq<u8>, pos: int, bytes: Seq<u8>) -> Seq<u8> {
    before.subrange(0, pos) + bytes + before.subrange(pos + bytes.len(), before.len() as int)
}

/// How many of `n` bytes find no room in a buffer of `len` bytes from position `pos` on.
pub open spec fn missing(len: int, pos: int, n: int) -> int {
    if pos >= len {
        n
    } else if len - pos >= n {
        0
    } else {
        n - (len - pos)
    }
}

/// The two bytes of `x`, the high one first.
pub open spec fn spec_u16_to_be_bytes(x: u16) -> Seq<u8> {
    seq![(x / 256) as u8, (x % 256) as u8]
}

/// The number whose two bytes, the high one first, are `s`.
pub open spec fn spec_u16_from_be_bytes(s: Seq<u8>) -> u16
    recommends
        s.len() == 2,
{
    (s[0] * 256 + s[1]) as u16
}

/// Reading back the big-endian bytes of a `u16` gives the number, and writing
/// the number read from two bytes gives the bytes.
pub proof fn lemma_u16_be_round_trip(x: u16, s: Seq<u8>)
    ensures
        spec_u16_to_be_bytes(x).len() == 2,
        spec_u16_from_be_bytes(spec_u16_to_be_bytes(x)) == x,
        s.len() == 2 ==> spec_u16_to_be_bytes(spec_u16_from_be_bytes(s)) == s,
{
    if s.len() == 2 {
        assert(spec_u16_to_be_bytes(spec_u16_from_be_bytes(s)) =~= s);
    }
}

/// The two bytes of `x`, the low one first.
pub open spec fn spec_u16_to_le_bytes(x: u16) -> Seq<u8> {
    seq![(x % 256) as u8, (x / 256) as u8]
}

/// The number whose two bytes, the low one first, are `s`.
pub open spec fn spec_u16_from_le_bytes(s: Seq<u8>) -> u16
    recommends
        s.len() == 2,
{
    (s[0] + s[1] * 256) as u16
}

/// The four bytes of `x`, the lowest first.
pub open spec fn spec_u32_to_le_bytes(x: u32) -> Seq<u8> {
    seq![
        (x % 256) as u8,
        (x / 256 % 256) as u8,
        (x / 65536 % 256) as u8,
        (x / 16777216) as u8,
    ]
}

/// The number whose four bytes, the lowest first, are `s`.
pub open spec fn spec_u32_from_le_bytes(s: Seq<u8>) -> u32
    recommends
        s.len() == 4,
{
    (s[0] + s[1] * 256 + s[2] * 65536 + s[3] * 16777216) as u32
}

/// The eight bytes of `x`, the lowest first.
pub open spec fn spec_u64_to_le_bytes(x: u64) -> Seq<u8> {
    seq![
        (x % 256) as u8,
        (x / 256 % 256) as u8,
        (x / 65536 % 256) as u8,
        (x / 16777216 % 256) as u8,
        (x / 4294967296 % 256) as u8,
        (x / 1099511627776 % 256) as u8,
        (x / 281474976710656 % 256) as u8,
        (x / 72057594037927936) as u8,
    ]
}

/// The number whose eight bytes, the lowest first, are `s`.
pub open spec fn spec_u64_from_le_bytes(s: Seq<u8>) -> u64
    recommends
        s.len() == 8,
{
    (s[0] + s[1] * 256 + s[2] * 65536 + s[3] * 16777216 + s[4] * 4294967296 + s[5]
        * 1099511627776 + s[6] * 281474976710656 + s[7] * 72057594037927936) as u64
}

/// Reading back the little-endian bytes of a `u16` gives the number, and
/// writing the number read from two bytes gives the bytes.
pub proof fn lemma_u16_le_round_trip()
    ensures
        forall|x: u16|
            {
                &&& #[trigger] spec_u16_to_le_bytes(x).len() == 2
                &&& spec_u16_from_le_bytes(spec_u16_to_le_bytes(x)) == x
            },
        forall|s: Seq<u8>|
            s.len() == 2 ==> #[trigger] spec_u16_to_le_bytes(spec_u16_from_le_bytes(s)) == s,
{
    assert forall|s: Seq<u8>| s.len() == 2 implies #[trigger] spec_u16_to_le_bytes(
        spec_u16_from_le_bytes(s),
    ) == s by {
        assert(spec_u16_to_le_bytes(spec_u16_from_le_bytes(s)) =~= s);
    }
}

/// A number below 2^32 is the sum of its four bytes, each at its place.
proof fn lemma_split_u32(x: int)
    requires
        0 <= x < 4294967296,
    ensures
        x == x % 256 + (x / 256 % 256) * 256 + (x / 65536 % 256) * 65536 + (x / 16777216)
            * 16777216,
        x / 16777216 < 256,
{
}

/// The sum of four bytes, each at its place, is below 2^32 and has these
/// bytes.
proof fn lemma_join_u32(b0: int, b1: int, b2: int, b3: int)
    requires
        0 <= b0 < 256,
        0 <= b1 < 256,
        0 <= b2 < 256,
        0 <= b3 < 256,
    ensures
        ({
            let x = b0 + b1 * 256 + b2 * 65536 + b3 * 16777216;
            &&& 0 <= x < 4294967296
            &&& x % 256 == b0
            &&& x / 256 % 256 == b1
            &&& x / 65536 % 256 == b2
            &&& x / 16777216 == b3
        }),
{
}

/// A number below 2^64 is made of its low and its high four bytes.
proof fn lemma_split_u64(x: u64)
    ensures
        ({
            let lo = x % 4294967296;
            let hi = x / 4294967296;
            &&& x == lo + hi * 4294967296
            &&& 0 <= hi < 4294967296
            &&& lo % 256 == x % 256
            &&& lo / 256 % 256 == x / 256 % 256
            &&& lo / 65536 % 256 == x / 65536 % 256
            &&& lo / 16777216 == x / 16777216 % 256
            &&& hi % 256 == x / 4294967296 % 256
            &&& hi / 256 % 256 == x / 1099511627776 % 256
            &&& hi / 65536 % 256 == x / 281474976710656 % 256
            &&& hi / 16777216 == x / 72057594037927936
        }),
{
    assert(x / 4294967296 < 4294967296) by (bit_vector);
    assert(x % 4294967296 % 256 == x % 256) by (bit_vector);
    assert(x % 4294967296 / 256 % 256 == x / 256 % 256) by (bit_vector);
    assert(x % 4294967296 / 65536 % 256 == x / 65536 % 256) by (bit_vector);
    assert(x % 4294967296 / 16777216 == x / 16777216 % 256) by (bit_vector);
    assert(x / 4294967296 / 256 % 256 == x / 1099511627776 % 256) by (bit_vector);
    assert(x / 4294967296 / 65536 % 256 == x / 281474976710656 % 256) by (bit_vector);
    assert(x / 4294967296 / 16777216 == x / 72057594037927936) by (bit_vector);
}

/// Reading back the little-endian bytes of a `u32` gives the number, and
/// writing the number read from four bytes gives the bytes.
pub proof fn lemma_u32_le_round_trip()
    ensures
        forall|x: u32|
            {
                &&& #[trigger] spec_u32_to_le_bytes(x).len() == 4
                &&& spec_u32_from_le_bytes(spec_u32_to_le_bytes(x)) == x
            },
        forall|s: Seq<u8>|
            s.len() == 4 ==> #[trigger] spec_u32_to_le_bytes(spec_u32_from_le_bytes(s)) == s,
{
    assert forall|x: u32| spec_u32_from_le_bytes(#[trigger] spec_u32_to_le_bytes(x)) == x by {
        lemma_split_u32(x as int);
    }
    assert forall|s: Seq<u8>| s.len() == 4 implies #[trigger] spec_u32_to_le_bytes(
        spec_u32_from_le_bytes(s),
    ) == s by {
        lemma_join_u32(s[0] as int, s[1] as int, s[2] as int, s[3] as int);
        assert(spec_u32_to_le_bytes(spec_u32_from_le_bytes(s)) =~= s);
    }
}

/// Reading back the little-endian bytes of a `u64` gives the number, and
/// writing the number read from eight bytes gives the bytes.
pub proof fn lemma_u64_le_round_trip()
    ensures
        forall|x: u64|
            {
                &&& #[trigger] spec_u64_to_le_bytes(x).len() == 8
                &&& spec_u64_from_le_bytes(spec_u64_to_le_bytes(x)) == x
            },
        forall|s: Seq<u8>|
            s.len() == 8 ==> #[trigger] spec_u64_to_le_bytes(spec_u64_from_le_bytes(s)) == s,
{
    assert forall|x: u64| spec_u64_from_le_bytes(#[trigger] spec_u64_to_le_bytes(x)) == x by {
        lemma_split_u64(x);
        lemma_split_u32(x as int % 4294967296);
        lemma_split_u32(x as int / 4294967296);
    }
    assert forall|s: Seq<u8>| s.len() == 8 implies #[trigger] spec_u64_to_le_bytes(
        spec_u64_from_le_bytes(s),
    ) == s by {
        let lo = s[0] + s[1] * 256 + s[2] * 65536 + s[3] * 16777216;
        let hi = s[4] + s[5] * 256 + s[6] * 65536 + s[7] * 16777216;
        lemma_join_u32(s[0] as int, s[1] as int, s[2] as int, s[3] as int);
        lemma_join_u32(s[4] as int, s[5] as int, s[6] as int, s[7] as int);
        let x = lo + hi * 4294967296;
        assert(x == spec_u64_from_le_bytes(s));
        assert(x % 4294967296 == lo && x / 4294967296 == hi);
        lemma_split_u64(x as u64);
        assert(spec_u64_to_le_bytes(spec_u64_from_le_bytes(s)) =~= s);
    }
}

/// Writes `src` into `buf` from position `pos` on.
///
/// Nothing is written unless all of `src` fits.
pub fn gen_slice(buf: &mut [u8], pos: usize, src: &[u8]) -> (res: Result<usize, GenError>)
    ensures
        final(buf)@.len() == old(buf)@.len(),
        res is Ok <==> pos + src@.len() <= old(buf)@.len(),
        res matches Ok(end) ==> end == pos + src@.len() && final(buf)@ == spliced(
            old(buf)@,
            pos as int,
            src@,
        ),
        res matches Err(e) ==> final(buf)@ == old(buf)@ && e == GenError::BufferTooSmall(
            missing(old(buf)@.len() as int, pos as int, src@.len() as int) as usize,
        ),
{
    let len = buf.len();
    let n = src.len();
    if pos >= len {
        if n == 0 && pos == len {
            assert(buf@ =~= spliced(buf@, pos as int, src@));
            return Ok(pos);
        }
        return Err(GenError::BufferTooSmall(n));
    }
    if len - pos < n {
        return Err(GenError::BufferTooSmall(n - (len - pos)));
    }
    let mut i: usize = 0;
    while i < n
        invariant
            i <= n,
            n == src@.len(),
            len == buf@.len(),
            pos + n <= len,
            buf@.len() == old(buf)@.len(),
            buf@ == spliced(old(buf)@, pos as int, src@.subrange(0, i as int)),
        decreases n - i,
    {
        buf[pos + i] = src[i];
        i += 1;
        assert(buf@ =~= spliced(old(buf)@, pos as int, src@.subrange(0, i as int)));
    }
    assert(src@.subrange(0, n as int) == src@);
    Ok(pos + n)
}

/// Appends `src` to `out`.
pub fn append(out: &mut Vec<u8>, src: &[u8])
    ensures
        final(out)@ == old(out)@ + src@,
{
    let n = src.len();
    let mut i: usize = 0;
    while i < n
        invariant
            i <= n,
            n == src@.len(),
            out@ == old(out)@ + src@.subrange(0, i as int),
        decreases n - i,
    {
        out.push(src[i]);
        i += 1;
        assert(out@ =~= old(out)@ + src@.subrange(0, i as int));
    }
    assert(src@.subrange(0, n as int) == src@);
}

/// A copy of `src`.
pub fn to_vec(src: &[u8]) -> (out: Vec<u8>)
    ensures
        out@ == src@,
{
    let mut out: Vec<u8> = Vec::new();
    append(&mut out, src);
    assert(out@ =~= src@);
    out
}

/// The `N` bytes of `i` that start at position `at`.
pub fn take_array<const N: usize>(i: &[u8], at: usize) -> (res: [u8; N])
    requires
        at + N <= i@.len(),
    ensures
        res@ == i@.subrange(at as int, at + N),
{
    let len = i.len();
    let mut res = [0u8; N];
    let mut k: usize = 0;
    while k < N
        invariant
            k <= N,
            at + N <= len,
            len == i@.len(),
            forall|j: int| 0 <= j < k ==> res@[j] == i@[at + j],
        decreases N - k,
    {
        res[k] = i[at + k];
        k += 1;
    }
    assert(res@ =~= i@.subrange(at as int, at + N));
    res
}

/// Whether two byte strings are the same.
pub fn bytes_eq(a: &[u8], b: &[u8]) -> (same: bool)
    ensures
        same == (a@ == b@),
{
    if a.len() != b.len() {
        return false;
    }
    let n = a.len();
    let mut k: usize = 0;
    while k < n
        invariant
            k <= n,
            n == a@.len(),
            n == b@.len(),
            forall|j: int| 0 <= j < k ==> a@[j] == b@[j],
        decreases n - k,
    {
        if a[k] != b[k] {
            return false;
        }
        k += 1;
    }
    assert(a@ =~= b@);
    true
}

/// The big-endian bytes of `x`.
pub fn u16_to_be_bytes(x: u16) -> (out: [u8; 2])
    ensures
        out@ == spec_u16_to_be_bytes(x),
{
    let out = [(x / 256) as u8, (x % 256) as u8];
    assert(out@ =~= spec_u16_to_be_bytes(x));
    out
}

/// The number that the two bytes of `i` at position `at` hold, the high byte first.
pub fn u16_from_be_bytes(i: &[u8], at: usize) -> (x: u16)
    requires
        at + 2 <= i@.len(),
    ensures
        x == spec_u16_from_be_bytes(i@.subrange(at as int, at + 2)),
{
    assert(i.len() == i@.len());
    let hi: u16 = i[at] as u16;
    let lo: u16 = i[at + 1] as u16;
    hi * 256 + lo
}

/// The little-endian bytes of `x`.
pub fn u16_to_le_bytes(x: u16) -> (out: Vec<u8>)
    ensures
        out@ == spec_u16_to_le_bytes(x),
{
    let mut out: Vec<u8> = Vec::new();
    out.push((x % 256) as u8);
    out.push((x / 256) as u8);
    assert(out@ =~= spec_u16_to_le_bytes(x));
    out
}

/// The little-endian bytes of `x`.
pub fn u32_to_le_bytes(x: u32) -> (out: Vec<u8>)
    ensures
        out@ == spec_u32_to_le_bytes(x),
{
    let mut out: Vec<u8> = Vec::new();
    out.push((x % 256) as u8);
    out.push((x / 256 % 256) as u8);
    out.push((x / 65536 % 256) as u8);
    out.push((x / 16777216) as u8);
    assert(out@ =~= spec_u32_to_le_bytes(x));
    out
}

/// The little-endian bytes of `x`.
pub fn u64_to_le_bytes(x: u64) -> (out: Vec<u8>)
    ensures
        out@ == spec_u64_to_le_bytes(x),
{
    let mut out: Vec<u8> = Vec::new();
    out.push((x % 256) as u8);
    out.push((x / 256 % 256) as u8);
    out.push((x / 65536 % 256) as u8);
    out.push((x / 16777216 % 256) as u8);
    out.push((x / 4294967296 % 256) as u8);
    out.push((x / 1099511627776 % 256) as u8);
    out.push((x / 281474976710656 % 256) as u8);
    out.push((x / 72057594037927936) as u8);
    assert(out@ =~= spec_u64_to_le_bytes(x));
    out
}

/// The little-endian number in the two bytes of `i` at position `at`.
pub fn le_u16(i: &[u8], at: usize) -> (x: u16)
    requires
        at + 2 <= i@.len(),
    ensures
        x == spec_u16_from_le_bytes(i@.subrange(at as int, at + 2)),
{
    assert(i.len() == i@.len());
    let b0: u16 = i[at] as u16;
    let b1: u16 = i[at + 1] as u16;
    b0 + b1 * 256
}

/// The little-endian number in the four bytes of `i` at position `at`.
pub fn le_u32(i: &[u8], at: usize) -> (x: u32)
    requires
        at + 4 <= i@.len(),
    ensures
        x == spec_u32_from_le_bytes(i@.subrange(at as int, at + 4)),
{
    assert(i.len() == i@.len());
    let b0: u32 = i[at] as u32;
    let b1: u32 = i[at + 1] as u32;
    let b2: u32 = i[at + 2] as u32;
    let b3: u32 = i[at + 3] as u32;
    b0 + b1 * 256 + b2 * 65536 + b3 * 16777216
}

/// The little-endian number in the eight bytes of `i` at position `at`.
pub fn le_u64(i: &[u8], at: usize) -> (x: u64)
    requires
        at + 8 <= i@.len(),
    ensures
        x == spec_u64_from_le_bytes(i@.subrange(at as int, at + 8)),
{
    assert(i.len() == i@.len());
    let b0: u64 = i[at] as u64;
    let b1: u64 = i[at + 1] as u64;
    let b2: u64 = i[at + 2] as u64;
    let b3: u64 = i[at + 3] as u64;
    let b4: u64 = i[at + 4] as u64;
    let b5: u64 = i[at + 5] as u64;
    let b6: u64 = i[at + 6] as u64;
    let b7: u64 = i[at + 7] as u64;
    b0 + b1 * 256 + b2 * 65536 + b3 * 16777216 + b4 * 4294967296 + b5 * 1099511627776 + b6
        * 281474976710656 + b7 * 72057594037927936
}

/// Passes the position `pos` on if a value written up to it has kept within
/// `limit` bytes, and refuses it with the position otherwise.
pub fn gen_len_limit(pos: usize, limit: usize) -> (res: Result<usize, GenError>)
    ensures
        pos <= limit ==> res == Ok::<usize, GenError>(pos),
        pos > limit ==> res == Err::<usize, GenError>(GenError::BufferTooSmall(pos)),
{
    if pos <= limit {
        Ok(pos)
    } else {
        Err(GenError::BufferTooSmall(pos))
    }
}

/// Refuses to write, with the error that `error` names.
pub fn gen_error(_pos: usize, error: u32) -> (res: Result<usize, GenError>)
    ensures
        res == Err::<usize, GenError>(GenError::CustomError(error)),
{
    Err(GenError::CustomError(error))
}

/// A value that can be read from the front of raw bytes.
pub trait FromBytes: Sized {
    /// Reads one value from the front of `i` and returns it with the rest of `i`.
    fn from_bytes(i: &[u8]) -> (res: Result<(&[u8], Self), ParseError>)
        ensures
            res matches Ok((rest, _)) ==> rest@.len() <= i@.len() && rest@ == i@.subrange(
                i@.len() - rest@.len(),
                i@.len() as int,
            ),
    ;
}

/// A value that can be written into a buffer of raw bytes.
pub trait ToBytes: Sized {
    /// The bytes that stand for this value on the wire.
    spec fn wire(&self) -> Seq<u8>;

    /// Writes the wire form of this value into `buf` from position `pos` on
    /// and returns the position behind it. Nothing is written on an error.
    fn to_bytes(&self, buf: &mut [u8], pos: usize) -> (res: Result<usize, GenError>)
        ensures
            final(buf)@.len() == old(buf)@.len(),
            res matches Ok(end) ==> end == pos + self.wire().len() && end <= old(buf)@.len()
                && final(buf)@ == spliced(old(buf)@, pos as int, self.wire()),
            res is Err ==> final(buf)@ == old(buf)@,
    ;
}

impl FromBytes for PublicKey {
    fn from_bytes(i: &[u8]) -> (res: Result<(&[u8], PublicKey), ParseError>)
        ensures
            match res {
                Ok((rest, value)) => {
                    &&& i@.len() >= PUBLICKEYBYTES
                    &&& value@ == i@.subrange(0, PUBLICKEYBYTES as int)
                    &&& rest@ == i@.subrange(PUBLICKEYBYTES as int, i@.len() as int)
                },
                Err(e) => i@.len() < PUBLICKEYBYTES && e == ParseError::Incomplete(
                    (PUBLICKEYBYTES - i@.len()) as usize,
                ),
            },
    {
        let len = i.len();
        if len < PUBLICKEYBYTES {
            return Err(ParseError::Incomplete(PUBLICKEYBYTES - len));
        }
        Ok((slice_subrange(i, PUBLICKEYBYTES, len), PublicKey(take_array(i, 0))))
    }
}

impl FromBytes for SecretKey {
    fn from_bytes(i: &[u8]) -> (res: Result<(&[u8], SecretKey), ParseError>)
        ensures
            match res {
                Ok((rest, value)) => {
                    &&& i@.len() >= SECRETKEYBYTES
                    &&& value@ == i@.subrange(0, SECRETKEYBYTES as int)
                    &&& rest@ == i@.subrange(SECRETKEYBYTES as int, i@.len() as int)
                },
                Err(e) => i@.len() < SECRETKEYBYTES && e == ParseError::Incomplete(
                    (SECRETKEYBYTES - i@.len()) as usize,
                ),
            },
    {
        let len = i.len();
        if len < SECRETKEYBYTES {
            return Err(ParseError::Incomplete(SECRETKEYBYTES - len));
        }
        Ok((slice_subrange(i, SECRETKEYBYTES, len), SecretKey(take_array(i, 0))))
    }
}

impl FromBytes for Nonce {
    fn from_bytes(i: &[u8]) -> (res: Result<(&[u8], Nonce), ParseError>)
        ensures
            match res {
                Ok((rest, value)) => {
                    &&& i@.len() >= NONCEBYTES
                    &&& value@ == i@.subrange(0, NONCEBYTES as int)
                    &&& rest@ == i@.subrange(NONCEBYTES as int, i@.len() as int)
                },
                Err(e) => i@.len() < NONCEBYTES && e == ParseError::Incomplete(
                    (NONCEBYTES - i@.len()) as usize,
                ),
            },
    {
        let len = i.len();
        if len < NONCEBYTES {
            return Err(ParseError::Incomplete(NONCEBYTES - len));
        }
        Ok((slice_subrange(i, NONCEBYTES, len), Nonce(take_array(i, 0))))
    }
}

impl FromBytes for secretbox::Nonce {
    fn from_bytes(i: &[u8]) -> (res: Result<(&[u8], secretbox::Nonce), ParseError>)
        ensures
            match res {
                Ok((rest, value)) => {
                    &&& i@.len() >= secretbox::NONCEBYTES
                    &&& value@ == i@.subrange(0, secretbox::NONCEBYTES as int)
                    &&& rest@ == i@.subrange(secretbox::NONCEBYTES as int, i@.len() as int)
                },
                Err(e) => i@.len() < secretbox::NONCEBYTES && e == ParseError::Incomplete(
                    (secretbox::NONCEBYTES - i@.len()) as usize,
                ),
            },
    {
        let len = i.len();
        if len < secretbox::NONCEBYTES {
            return Err(ParseError::Incomplete(secretbox::NONCEBYTES - len));
        }
        Ok((slice_subrange(i, secretbox::NONCEBYTES, len), secretbox::Nonce(take_array(i, 0))))
    }
}

impl FromBytes for Digest {
    fn from_bytes(i: &[u8]) -> (res: Result<(&[u8], Digest), ParseError>)
        ensures
            match res {
                Ok((rest, value)) => {
                    &&& i@.len() >= DIGESTBYTES
                    &&& value@ == i@.subrange(0, DIGESTBYTES as int)
                    &&& rest@ == i@.subrange(DIGESTBYTES as int, i@.len() as int)
                },
                Err(e) => i@.len() < DIGESTBYTES && e == ParseError::Incomplete(
                    (DIGESTBYTES - i@.len()) as usize,
                ),
            },
    {
        let len = i.len();
        if len < DIGESTBYTES {
            return Err(ParseError::Incomplete(DIGESTBYTES - len));
        }
        Ok((slice_subrange(i, DIGESTBYTES, len), Digest(take_array(i, 0))))
    }
}

impl FromBytes for Digest256 {
    fn from_bytes(i: &[u8]) -> (res: Result<(&[u8], Digest256), ParseError>)
        ensures
            match res {
                Ok((rest, value)) => {
                    &&& i@.len() >= DIGEST256BYTES
                    &&& value@ == i@.subrange(0, DIGEST256BYTES as int)
                    &&& rest@ == i@.subrange(DIGEST256BYTES as int, i@.len() as int)
                },
                Err(e) => i@.len() < DIGEST256BYTES && e == ParseError::Incomplete(
                    (DIGEST256BYTES - i@.len()) as usize,
                ),
            },
    {
        let len = i.len();
        if len < DIGEST256BYTES {
            return Err(ParseError::Incomplete(DIGEST256BYTES - len));
        }
        Ok((slice_subrange(i, DIGEST256BYTES, len), Digest256(take_array(i, 0))))
    }
}

} // verus!
