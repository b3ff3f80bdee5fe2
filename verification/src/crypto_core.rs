//! The cryptographic primitives that the session layer stands on.
//!
//! Keys, nonces and digests are fixed-size byte strings. The primitives
//! themselves come from libsodium through `sodiumoxide`.

use vstd::prelude::*;
use crate::binary_io::{bytes_eq, le_u64};
use crate::error::Error;

verus! {

/// Number of bytes in a [`PublicKey`].
pub const PUBLICKEYBYTES: usize = 32;

/// Number of bytes in a [`SecretKey`].
pub const SECRETKEYBYTES: usize = 32;

/// Number of bytes in a [`Nonce`].
pub const NONCEBYTES: usize = 24;

/// Number of bytes in a [`PrecomputedKey`].
pub const PRECOMPUTEDKEYBYTES: usize = 32;

/// Number of bytes by which a sealed message is longer than the message.
pub const MACBYTES: usize = 16;

/// Number of bytes in a SHA-512 [`Digest`].
pub const DIGESTBYTES: usize = 64;

/// Number of bytes in a SHA-256 digest, a [`Digest256`].
pub const DIGEST256BYTES: usize = 32;

/// Public key of the public-key box.
#[derive(Clone, Copy, Debug, PartialEq, Eq)]
pub struct PublicKey(pub [u8; PUBLICKEYBYTES]);

/// Secret key of the public-key box.
#[derive(Clone, Copy, Debug, PartialEq, Eq)]
pub struct SecretKey(pub [u8; SECRETKEYBYTES]);

/// Nonce of the public-key box.
#[derive(Clone, Copy, Debug, PartialEq, Eq)]
pub struct Nonce(pub [u8; NONCEBYTES]);

/// The key that a secret key and a peer's public key share.
#[derive(Clone, Copy, Debug, PartialEq, Eq)]
pub struct PrecomputedKey(pub [u8; PRECOMPUTEDKEYBYTES]);

/// A SHA-512 digest.
#[derive(Clone, Copy, Debug, PartialEq, Eq)]
pub struct Digest(pub [u8; DIGESTBYTES]);

/// A SHA-256 digest.
#[derive(Clone, Copy, Debug, PartialEq, Eq)]
pub struct Digest256(pub [u8; DIGEST256BYTES]);

impl View for PublicKey {
    type V = Seq<u8>;

    open spec fn view(&self) -> Seq<u8> {
        self.0@
    }
}

impl View for SecretKey {
    type V = Seq<u8>;

    open spec fn view(&self) -> Seq<u8> {
        self.0@
    }
}

impl View for Nonce {
    type V = Seq<u8>;

    open spec fn view(&self) -> Seq<u8> {
        self.0@
    }
}

impl View for PrecomputedKey {
    type V = Seq<u8>;

    open spec fn view(&self) -> Seq<u8> {
        self.0@
    }
}

impl View for Digest {
    type V = Seq<u8>;

    open spec fn view(&self) -> Seq<u8> {
        self.0@
    }
}

impl View for Digest256 {
    type V = Seq<u8>;

    open spec fn view(&self) -> Seq<u8> {
        self.0@
    }
}

/// What `sodiumoxide::crypto::box_::precompute` returns for a public and a secret key.
pub uninterp spec fn spec_precompute(pk: Seq<u8>, sk: Seq<u8>) -> Seq<u8>;

/// What `sodiumoxide::crypto::box_::seal_precomputed` returns for a message,
/// a nonce and a precomputed key.
pub uninterp spec fn spec_seal(plain: Seq<u8>, nonce: Seq<u8>, key: Seq<u8>) -> Seq<u8>;

/// What `sodiumoxide::crypto::box_::open_precomputed` returns for a
/// ciphertext, a nonce and a precomputed key: the message, or nothing where
/// authentication fails.
pub uninterp spec fn spec_open(cipher: Seq<u8>, nonce: Seq<u8>, key: Seq<u8>) -> Option<Seq<u8>>;

/// What `sodiumoxide::crypto::hash::sha512::hash` returns for a message.
pub uninterp spec fn spec_hash512(data: Seq<u8>) -> Seq<u8>;

/// What `sodiumoxide::crypto::hash::sha256::hash` returns for a message.
pub uninterp spec fn spec_hash256(data: Seq<u8>) -> Seq<u8>;

/// A fresh random key pair, from `sodiumoxide::crypto::box_::gen_keypair`.
/// Nothing is claimed of its value.
#[verifier::external_body]
pub fn gen_keypair() -> (PublicKey, SecretKey) {
    let (pk, sk) = sodiumoxide::crypto::box_::gen_keypair();
    (PublicKey(pk.0), SecretKey(sk.0))
}

/// A fresh random nonce, from `sodiumoxide::crypto::box_::gen_nonce`.
/// Nothing is claimed of its value.
#[verifier::external_body]
pub fn gen_nonce() -> Nonce {
    Nonce(sodiumoxide::crypto::box_::gen_nonce().0)
}

/// Eight random bytes, from `sodiumoxide::randombytes::randombytes_into`.
/// Nothing is claimed of their values.
#[verifier::external_body]
fn random_bytes() -> [u8; 8] {
    let mut bytes = [0u8; 8];
    sodiumoxide::randombytes::randombytes_into(&mut bytes);
    bytes
}

/// The key shared by `sk` and `pk`, from `sodiumoxide::crypto::box_::precompute`.
/// It is a function of the two keys.
#[verifier::external_body]
pub fn precompute(pk: &PublicKey, sk: &SecretKey) -> (key: PrecomputedKey)
    ensures
        key@ == spec_precompute(pk@, sk@),
{
    let key = sodiumoxide::crypto::box_::precompute(
        &sodiumoxide::crypto::box_::PublicKey(pk.0),
        &sodiumoxide::crypto::box_::SecretKey(sk.0),
    );
    PrecomputedKey(key.0)
}

/// Seals `plain` with `sodiumoxide::crypto::box_::seal_precomputed`. The
/// result is a function of the three arguments, and it is longer than the
/// message by the authentication tag.
#[verifier::external_body]
pub fn seal(key: &PrecomputedKey, nonce: &Nonce, plain: &[u8]) -> (cipher: Vec<u8>)
    requires
        plain@.len() + MACBYTES <= usize::MAX,
    ensures
        cipher@ == spec_seal(plain@, nonce@, key@),
        cipher@.len() == plain@.len() + MACBYTES,
{
    sodiumoxide::crypto::box_::seal_precomputed(
        plain,
        &sodiumoxide::crypto::box_::Nonce(nonce.0),
        &sodiumoxide::crypto::box_::PrecomputedKey(key.0),
    )
}

/// Opens `cipher` with `sodiumoxide::crypto::box_::open_precomputed`. The
/// result is a function of the three arguments; a ciphertext shorter than the
/// authentication tag is refused, and a message that comes out is shorter
/// than the ciphertext by the tag.
#[verifier::external_body]
fn open_precomputed(key: &PrecomputedKey, nonce: &Nonce, cipher: &[u8]) -> (plain: Option<Vec<u8>>)
    ensures
        plain matches Some(m) ==> spec_open(cipher@, nonce@, key@) == Some(m@) && m@.len()
            + MACBYTES == cipher@.len(),
        plain is None ==> spec_open(cipher@, nonce@, key@) is None,
        cipher@.len() < MACBYTES ==> plain is None,
{
    sodiumoxide::crypto::box_::open_precomputed(
        cipher,
        &sodiumoxide::crypto::box_::Nonce(nonce.0),
        &sodiumoxide::crypto::box_::PrecomputedKey(key.0),
    ).ok()
}

/// Opens `cipher` under `key` with the nonce `nonce`.
///
/// Fails with `Decrypt` where the ciphertext does not pass authentication;
/// one that is shorter than the authentication tag never does.
pub fn open(key: &PrecomputedKey, nonce: &Nonce, cipher: &[u8]) -> (res: Result<Vec<u8>, Error>)
    ensures
        match res {
            Ok(plain) => spec_open(cipher@, nonce@, key@) == Some(plain@) && plain@.len()
                + MACBYTES == cipher@.len(),
            Err(e) => e == Error::Decrypt && spec_open(cipher@, nonce@, key@) is None,
        },
        cipher@.len() < MACBYTES ==> res is Err,
{
    match open_precomputed(key, nonce, cipher) {
        Some(plain) => Ok(plain),
        None => Err(Error::Decrypt),
    }
}

/// The SHA-512 digest of `data`, from `sodiumoxide::crypto::hash::sha512::hash`.
/// It is a function of the message.
#[verifier::external_body]
pub fn hash512(data: &[u8]) -> (digest: Digest)
    ensures
        digest@ == spec_hash512(data@),
{
    Digest(sodiumoxide::crypto::hash::sha512::hash(data).0)
}

/// The SHA-256 digest of `data`, from `sodiumoxide::crypto::hash::sha256::hash`.
/// It is a function of the message.
#[verifier::external_body]
pub fn hash256(data: &[u8]) -> (digest: Digest256)
    ensures
        digest@ == spec_hash256(data@),
{
    Digest256(sodiumoxide::crypto::hash::sha256::hash(data).0)
}

impl PublicKey {
    /// Two keys with the same bytes are the same key.
    pub proof fn lemma_same_bytes(&self, other: &PublicKey)
        requires
            self@ == other@,
        ensures
            *self == *other,
    {
        assert(self.0 =~= other.0);
    }

    /// Whether this is the key `other`.
    pub fn same_as(&self, other: &PublicKey) -> (same: bool)
        ensures
            same == (*self == *other),
            same == (self@ == other@),
    {
        let same = bytes_eq(self.0.as_slice(), other.0.as_slice());
        assert(same ==> self.0 == other.0) by {
            if same {
                assert(self.0@ =~= other.0@);
            }
        }
        same
    }
}

impl Digest {
    /// Two digests with the same bytes are the same digest.
    pub proof fn lemma_same_bytes(&self, other: &Digest)
        requires
            self@ == other@,
        ensures
            *self == *other,
    {
        assert(self.0 =~= other.0);
    }

    /// Whether this is the digest `other`.
    pub fn same_as(&self, other: &Digest) -> (same: bool)
        ensures
            same == (*self == *other),
            same == (self@ == other@),
    {
        let same = bytes_eq(self.0.as_slice(), other.0.as_slice());
        assert(same ==> self.0 == other.0) by {
            if same {
                assert(self.0@ =~= other.0@);
            }
        }
        same
    }
}

/// 256 to the power `n`.
pub open spec fn pow256(n: nat) -> nat
    decreases n,
{
    if n == 0 {
        1
    } else {
        256 * pow256((n - 1) as nat)
    }
}

/// The number that the bytes `s` spell, the most significant byte first.
pub open spec fn be_value(s: Seq<u8>) -> nat
    decreases s.len(),
{
    if s.len() == 0 {
        0
    } else {
        s[0] as nat * pow256((s.len() - 1) as nat) + be_value(s.drop_first())
    }
}

/// The number of the nonce that lies `k` places behind the nonce `nonce`,
/// or before it where `k` is negative. The numbers wrap round.
pub open spec fn spec_nonce_add(nonce: Nonce, k: int) -> int {
    (be_value(nonce@) + k) % (pow256(NONCEBYTES as nat) as int)
}

/// Going `k` places on from a nonce and `k` places back leads to the nonce.
pub proof fn lemma_nonce_add_back(nonce: Nonce, moved: Nonce, k: int)
    requires
        be_value(moved@) == spec_nonce_add(nonce, k),
    ensures
        spec_nonce_add(moved, -k) == be_value(nonce@),
{
    lemma_be_value_bound(nonce@);
    let m = pow256(NONCEBYTES as nat) as int;
    let v = be_value(nonce@) as int;
    lemma_pow256_positive(NONCEBYTES as nat);
    vstd::arithmetic::div_mod::lemma_fundamental_div_mod(v + k, m);
    let q = (v + k) / m;
    assert((v + k) % m - k == (-q) * m + v) by (nonlinear_arith)
        requires
            v + k == m * q + (v + k) % m,
    ;
    vstd::arithmetic::div_mod::lemma_fundamental_div_mod_converse(
        (v + k) % m - k,
        m,
        -q,
        v,
    );
}

/// A byte string of `n` bytes spells a number below 256 to the power `n`.
pub proof fn lemma_be_value_bound(s: Seq<u8>)
    ensures
        be_value(s) < pow256(s.len()),
    decreases s.len(),
{
    if s.len() > 0 {
        lemma_be_value_bound(s.drop_first());
        let p = pow256((s.len() - 1) as nat);
        assert(s[0] as nat * p + p <= 256 * p) by (nonlinear_arith)
            requires
                s[0] as nat <= 255,
        ;
    }
}

/// Two byte strings of the same length that spell the same number are the
/// same.
pub proof fn lemma_be_value_injective(a: Seq<u8>, b: Seq<u8>)
    requires
        a.len() == b.len(),
        be_value(a) == be_value(b),
    ensures
        a == b,
    decreases a.len(),
{
    if a.len() > 0 {
        let p = pow256((a.len() - 1) as nat) as int;
        let x = a[0] as int;
        let y = b[0] as int;
        let ra = be_value(a.drop_first()) as int;
        let rb = be_value(b.drop_first()) as int;
        lemma_be_value_bound(a.drop_first());
        lemma_be_value_bound(b.drop_first());
        lemma_pow256_positive((a.len() - 1) as nat);
        assert(x == y) by (nonlinear_arith)
            requires
                x * p + ra == y * p + rb,
                0 <= ra < p,
                0 <= rb < p,
                0 <= x,
                0 <= y,
        ;
        lemma_be_value_injective(a.drop_first(), b.drop_first());
        assert(a =~= seq![a[0]] + a.drop_first());
        assert(b =~= seq![b[0]] + b.drop_first());
    } else {
        assert(a =~= b);
    }
}

impl Nonce {
    /// Two nonces that spell the same number are the same nonce.
    pub proof fn lemma_same_value(&self, other: &Nonce)
        requires
            be_value(self@) == be_value(other@),
        ensures
            *self == *other,
    {
        lemma_be_value_injective(self@, other@);
        assert(self.0 =~= other.0);
    }
}

/// The number that two byte strings spell one after the other is the number
/// of the first, moved up by the length of the second, plus the number of
/// the second.
pub proof fn lemma_be_value_split(a: Seq<u8>, b: Seq<u8>)
    ensures
        be_value(a + b) == be_value(a) * pow256(b.len()) + be_value(b),
    decreases a.len(),
{
    if a.len() == 0 {
        assert(a + b =~= b);
        assert(be_value(a) * pow256(b.len()) == 0) by (nonlinear_arith)
            requires
                be_value(a) == 0,
        ;
    } else {
        let rest = a.drop_first();
        assert((a + b).drop_first() =~= rest + b);
        assert((a + b)[0] == a[0]);
        lemma_be_value_split(rest, b);
        lemma_pow256_add((a.len() - 1) as nat, b.len());
        let x = a[0] as nat;
        let p = pow256((a.len() - 1) as nat);
        let q = pow256(b.len());
        assert(((a + b).len() - 1) as nat == (a.len() - 1) as nat + b.len());
        assert(be_value(a + b) == x * (p * q) + be_value(rest + b));
        assert(x * (p * q) + be_value(rest) * q == (x * p + be_value(rest)) * q)
            by (nonlinear_arith);
    }
}

/// 256 to the power `m + n` is the product of the powers `m` and `n`.
pub proof fn lemma_pow256_add(m: nat, n: nat)
    ensures
        pow256(m + n) == pow256(m) * pow256(n),
    decreases m,
{
    if m > 0 {
        lemma_pow256_add((m - 1) as nat, n);
        assert((m + n - 1) as nat == (m - 1) as nat + n);
        assert(pow256(m + n) == 256 * pow256((m - 1) as nat + n));
        assert(256 * (pow256((m - 1) as nat) * pow256(n)) == (256 * pow256((m - 1) as nat))
            * pow256(n)) by (nonlinear_arith);
    } else {
        assert(pow256(0) * pow256(n) == pow256(n)) by (nonlinear_arith)
            requires
                pow256(0) == 1,
        ;
    }
}

/// The last two bytes of a byte string spell what is left of its number
/// after division by 65536.
pub proof fn lemma_be_value_low(s: Seq<u8>)
    requires
        s.len() >= 2,
    ensures
        be_value(s) % 65536 == s[s.len() - 2] * 256 + s[s.len() - 1],
        pow256(s.len()) % 65536 == 0,
        pow256(s.len()) >= 65536,
{
    let n = s.len() as int;
    let front = s.subrange(0, n - 2);
    let back = s.subrange(n - 2, n);
    assert(s =~= front + back);
    lemma_be_value_split(front, back);
    reveal_with_fuel(pow256, 3);
    reveal_with_fuel(be_value, 3);
    let last = back.drop_first();
    assert(last.len() == 1);
    assert(last.drop_first() =~= Seq::<u8>::empty());
    assert(be_value(last.drop_first()) == 0);
    assert(pow256(0) == 1);
    assert(pow256(1) == 256);
    assert(be_value(last) == last[0] as nat * pow256(0) + be_value(last.drop_first()));
    assert(be_value(last) == back[1]);
    assert(be_value(back) == back[0] as nat * pow256(1) + be_value(last));
    assert(be_value(back) == back[0] * 256 + back[1]);
    assert(pow256(2) == 65536);
    vstd::arithmetic::div_mod::lemma_fundamental_div_mod_converse(
        be_value(s) as int,
        65536,
        be_value(front) as int,
        be_value(back) as int,
    );
    lemma_pow256_add((n - 2) as nat, 2);
    vstd::arithmetic::div_mod::lemma_fundamental_div_mod_converse(
        pow256(s.len()) as int,
        65536,
        pow256((n - 2) as nat) as int,
        0,
    );
    lemma_pow256_positive((n - 2) as nat);
    assert(pow256((n - 2) as nat) * 65536 >= 65536) by (nonlinear_arith)
        requires
            pow256((n - 2) as nat) >= 1,
    ;
}

/// A power of 256 is at least 1.
pub proof fn lemma_pow256_positive(n: nat)
    ensures
        pow256(n) >= 1,
    decreases n,
{
    if n > 0 {
        lemma_pow256_positive((n - 1) as nat);
    }
}

/// Adds `k` to `nonce`, read as a 192-bit number with the most significant
/// byte first. The sum wraps round at 2 to the power 192.
pub fn increment_nonce(nonce: &mut Nonce, k: u64)
    ensures
        be_value(final(nonce)@) == (be_value(old(nonce)@) + k) % (pow256(NONCEBYTES as nat) as int),
{
    let mut i: usize = NONCEBYTES;
    let mut acc: u128 = k as u128;
    proof {
        assert(nonce@.subrange(24, 24) =~= Seq::<u8>::empty());
        assert(be_value(Seq::<u8>::empty()) == 0);
        assert(pow256(0) == 1);
        assert(acc * pow256(0) == k) by (nonlinear_arith)
            requires
                acc == k,
                pow256(0) == 1,
        ;
    }
    while i > 0
        invariant
            i <= NONCEBYTES,
            acc <= u64::MAX,
            nonce@.len() == NONCEBYTES,
            old(nonce)@.len() == NONCEBYTES,
            nonce@.subrange(0, i as int) == old(nonce)@.subrange(0, i as int),
            be_value(old(nonce)@.subrange(i as int, 24)) + k == acc * pow256((24 - i) as nat)
                + be_value(nonce@.subrange(i as int, 24)),
        decreases i,
    {
        let ghost before = nonce@;
        let ghost acc_before = acc;
        i -= 1;
        let t: u128 = nonce.0[i] as u128 + acc;
        nonce.0[i] = (t % 256) as u8;
        acc = t / 256;
        proof {
            let p = pow256((23 - i) as nat);
            let lo_old = old(nonce)@.subrange(i as int, 24);
            let lo_new = nonce@.subrange(i as int, 24);
            assert(lo_old.drop_first() =~= old(nonce)@.subrange(i + 1, 24));
            assert(lo_new.drop_first() =~= before.subrange(i + 1, 24));
            assert(before[i as int] == old(nonce)@.subrange(0, i + 1)[i as int]);
            assert(lo_old[0] == before[i as int]);
            assert(lo_new[0] == (t % 256) as u8);
            assert(nonce@.subrange(0, i as int) =~= before.subrange(0, i + 1).subrange(0, i as int));
            assert(old(nonce)@.subrange(0, i as int) =~= old(nonce)@.subrange(0, i + 1).subrange(
                0,
                i as int,
            ));
            assert((acc * 256 + t % 256) * p == acc * (256 * p) + (t % 256) * p)
                by (nonlinear_arith);
            assert((before[i as int] as nat + acc_before) * p == before[i as int] as nat * p
                + acc_before * p) by (nonlinear_arith);
        }
    }
    proof {
        assert(nonce@.subrange(0, 24) =~= nonce@);
        assert(old(nonce)@.subrange(0, 24) =~= old(nonce)@);
        lemma_be_value_bound(nonce@);
        let m = pow256(24) as int;
        let x = be_value(nonce@) as int;
        vstd::arithmetic::div_mod::lemma_fundamental_div_mod_converse(
            be_value(old(nonce)@) + k,
            m,
            acc as int,
            x,
        );
    }
}

/// Takes `k` from `nonce`, read as a 192-bit number with the most
/// significant byte first. The difference wraps round at zero.
pub fn decrement_nonce(nonce: &mut Nonce, k: u64)
    ensures
        be_value(final(nonce)@) == (be_value(old(nonce)@) - k) % (pow256(NONCEBYTES as nat) as int),
{
    let mut i: usize = NONCEBYTES;
    let mut acc: u128 = k as u128;
    proof {
        assert(nonce@.subrange(24, 24) =~= Seq::<u8>::empty());
        assert(be_value(Seq::<u8>::empty()) == 0);
        assert(pow256(0) == 1);
        assert(acc * pow256(0) == k) by (nonlinear_arith)
            requires
                acc == k,
                pow256(0) == 1,
        ;
    }
    while i > 0
        invariant
            i <= NONCEBYTES,
            acc <= u64::MAX,
            nonce@.len() == NONCEBYTES,
            old(nonce)@.len() == NONCEBYTES,
            nonce@.subrange(0, i as int) == old(nonce)@.subrange(0, i as int),
            be_value(old(nonce)@.subrange(i as int, 24)) - k == be_value(
                nonce@.subrange(i as int, 24),
            ) - acc * pow256((24 - i) as nat),
        decreases i,
    {
        let ghost before = nonce@;
        let ghost acc_before = acc;
        i -= 1;
        let cur: u128 = nonce.0[i] as u128;
        let sub: u128 = acc % 256;
        let rest: u128 = acc / 256;
        let byte: u128 = if cur >= sub { cur - sub } else { cur + 256 - sub };
        acc = if cur >= sub { rest } else { rest + 1 };
        nonce.0[i] = byte as u8;
        proof {
            let p = pow256((23 - i) as nat);
            let lo_old = old(nonce)@.subrange(i as int, 24);
            let lo_new = nonce@.subrange(i as int, 24);
            assert(lo_old.drop_first() =~= old(nonce)@.subrange(i + 1, 24));
            assert(lo_new.drop_first() =~= before.subrange(i + 1, 24));
            assert(before[i as int] == old(nonce)@.subrange(0, i + 1)[i as int]);
            assert(lo_old[0] == before[i as int]);
            assert(lo_new[0] == byte as u8);
            assert(nonce@.subrange(0, i as int) =~= before.subrange(0, i + 1).subrange(0, i as int));
            assert(old(nonce)@.subrange(0, i as int) =~= old(nonce)@.subrange(0, i + 1).subrange(
                0,
                i as int,
            ));
            assert(acc_before == 256 * rest + sub);
            assert(byte - 256 * acc == cur - acc_before);
            assert(byte * p - acc * (256 * p) == cur * p - acc_before * p) by (nonlinear_arith)
                requires
                    byte - 256 * acc == cur - acc_before,
            ;
        }
    }
    proof {
        assert(nonce@.subrange(0, 24) =~= nonce@);
        assert(old(nonce)@.subrange(0, 24) =~= old(nonce)@);
        lemma_be_value_bound(nonce@);
        let m = pow256(24) as int;
        let x = be_value(nonce@) as int;
        assert((-(acc as int)) * m == -(acc * m)) by (nonlinear_arith);
        vstd::arithmetic::div_mod::lemma_fundamental_div_mod_converse(
            be_value(old(nonce)@) - k,
            m,
            -(acc as int),
            x,
        );
    }
}

/// A random 64-bit number.
pub fn random_u64() -> u64 {
    let bytes = random_bytes();
    le_u64(bytes.as_slice(), 0)
}

} // verus!
