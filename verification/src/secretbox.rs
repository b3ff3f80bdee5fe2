//! Keys and nonces of the secret-key authenticated box.

use vstd::prelude::*;
use crate::error::Error;

verus! {

/// Number of bytes in a [`Key`].
pub const KEYBYTES: usize = 32;

/// Number of bytes in a [`Nonce`].
pub const NONCEBYTES: usize = 24;

/// Number of bytes by which a sealed message is longer than the message.
pub const MACBYTES: usize = 16;

/// Key of the secret-key box.
#[derive(Clone, Copy, Debug, PartialEq, Eq)]
pub struct Key(pub [u8; KEYBYTES]);

/// Nonce of the secret-key box.
#[derive(Clone, Copy, Debug, PartialEq, Eq)]
pub struct Nonce(pub [u8; NONCEBYTES]);

impl View for Key {
    type V = Seq<u8>;

    open spec fn view(&self) -> Seq<u8> {
        self.0@
    }
}

impl View for Nonce {
    type V = Seq<u8>;

    open spec fn view(&self) -> Seq<u8> {
        self.0@
    }
}

/// What `sodiumoxide::crypto::secretbox::seal` returns for a message, a nonce and a key.
pub uninterp spec fn spec_seal(plain: Seq<u8>, nonce: Seq<u8>, key: Seq<u8>) -> Seq<u8>;

/// What `sodiumoxide::crypto::secretbox::open` returns for a ciphertext, a
/// nonce and a key: the message, or nothing where authentication fails.
pub uninterp spec fn spec_open(cipher: Seq<u8>, nonce: Seq<u8>, key: Seq<u8>) -> Option<Seq<u8>>;

/// A fresh random key, from `sodiumoxide::crypto::secretbox::gen_key`.
/// Nothing is claimed of its value.
#[verifier::external_body]
pub fn gen_key() -> Key {
    Key(sodiumoxide::crypto::secretbox::gen_key().0)
}

/// A fresh random nonce, from `sodiumoxide::crypto::secretbox::gen_nonce`.
/// Nothing is claimed of its value.
#[verifier::external_body]
pub fn gen_nonce() -> Nonce {
    Nonce(sodiumoxide::crypto::secretbox::gen_nonce().0)
}

/// Seals `plain` with `sodiumoxide::crypto::secretbox::seal`. The result is a
/// function of the three arguments, and it is longer than the message by the
/// authentication tag.
#[verifier::external_body]
pub fn seal(plain: &[u8], nonce: &Nonce, key: &Key) -> (cipher: Vec<u8>)
    requires
        plain@.len() + MACBYTES <= usize::MAX,
    ensures
        cipher@ == spec_seal(plain@, nonce@, key@),
        cipher@.len() == plain@.len() + MACBYTES,
{
    sodiumoxide::crypto::secretbox::seal(
        plain,
        &sodiumoxide::crypto::secretbox::Nonce(nonce.0),
        &sodiumoxide::crypto::secretbox::Key(key.0),
    )
}

/// Opens `cipher` with `sodiumoxide::crypto::secretbox::open`. The result is
/// a function of the three arguments; a ciphertext shorter than the
/// authentication tag is refused, and a message that comes out is shorter
/// than the ciphertext by the tag.
#[verifier::external_body]
fn open_sealed(cipher: &[u8], nonce: &Nonce, key: &Key) -> (plain: Option<Vec<u8>>)
    ensures
        plain matches Some(m) ==> spec_open(cipher@, nonce@, key@) == Some(m@) && m@.len()
            + MACBYTES == cipher@.len(),
        plain is None ==> spec_open(cipher@, nonce@, key@) is None,
        cipher@.len() < MACBYTES ==> plain is None,
{
    sodiumoxide::crypto::secretbox::open(
        cipher,
        &sodiumoxide::crypto::secretbox::Nonce(nonce.0),
        &sodiumoxide::crypto::secretbox::Key(key.0),
    ).ok()
}

/// Opens `cipher` under `key` with the nonce `nonce`.
///
/// Fails with `Decrypt` where the ciphertext does not pass authentication;
/// one that is shorter than the authentication tag never does.
pub fn open(cipher: &[u8], nonce: &Nonce, key: &Key) -> (res: Result<Vec<u8>, Error>)
    ensures
        match res {
            Ok(plain) => spec_open(cipher@, nonce@, key@) == Some(plain@) && plain@.len()
                + MACBYTES == cipher@.len(),
            Err(e) => e == Error::Decrypt && spec_open(cipher@, nonce@, key@) is None,
        },
        cipher@.len() < MACBYTES ==> res is Err,
{
    match open_sealed(cipher, nonce, key) {
        Some(plain) => Ok(plain),
        None => Err(Error::Decrypt),
    }
}

} // verus!
