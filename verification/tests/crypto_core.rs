use tox_net_crypto::cookie::EncryptedCookie;
use tox_net_crypto::crypto_core::{
    decrement_nonce, gen_keypair, gen_nonce, hash256, hash512, increment_nonce, open, precompute,
    random_u64, seal, Digest, Nonce, PublicKey, MACBYTES, NONCEBYTES,
};
use tox_net_crypto::error::Error;
use tox_net_crypto::secretbox;

fn nonce_from(low: &[u8]) -> Nonce {
    let mut bytes = [0u8; NONCEBYTES];
    bytes[NONCEBYTES - low.len()..].copy_from_slice(low);
    Nonce(bytes)
}

#[test]
fn increment_nonce_adds_to_the_last_byte() {
    let mut nonce = nonce_from(&[41]);
    increment_nonce(&mut nonce, 1);
    assert_eq!(nonce, nonce_from(&[42]));
    increment_nonce(&mut nonce, 0);
    assert_eq!(nonce, nonce_from(&[42]));
}

#[test]
fn increment_nonce_carries_into_higher_bytes() {
    let mut nonce = nonce_from(&[0xff]);
    increment_nonce(&mut nonce, 1);
    assert_eq!(nonce, nonce_from(&[0x01, 0x00]));

    let mut nonce = nonce_from(&[0xff, 0xff, 0xff]);
    increment_nonce(&mut nonce, 2);
    assert_eq!(nonce, nonce_from(&[0x01, 0x00, 0x00, 0x01]));

    let mut nonce = nonce_from(&[0x12, 0x34]);
    increment_nonce(&mut nonce, 0x0102_0304_0506_0708);
    assert_eq!(nonce, nonce_from(&[0x01, 0x02, 0x03, 0x04, 0x05, 0x06, 0x19, 0x3c]));
}

#[test]
fn increment_nonce_by_the_largest_number() {
    let mut nonce = nonce_from(&[1]);
    increment_nonce(&mut nonce, u64::MAX);
    assert_eq!(nonce, nonce_from(&[1, 0, 0, 0, 0, 0, 0, 0, 0]));
}

#[test]
fn increment_nonce_wraps_round() {
    let mut nonce = Nonce([0xff; NONCEBYTES]);
    increment_nonce(&mut nonce, 1);
    assert_eq!(nonce, Nonce([0; NONCEBYTES]));
    let mut nonce = Nonce([0xff; NONCEBYTES]);
    increment_nonce(&mut nonce, 0x100);
    assert_eq!(nonce, nonce_from(&[0xff]));
}

#[test]
fn increment_nonce_is_big_endian() {
    let mut nonce = Nonce([0; NONCEBYTES]);
    increment_nonce(&mut nonce, 0x0102);
    assert_eq!(nonce.0[NONCEBYTES - 1], 0x02);
    assert_eq!(nonce.0[NONCEBYTES - 2], 0x01);
    assert_eq!(nonce.0[0], 0);
}

#[test]
fn decrement_nonce_takes_from_the_last_byte() {
    let mut nonce = nonce_from(&[42]);
    decrement_nonce(&mut nonce, 2);
    assert_eq!(nonce, nonce_from(&[40]));
}

#[test]
fn decrement_nonce_borrows_from_higher_bytes() {
    let mut nonce = nonce_from(&[0x01, 0x00, 0x00]);
    decrement_nonce(&mut nonce, 1);
    assert_eq!(nonce, nonce_from(&[0xff, 0xff]));
    let mut nonce = nonce_from(&[0x01, 0x02, 0x03, 0x04, 0x05, 0x06, 0x19, 0x3c]);
    decrement_nonce(&mut nonce, 0x0102_0304_0506_0708);
    assert_eq!(nonce, nonce_from(&[0x12, 0x34]));
}

#[test]
fn decrement_nonce_wraps_round() {
    let mut nonce = Nonce([0; NONCEBYTES]);
    decrement_nonce(&mut nonce, 1);
    assert_eq!(nonce, Nonce([0xff; NONCEBYTES]));
}

#[test]
fn decrement_undoes_increment() {
    for &k in [0u64, 1, 255, 256, 65535, 1 << 40, u64::MAX].iter() {
        let start = gen_nonce();
        let mut nonce = start;
        increment_nonce(&mut nonce, k);
        decrement_nonce(&mut nonce, k);
        assert_eq!(nonce, start);
    }
}

#[test]
fn random_values_differ() {
    let (pk1, sk1) = gen_keypair();
    let (pk2, sk2) = gen_keypair();
    assert_ne!(pk1, pk2);
    assert_ne!(sk1, sk2);
    assert_ne!(gen_nonce(), gen_nonce());
    assert_ne!(secretbox::gen_nonce(), secretbox::gen_nonce());
    assert_ne!(secretbox::gen_key(), secretbox::gen_key());
    let samples: Vec<u64> = (0..4).map(|_| random_u64()).collect();
    assert!(samples.iter().any(|&x| x != samples[0]));
}

#[test]
fn precompute_gives_both_sides_the_same_key() {
    let (pk_a, sk_a) = gen_keypair();
    let (pk_b, sk_b) = gen_keypair();
    let key_a = precompute(&pk_b, &sk_a);
    let key_b = precompute(&pk_a, &sk_b);
    assert_eq!(key_a, key_b);
    assert_eq!(key_a, precompute(&pk_b, &sk_a));
    assert_ne!(key_a.0, pk_b.0);
    assert_ne!(key_a.0, sk_a.0);
    let (pk_c, _sk_c) = gen_keypair();
    assert_ne!(precompute(&pk_c, &sk_a), key_a);
}

#[test]
fn key_equality_by_bytes() {
    let a = PublicKey([1; 32]);
    let mut other = [1; 32];
    assert!(a.same_as(&PublicKey(other)));
    other[31] = 2;
    assert!(!a.same_as(&PublicKey(other)));
    let d = Digest([3; 64]);
    assert!(d.same_as(&Digest([3; 64])));
    assert!(!d.same_as(&Digest([4; 64])));
}

#[test]
fn cookie_hash_is_sha512_of_its_bytes() {
    // the 448-bit message of the SHA-512 test vectors
    let message = b"abcdbcdecdefdefgefghfghighijhijkijkljklmklmnlmnomnopnopq";
    let mut nonce = [0u8; 24];
    nonce.copy_from_slice(&message[..24]);
    let cookie = EncryptedCookie { nonce: secretbox::Nonce(nonce), payload: message[24..].to_vec() };
    let expected: [u8; 64] = [
        0x20, 0x4a, 0x8f, 0xc6, 0xdd, 0xa8, 0x2f, 0x0a, 0x0c, 0xed, 0x7b, 0xeb, 0x8e, 0x08, 0xa4,
        0x16, 0x57, 0xc1, 0x6e, 0xf4, 0x68, 0xb2, 0x28, 0xa8, 0x27, 0x9b, 0xe3, 0x31, 0xa7, 0x03,
        0xc3, 0x35, 0x96, 0xfd, 0x15, 0xc1, 0x3b, 0x1b, 0x07, 0xf9, 0xaa, 0x1d, 0x3b, 0xea, 0x57,
        0x78, 0x9c, 0xa0, 0x31, 0xad, 0x85, 0xc7, 0xa7, 0x1d, 0xd7, 0x03, 0x54, 0xec, 0x63, 0x12,
        0x38, 0xca, 0x34, 0x45,
    ];
    assert_eq!(cookie.hash(), Digest(expected));
}

fn from_hex(hex: &str) -> Vec<u8> {
    (0..hex.len() / 2).map(|i| u8::from_str_radix(&hex[2 * i..2 * i + 2], 16).unwrap()).collect()
}

#[test]
fn hash256_is_sha256() {
    assert_eq!(
        hash256(b"abc").0.to_vec(),
        from_hex("ba7816bf8f01cfea414140de5dae2223b00361a396177a9cb410ff61f20015ad")
    );
    assert_eq!(
        hash256(b"").0.to_vec(),
        from_hex("e3b0c44298fc1c149afbf4c8996fb92427ae41e4649b934ca495991b7852b855")
    );
}

#[test]
fn hash512_is_sha512() {
    assert_eq!(
        hash512(b"abc").0.to_vec(),
        from_hex(
            "ddaf35a193617abacc417349ae20413112e6fa4e89a97ea20a9eeee64b55d39a\
             2192992a274fc1a836ba3c23a3feebbd454d4423643ce80e2a9ac94fa54ca49f"
        )
    );
}

#[test]
fn sealed_message_opens_under_the_shared_key() {
    let (alice_pk, alice_sk) = gen_keypair();
    let (bob_pk, bob_sk) = gen_keypair();
    let nonce = gen_nonce();
    let sealed = seal(&precompute(&bob_pk, &alice_sk), &nonce, b"attack at dawn");
    assert_eq!(sealed.len(), 14 + MACBYTES);
    assert_ne!(&sealed[MACBYTES..], b"attack at dawn");
    assert_eq!(
        seal(&precompute(&bob_pk, &alice_sk), &nonce, b"attack at dawn"),
        sealed
    );
    let key = precompute(&alice_pk, &bob_sk);
    assert_eq!(open(&key, &nonce, &sealed), Ok(b"attack at dawn".to_vec()));

    // the empty message is sealed as well
    let empty = seal(&key, &nonce, b"");
    assert_eq!(empty.len(), MACBYTES);
    assert_eq!(open(&key, &nonce, &empty), Ok(Vec::new()));
}

#[test]
fn open_fails_with_decrypt() {
    let (alice_pk, alice_sk) = gen_keypair();
    let (bob_pk, bob_sk) = gen_keypair();
    let (eve_pk, _) = gen_keypair();
    let nonce = nonce_from(&[7]);
    let key = precompute(&bob_pk, &alice_sk);
    let sealed = seal(&key, &nonce, b"attack at dawn");

    let mut forged = sealed.clone();
    forged[20] ^= 0x80;
    assert_eq!(open(&key, &nonce, &forged), Err(Error::Decrypt));
    assert_eq!(open(&key, &nonce_from(&[8]), &sealed), Err(Error::Decrypt));
    assert_eq!(open(&precompute(&eve_pk, &bob_sk), &nonce, &sealed), Err(Error::Decrypt));
    let short = &sealed[..MACBYTES - 1];
    assert_eq!(open(&precompute(&alice_pk, &bob_sk), &nonce, short), Err(Error::Decrypt));
    assert_eq!(open(&key, &nonce, &[]), Err(Error::Decrypt));
}

#[test]
fn secret_box_seals_and_opens() {
    let key = secretbox::gen_key();
    let nonce = secretbox::gen_nonce();
    let sealed = secretbox::seal(b"cookie", &nonce, &key);
    assert_eq!(sealed.len(), 6 + secretbox::MACBYTES);
    assert_eq!(secretbox::seal(b"cookie", &nonce, &key), sealed);
    assert_eq!(secretbox::open(&sealed, &nonce, &key), Ok(b"cookie".to_vec()));

    let mut forged = sealed.clone();
    forged[0] ^= 1;
    assert_eq!(secretbox::open(&forged, &nonce, &key), Err(Error::Decrypt));
    assert_eq!(secretbox::open(&sealed, &nonce, &secretbox::gen_key()), Err(Error::Decrypt));
    assert_eq!(secretbox::open(&sealed[..10], &nonce, &key), Err(Error::Decrypt));
}
