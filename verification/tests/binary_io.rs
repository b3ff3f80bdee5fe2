use tox_net_crypto::binary_io::{
    append, bytes_eq, gen_error, gen_len_limit, gen_slice, le_u16, le_u32, le_u64, take_array,
    to_vec, u16_from_be_bytes, u16_to_be_bytes, u16_to_le_bytes, u32_to_le_bytes, u64_to_le_bytes,
    FromBytes, GenError, ParseError, ToBytes,
};
use tox_net_crypto::crypto_core::{
    Digest, Digest256, Nonce, PublicKey, SecretKey, DIGEST256BYTES, DIGESTBYTES, NONCEBYTES,
    PUBLICKEYBYTES, SECRETKEYBYTES,
};
use tox_net_crypto::ip_addr::{IpAddr, Ipv4Addr, Ipv6Addr};
use tox_net_crypto::secretbox;

#[test]
fn public_key_parse_bytes_test() {
    let bytes = [42; PUBLICKEYBYTES];
    let (_rest, PublicKey(pk_bytes)) = PublicKey::from_bytes(&bytes).unwrap();

    assert_eq!(pk_bytes, &bytes as &[u8]);
}

#[test]
fn secret_key_parse_bytes_test() {
    let bytes = [42; SECRETKEYBYTES];
    let (_rest, SecretKey(sk_bytes)) = SecretKey::from_bytes(&bytes).unwrap();

    assert_eq!(sk_bytes, &bytes as &[u8]);
}

#[test]
fn nonce_parse_bytes_test() {
    let bytes = [42; NONCEBYTES];
    let (_rest, Nonce(nonce_bytes)) = Nonce::from_bytes(&bytes).unwrap();

    assert_eq!(nonce_bytes, &bytes as &[u8]);
}

#[test]
fn secretbox_nonce_parse_bytes_test() {
    let bytes = [7; secretbox::NONCEBYTES + 3];
    let (rest, secretbox::Nonce(nonce_bytes)) = secretbox::Nonce::from_bytes(&bytes).unwrap();

    assert_eq!(nonce_bytes, [7; secretbox::NONCEBYTES]);
    assert_eq!(rest, &[7u8, 7, 7]);
}

#[test]
fn digest_parse_bytes_test() {
    let mut bytes = vec![0u8; DIGESTBYTES];
    for (i, b) in bytes.iter_mut().enumerate() {
        *b = i as u8;
    }
    let (rest, Digest(digest_bytes)) = Digest::from_bytes(&bytes).unwrap();

    assert_eq!(&digest_bytes[..], &bytes[..]);
    assert!(rest.is_empty());
}

#[test]
fn key_parse_short_input_is_incomplete() {
    let bytes = [42; PUBLICKEYBYTES - 1];
    assert_eq!(PublicKey::from_bytes(&bytes).unwrap_err(), ParseError::Incomplete(1));
    assert_eq!(Nonce::from_bytes(&[]).unwrap_err(), ParseError::Incomplete(NONCEBYTES));
    assert_eq!(SecretKey::from_bytes(&bytes[..2]).unwrap_err(), ParseError::Incomplete(30));
    assert_eq!(Digest::from_bytes(&bytes).unwrap_err(), ParseError::Incomplete(33));
}

#[test]
fn key_parse_returns_rest() {
    let mut bytes = vec![1u8; PUBLICKEYBYTES];
    bytes.extend_from_slice(&[9, 8, 7]);
    let (rest, pk) = PublicKey::from_bytes(&bytes).unwrap();
    assert_eq!(pk, PublicKey([1; PUBLICKEYBYTES]));
    assert_eq!(rest, &[9u8, 8, 7]);
}

#[test]
fn gen_len_limit_passes_position_within_limit() {
    assert_eq!(gen_len_limit(0, 0), Ok(0));
    assert_eq!(gen_len_limit(5, 10), Ok(5));
    assert_eq!(gen_len_limit(10, 10), Ok(10));
}

#[test]
fn gen_len_limit_refuses_position_over_limit() {
    assert_eq!(gen_len_limit(11, 10), Err(GenError::BufferTooSmall(11)));
    assert_eq!(gen_len_limit(1, 0), Err(GenError::BufferTooSmall(1)));
}

#[test]
fn gen_error_gives_custom_error() {
    assert_eq!(gen_error(3, 42), Err(GenError::CustomError(42)));
    assert_eq!(gen_error(0, 0), Err(GenError::CustomError(0)));
}

#[test]
fn gen_slice_writes_at_position() {
    let mut buf = [0u8; 6];
    assert_eq!(gen_slice(&mut buf, 2, &[1, 2, 3]), Ok(5));
    assert_eq!(buf, [0, 0, 1, 2, 3, 0]);
    assert_eq!(gen_slice(&mut buf, 5, &[9]), Ok(6));
    assert_eq!(buf, [0, 0, 1, 2, 3, 9]);
    assert_eq!(gen_slice(&mut buf, 6, &[]), Ok(6));
}

#[test]
fn gen_slice_writes_nothing_when_too_small() {
    let mut buf = [7u8; 4];
    assert_eq!(gen_slice(&mut buf, 2, &[1, 2, 3]), Err(GenError::BufferTooSmall(1)));
    assert_eq!(buf, [7; 4]);
    assert_eq!(gen_slice(&mut buf, 4, &[1, 2]), Err(GenError::BufferTooSmall(2)));
    assert_eq!(gen_slice(&mut buf, 9, &[1, 2]), Err(GenError::BufferTooSmall(2)));
    assert_eq!(gen_slice(&mut buf, 5, &[]), Err(GenError::BufferTooSmall(0)));
    assert_eq!(buf, [7; 4]);
}

#[test]
fn byte_helpers() {
    let mut out = vec![1u8];
    append(&mut out, &[2, 3]);
    assert_eq!(out, vec![1, 2, 3]);
    assert_eq!(to_vec(&[4, 5]), vec![4, 5]);
    assert!(bytes_eq(&[1, 2], &[1, 2]));
    assert!(!bytes_eq(&[1, 2], &[1, 3]));
    assert!(!bytes_eq(&[1, 2], &[1, 2, 3]));
    let a: [u8; 3] = take_array(&[9, 8, 7, 6, 5], 1);
    assert_eq!(a, [8, 7, 6]);
}

#[test]
fn integer_encodings() {
    assert_eq!(u16_to_be_bytes(0x1234), [0x12, 0x34]);
    assert_eq!(u16_from_be_bytes(&[0, 0x12, 0x34], 1), 0x1234);
    assert_eq!(le_u16(&[0x34, 0x12], 0), 0x1234);
    assert_eq!(le_u32(&[0, 0x78, 0x56, 0x34, 0x12], 1), 0x12345678);
    assert_eq!(le_u64(&[1, 2, 3, 4, 5, 6, 7, 8], 0), 0x0807060504030201);
}

#[test]
fn ipv4_addr_to_bytes() {
    let addr = Ipv4Addr::new(10, 11, 12, 13);
    let mut buf = [0u8; 6];
    assert_eq!(addr.to_bytes(&mut buf, 1), Ok(5));
    assert_eq!(buf, [0, 10, 11, 12, 13, 0]);
    assert_eq!(addr.to_bytes(&mut buf, 3), Err(GenError::BufferTooSmall(1)));
    assert_eq!(buf, [0, 10, 11, 12, 13, 0]);
}

#[test]
fn ipv4_addr_from_bytes() {
    let (rest, addr) = Ipv4Addr::from_bytes(&[1, 2, 3, 4, 5]).unwrap();
    assert_eq!(addr.octets(), [1, 2, 3, 4]);
    assert_eq!(rest, &[5u8]);
    assert_eq!(Ipv4Addr::from_bytes(&[1, 2, 3]).unwrap_err(), ParseError::Incomplete(1));
}

#[test]
fn ipv6_addr_to_bytes_is_little_endian_per_segment() {
    let addr = Ipv6Addr::new(0x0102, 0x0304, 10, 11, 12, 13, 14, 15);
    let mut buf = [0u8; 16];
    assert_eq!(addr.to_bytes(&mut buf, 0), Ok(16));
    assert_eq!(buf, [2, 1, 4, 3, 10, 0, 11, 0, 12, 0, 13, 0, 14, 0, 15, 0]);
    let mut small = [0u8; 15];
    assert_eq!(addr.to_bytes(&mut small, 0), Err(GenError::BufferTooSmall(1)));
    assert_eq!(small, [0u8; 15]);
}

#[test]
fn ipv6_addr_from_bytes_round_trip() {
    let bytes: Vec<u8> = (0u8..20).collect();
    let (rest, addr) = Ipv6Addr::from_bytes(&bytes).unwrap();
    assert_eq!(addr.segments(), [0x0100, 0x0302, 0x0504, 0x0706, 0x0908, 0x0b0a, 0x0d0c, 0x0f0e]);
    assert_eq!(rest, &[16u8, 17, 18, 19]);
    let mut buf = [0u8; 16];
    assert_eq!(IpAddr::V6(addr).to_bytes(&mut buf, 0), Ok(16));
    assert_eq!(&buf[..], &bytes[..16]);
    assert_eq!(Ipv6Addr::from_bytes(&bytes[..15]).unwrap_err(), ParseError::Incomplete(1));
}

#[test]
fn ip_addr_to_bytes_follows_version() {
    let mut buf = [0u8; 16];
    assert_eq!(IpAddr::V4(Ipv4Addr::new(1, 2, 3, 4)).to_bytes(&mut buf, 0), Ok(4));
    assert_eq!(&buf[..4], &[1, 2, 3, 4]);
    assert_eq!(IpAddr::V6(Ipv6Addr::new(1, 0, 0, 0, 0, 0, 0, 0)).to_bytes(&mut buf, 0), Ok(16));
    assert_eq!(&buf[..2], &[1, 0]);
}

#[test]
fn little_endian_numbers_have_their_low_byte_first() {
    assert_eq!(u16_to_le_bytes(0x1234), vec![0x34, 0x12]);
    assert_eq!(u16_to_le_bytes(0), vec![0, 0]);
    assert_eq!(u16_to_le_bytes(u16::MAX), vec![0xff, 0xff]);
    assert_eq!(u32_to_le_bytes(0x1234_5678), vec![0x78, 0x56, 0x34, 0x12]);
    assert_eq!(u32_to_le_bytes(1), vec![1, 0, 0, 0]);
    assert_eq!(u32_to_le_bytes(u32::MAX), vec![0xff; 4]);
    assert_eq!(
        u64_to_le_bytes(0x0102_0304_0506_0708),
        vec![0x08, 0x07, 0x06, 0x05, 0x04, 0x03, 0x02, 0x01]
    );
    assert_eq!(u64_to_le_bytes(u64::MAX), vec![0xff; 8]);
    assert_eq!(u64_to_le_bytes(1 << 56), vec![0, 0, 0, 0, 0, 0, 0, 1]);
}

#[test]
fn little_endian_numbers_are_read_from_any_place() {
    let bytes = [0xaa, 0x08, 0x07, 0x06, 0x05, 0x04, 0x03, 0x02, 0x01, 0xbb];
    assert_eq!(le_u16(&bytes, 1), 0x0708);
    assert_eq!(le_u16(&bytes, 8), 0xbb01);
    assert_eq!(le_u32(&bytes, 1), 0x0506_0708);
    assert_eq!(le_u32(&bytes, 5), 0x0102_0304);
    assert_eq!(le_u64(&bytes, 1), 0x0102_0304_0506_0708);
    assert_eq!(le_u64(&[0xff; 8], 0), u64::MAX);
    for x in [0u64, 1, 255, 256, 0xdead_beef, u64::MAX - 1] {
        assert_eq!(le_u64(&u64_to_le_bytes(x), 0), x);
        assert_eq!(u64_to_le_bytes(x), x.to_le_bytes().to_vec());
    }
    for x in [0u32, 255, 256, 0xdead_beef] {
        assert_eq!(le_u32(&u32_to_le_bytes(x), 0), x);
        assert_eq!(u32_to_le_bytes(x), x.to_le_bytes().to_vec());
    }
    for x in [0u16, 255, 256, 0xbeef] {
        assert_eq!(le_u16(&u16_to_le_bytes(x), 0), x);
        assert_eq!(u16_to_le_bytes(x), x.to_le_bytes().to_vec());
    }
}

#[test]
fn short_digest_parse_bytes_test() {
    let bytes = [42; DIGEST256BYTES + 2];
    let (rest, Digest256(digest)) = Digest256::from_bytes(&bytes).unwrap();
    assert_eq!(digest, [42; DIGEST256BYTES]);
    assert_eq!(rest, &[42, 42]);
    assert_eq!(
        Digest256::from_bytes(&bytes[..DIGEST256BYTES - 3]),
        Err(ParseError::Incomplete(3))
    );
}
