use tox_net_crypto::crypto_connection::{
    ConnectionStatus, CryptoConnection, RecvPacket, SentPacket, INITIAL_SEND_WINDOW,
};
use tox_net_crypto::crypto_core::{gen_keypair, increment_nonce, precompute, Nonce};
use tox_net_crypto::crypto_data::{CryptoData, CryptoDataPayload, MAX_CRYPTO_DATA_SIZE};
use tox_net_crypto::data_channel::{make_data_packet, DataKind};
use tox_net_crypto::error::Error;
use tox_net_crypto::pacing::rate_limit;
use tox_net_crypto::packets_array::PacketsArray;
use tox_net_crypto::request::{generate_request, request_offsets, REQUEST_TAG};
use tox_net_crypto::time::{Duration, Instant};

fn at_millis(millis: u64) -> Instant {
    Instant::from_nanos(10_000_000_000 + millis * 1_000_000)
}

fn fresh(now: Instant) -> CryptoConnection {
    let (dht_pk, dht_sk) = gen_keypair();
    let (real_pk, _) = gen_keypair();
    let (peer_dht_pk, _) = gen_keypair();
    let (peer_real_pk, _) = gen_keypair();
    CryptoConnection::new(&dht_sk, dht_pk, real_pk, peer_real_pk, peer_dht_pk, now)
}

/// Two established connections that talk to each other.
fn pair(now: Instant) -> (CryptoConnection, CryptoConnection) {
    let mut a = fresh(now);
    let mut b = fresh(now);
    let a_nonce = Nonce([0x11; 24]);
    let mut b_nonce = Nonce([0x22; 24]);
    // the first packets of b cross the point where the last two bytes wrap round
    b_nonce.0[22] = 0xff;
    b_nonce.0[23] = 0xfe;
    a.status = ConnectionStatus::Established {
        sent_nonce: a_nonce,
        received_nonce: b_nonce,
        peer_session_pk: b.session_pk,
        session_precomputed_key: precompute(&b.session_pk, &a.session_sk),
    };
    b.status = ConnectionStatus::Established {
        sent_nonce: b_nonce,
        received_nonce: a_nonce,
        peer_session_pk: a.session_pk,
        session_precomputed_key: precompute(&a.session_pk, &b.session_sk),
    };
    (a, b)
}

fn drain(connection: &mut CryptoConnection) -> Vec<Vec<u8>> {
    let mut pieces = Vec::new();
    while let Some(piece) = connection.poll_recv() {
        pieces.push(piece);
    }
    pieces
}

fn sent_nonce(connection: &CryptoConnection) -> Nonce {
    connection.session().unwrap().sent_nonce
}

fn received_nonce(connection: &CryptoConnection) -> Nonce {
    connection.session().unwrap().received_nonce
}

#[test]
fn send_data_gives_pieces_the_next_numbers() {
    let now = at_millis(0);
    let (mut a, mut b) = pair(now);
    let m0 = a.send_data(b"first".to_vec(), now).unwrap();
    let m1 = a.send_data(b"second".to_vec(), at_millis(5)).unwrap();
    assert_eq!((a.send_array.buffer_start, a.send_array.buffer_end), (0, 2));
    assert_eq!(
        a.send_array.get(0),
        Some(&SentPacket { data: b"first".to_vec(), sent_time: now, requested: false })
    );
    assert_eq!(
        a.send_array.get(1),
        Some(&SentPacket { data: b"second".to_vec(), sent_time: at_millis(5), requested: false })
    );
    assert_eq!(a.packets_sent, 2);
    assert_eq!(a.last_sent_time, Some(at_millis(5)));

    // what is under the seal of the packets
    let key = a.session().unwrap().session_precomputed_key;
    let base = sent_nonce(&a);
    assert_eq!(
        m0.get_payload(&key, &base),
        Ok(CryptoDataPayload { buffer_start: 0, packet_number: 0, data: b"first".to_vec() })
    );
    let mut next = base;
    increment_nonce(&mut next, 1);
    assert_eq!(
        m1.get_payload(&key, &next),
        Ok(CryptoDataPayload { buffer_start: 0, packet_number: 1, data: b"second".to_vec() })
    );
    assert_eq!(m0.nonce_last_bytes, 0x1111);
    assert_eq!(m1.nonce_last_bytes, 0x1112);

    assert_eq!(b.handle_crypto_data(&m0, now), Ok(DataKind::Data));
    assert_eq!(b.handle_crypto_data(&m1, now), Ok(DataKind::Data));
    assert_eq!(drain(&mut b), vec![b"first".to_vec(), b"second".to_vec()]);
}

#[test]
fn send_data_before_established_fails() {
    let now = at_millis(0);
    let mut connection = fresh(now);
    let before = connection.clone();
    assert_eq!(connection.send_data(b"early".to_vec(), now), Err(Error::NotEstablished));
    assert_eq!(connection, before);
    assert!(!connection.is_established());
    assert_eq!(connection.session(), None);
}

#[test]
fn send_data_refuses_data_that_is_not_fit_to_be_sent() {
    let now = at_millis(0);
    let (mut a, _) = pair(now);
    let before = a.clone();
    assert_eq!(a.send_data(vec![], now), Err(Error::MalformedPacket));
    assert_eq!(a.send_data(vec![REQUEST_TAG, 1, 2], now), Err(Error::MalformedPacket));
    assert_eq!(a.send_data(vec![1; MAX_CRYPTO_DATA_SIZE + 1], now), Err(Error::MalformedPacket));
    assert_eq!(a, before);
    assert!(a.send_data(vec![1; MAX_CRYPTO_DATA_SIZE], now).is_ok());
    assert!(a.send_data(vec![1, 0, 0], now).is_ok());
}

#[test]
fn send_data_blocks_when_the_window_is_used_up() {
    let now = at_millis(0);
    let (mut a, _) = pair(now);
    assert_eq!(a.send_window, INITIAL_SEND_WINDOW);
    for i in 0..INITIAL_SEND_WINDOW {
        assert!(a.send_data(vec![1, i as u8], now).is_ok());
    }
    let before = a.clone();
    assert_eq!(a.send_data(vec![1, 99], now), Err(Error::WouldBlock));
    assert_eq!(a, before);
    assert_eq!(a.send_array.len(), INITIAL_SEND_WINDOW);
}

#[test]
fn acknowledgement_frees_the_send_array() {
    let (mut a, mut b) = pair(at_millis(0));
    let m0 = a.send_data(b"m0".to_vec(), at_millis(0)).unwrap();
    let m1 = a.send_data(b"m1".to_vec(), at_millis(100)).unwrap();
    let _m2 = a.send_data(b"m2".to_vec(), at_millis(150)).unwrap();
    b.handle_crypto_data(&m0, at_millis(200)).unwrap();
    b.handle_crypto_data(&m1, at_millis(200)).unwrap();
    assert_eq!(drain(&mut b).len(), 2);
    assert_eq!(b.recv_array.buffer_start, 2);

    // what b sends tells a that the first two pieces have arrived
    let nonce_before = sent_nonce(&a);
    let answer = b.send_data(b"answer".to_vec(), at_millis(250)).unwrap();
    assert_eq!(a.handle_crypto_data(&answer, at_millis(300)), Ok(DataKind::Data));
    assert_eq!((a.send_array.buffer_start, a.send_array.buffer_end), (2, 3));
    assert_eq!(a.send_array.sequence_numbers(), vec![2]);
    // the shortest time that a confirmed piece was on its way: 300 ms - 100 ms
    assert_eq!(a.rtt, Duration::from_millis(200));
    // the window allows two packets more
    assert_eq!(a.send_window, INITIAL_SEND_WINDOW + 2);
    // the nonce of the first packet of the window has moved along
    let mut moved = nonce_before;
    increment_nonce(&mut moved, 2);
    assert_eq!(sent_nonce(&a), moved);
    // and the peer still opens what comes next
    let m3 = a.send_data(b"m3".to_vec(), at_millis(310)).unwrap();
    assert_eq!(b.handle_crypto_data(&m3, at_millis(320)), Ok(DataKind::Data));
    assert_eq!(drain(&mut a), vec![b"answer".to_vec()]);
}

#[test]
fn round_trip_time_only_falls() {
    let (mut a, mut b) = pair(at_millis(0));
    let m0 = a.send_data(b"m0".to_vec(), at_millis(0)).unwrap();
    b.handle_crypto_data(&m0, at_millis(1)).unwrap();
    drain(&mut b);
    let answer = b.send_data(b"answer".to_vec(), at_millis(2)).unwrap();
    // the answer comes late; the round trip time stays at its start value
    a.handle_crypto_data(&answer, at_millis(5_000)).unwrap();
    assert_eq!(a.rtt, Duration::from_millis(1000));
}

#[test]
fn round_trip_time_over_a_relay_has_a_floor() {
    let (mut a, mut b) = pair(at_millis(0));
    a.tcp_relay = Some(1);
    let m0 = a.send_data(b"m0".to_vec(), at_millis(0)).unwrap();
    b.handle_crypto_data(&m0, at_millis(1)).unwrap();
    drain(&mut b);
    let answer = b.send_data(b"answer".to_vec(), at_millis(2)).unwrap();
    a.handle_crypto_data(&answer, at_millis(10)).unwrap();
    assert_eq!(a.rtt, Duration::from_millis(500));
}

#[test]
fn acknowledgement_of_what_was_never_sent_is_out_of_range() {
    let now = at_millis(0);
    let (mut a, _) = pair(now);
    a.send_data(b"m0".to_vec(), now).unwrap();
    let before = a.clone();
    assert_eq!(a.acknowledge(2, now), Err(Error::OutOfRange));
    assert_eq!(a.acknowledge(u32::MAX, now), Err(Error::OutOfRange));
    assert_eq!(a, before);
    assert_eq!(a.acknowledge(1, now), Ok(()));
    assert_eq!(a.send_array.len(), 0);

    let mut not_established = fresh(now);
    assert_eq!(not_established.acknowledge(0, now), Err(Error::NotEstablished));

    // the data of a packet that confirms too much is dropped
    let (mut a, _) = pair(now);
    let nonce = received_nonce(&a);
    let payload = CryptoDataPayload { buffer_start: 1, packet_number: 0, data: b"x".to_vec() };
    assert_eq!(a.handle_data_payload(payload, nonce, true, now), Err(Error::OutOfRange));
    assert_eq!(drain(&mut a), Vec::<Vec<u8>>::new());
}

#[test]
fn data_for_a_connection_without_session_is_refused() {
    let now = at_millis(0);
    let (mut a, _) = pair(now);
    let packet = a.send_data(b"m0".to_vec(), now).unwrap();
    let mut stranger = fresh(now);
    let before = stranger.clone();
    assert_eq!(stranger.handle_crypto_data(&packet, now), Err(Error::NotEstablished));
    let payload = CryptoDataPayload { buffer_start: 0, packet_number: 0, data: b"x".to_vec() };
    assert_eq!(
        stranger.handle_data_payload(payload, Nonce([0; 24]), true, now),
        Err(Error::NotEstablished)
    );
    assert_eq!(stranger.confirm(Nonce([0; 24]), true), Err(Error::NotEstablished));
    assert_eq!(stranger, before);
}

#[test]
fn data_under_another_key_does_not_open() {
    let now = at_millis(0);
    let (mut a, _) = pair(now);
    let (_, mut other) = pair(now);
    let packet = a.send_data(b"m0".to_vec(), now).unwrap();
    let before = other.clone();
    assert_eq!(other.handle_crypto_data(&packet, now), Err(Error::Decrypt));
    assert_eq!(other, before);
}

#[test]
fn too_short_content_of_a_data_packet_is_malformed() {
    let now = at_millis(0);
    let (a, mut b) = pair(now);
    // three bytes under the seal are too few for what a data packet carries
    let session = a.session().unwrap();
    let sealed = sodiumoxide::crypto::box_::seal_precomputed(
        &[1, 2, 3],
        &sodiumoxide::crypto::box_::Nonce(session.sent_nonce.0),
        &sodiumoxide::crypto::box_::PrecomputedKey(session.session_precomputed_key.0),
    );
    let packet = CryptoData {
        nonce_last_bytes: CryptoData::nonce_last_bytes(session.sent_nonce),
        payload: sealed,
    };
    let before = b.clone();
    assert_eq!(b.handle_crypto_data(&packet, now), Err(Error::MalformedPacket));
    assert_eq!(b, before);
    // eight bytes are a payload without data
    let sealed = sodiumoxide::crypto::box_::seal_precomputed(
        &[0, 0, 0, 0, 9, 0, 0, 0],
        &sodiumoxide::crypto::box_::Nonce(session.sent_nonce.0),
        &sodiumoxide::crypto::box_::PrecomputedKey(session.session_precomputed_key.0),
    );
    let packet = CryptoData {
        nonce_last_bytes: CryptoData::nonce_last_bytes(session.sent_nonce),
        payload: sealed,
    };
    assert_eq!(b.handle_crypto_data(&packet, now), Ok(DataKind::KeepAlive));
    // bytes that were never sealed do not open
    let packet = CryptoData { nonce_last_bytes: 0x1111, payload: vec![1; 30] };
    assert_eq!(b.handle_crypto_data(&packet, now), Err(Error::Decrypt));
}

#[test]
fn the_same_data_twice_is_kept_once() {
    let now = at_millis(0);
    let (mut a, mut b) = pair(now);
    let m0 = a.send_data(b"m0".to_vec(), now).unwrap();
    assert_eq!(b.handle_crypto_data(&m0, now), Ok(DataKind::Data));
    let after_first = b.clone();
    assert_eq!(b.handle_crypto_data(&m0, at_millis(1)), Err(Error::Duplicate));
    assert_eq!(b.recv_array, after_first.recv_array);
    assert_eq!(drain(&mut b), vec![b"m0".to_vec()]);
    // once the application has it, it is out of range
    assert_eq!(b.handle_crypto_data(&m0, at_millis(2)), Err(Error::OutOfRange));
    assert_eq!(drain(&mut b), Vec::<Vec<u8>>::new());

    let before = b.clone();
    assert_eq!(b.store(0, b"m0".to_vec(), now), Err(Error::OutOfRange));
    assert_eq!(b, before);
    assert_eq!(b.store(1, b"m1".to_vec(), now), Ok(DataKind::Data));
    let before = b.clone();
    assert_eq!(b.store(1, b"m1".to_vec(), now), Err(Error::Duplicate));
    assert_eq!(b, before);
    assert_eq!(b.recv_array.get(1), Some(&RecvPacket { data: b"m1".to_vec() }));
}

#[test]
fn the_first_data_packet_establishes_the_connection() {
    let now = at_millis(0);
    let (mut a, mut b) = pair(now);
    // b has the handshake packet of a but no data packet yet
    let session = b.session().unwrap();
    let a_status = fresh(now).status;
    let packet = match a_status {
        ConnectionStatus::CookieRequesting { packet, .. } => packet,
        _ => unreachable!(),
    };
    b.status = ConnectionStatus::NotConfirmed {
        sent_nonce: session.sent_nonce,
        received_nonce: session.received_nonce,
        peer_session_pk: session.peer_session_pk,
        session_precomputed_key: session.session_precomputed_key,
        packet,
    };
    assert!(!b.is_established());
    assert_eq!(b.session(), Some(session));
    let alive = a.keep_alive(now).unwrap();
    assert_eq!(b.handle_crypto_data(&alive, now), Ok(DataKind::KeepAlive));
    assert!(b.is_established());
    assert_eq!(b.packet_to_send(now), None);
    assert_eq!(drain(&mut b), Vec::<Vec<u8>>::new());
}

#[test]
fn received_nonce_moves_behind_the_newest_packet() {
    let now = at_millis(0);
    let (mut a, mut b) = pair(now);
    let base = received_nonce(&b);
    let m0 = a.send_data(b"m0".to_vec(), now).unwrap();
    let m1 = a.send_data(b"m1".to_vec(), now).unwrap();
    let m2 = a.send_data(b"m2".to_vec(), now).unwrap();
    b.handle_crypto_data(&m2, now).unwrap();
    let mut expected = base;
    increment_nonce(&mut expected, 3);
    assert_eq!(received_nonce(&b), expected);
    // older packets open and leave the nonce where it is
    b.handle_crypto_data(&m0, now).unwrap();
    b.handle_crypto_data(&m1, now).unwrap();
    assert_eq!(received_nonce(&b), expected);

    // the nonces of b cross the point where their last two bytes wrap round
    let q0 = b.send_data(b"q0".to_vec(), now).unwrap();
    let q1 = b.send_data(b"q1".to_vec(), now).unwrap();
    let q2 = b.send_data(b"q2".to_vec(), now).unwrap();
    assert_eq!((q0.nonce_last_bytes, q1.nonce_last_bytes, q2.nonce_last_bytes), (0xfffe, 0xffff, 0));
    a.handle_crypto_data(&q2, now).unwrap();
    a.handle_crypto_data(&q0, now).unwrap();
    a.handle_crypto_data(&q1, now).unwrap();
    assert_eq!(drain(&mut a), vec![b"q0".to_vec(), b"q1".to_vec(), b"q2".to_vec()]);
}

#[test]
fn request_names_the_missing_places() {
    assert_eq!(request_offsets(&[]), Vec::<u32>::new());
    assert_eq!(request_offsets(&[1]), vec![0]);
    assert_eq!(request_offsets(&[2]), vec![1]);
    assert_eq!(request_offsets(&[3, 1, 1]), vec![2, 3, 4]);
    assert_eq!(request_offsets(&[1, 2, 3]), vec![0, 2, 5]);
    // a zero byte walks over 255 places
    assert_eq!(request_offsets(&[0]), Vec::<u32>::new());
    assert_eq!(request_offsets(&[0, 1]), vec![255]);
    assert_eq!(request_offsets(&[0, 0, 7]), vec![516]);
    assert_eq!(request_offsets(&[255, 255]), vec![254, 509]);
    // places outside the array do not count
    let far = vec![0u8; 257];
    assert_eq!(request_offsets(&far), Vec::<u32>::new());
    let mut beyond = vec![0u8; 257];
    beyond.push(1);
    assert_eq!(request_offsets(&beyond), vec![65535]);
    let mut beyond = vec![0u8; 257];
    beyond.push(2);
    assert_eq!(request_offsets(&beyond), Vec::<u32>::new());
    let long = vec![255u8; 2000];
    assert_eq!(request_offsets(&long).len(), 257);
}

#[test]
fn request_is_made_from_the_gaps_of_the_array() {
    let mut array = PacketsArray::<u8>::new();
    assert_eq!(generate_request(&array), (vec![REQUEST_TAG], false));
    array.insert(0, 0).unwrap();
    array.insert(1, 0).unwrap();
    assert_eq!(generate_request(&array), (vec![REQUEST_TAG], false));
    array.insert(3, 0).unwrap();
    array.insert(6, 0).unwrap();
    // the places 2, 4 and 5 are missing
    let (frame, found) = generate_request(&array);
    assert!(found);
    assert_eq!(frame, vec![REQUEST_TAG, 3, 2, 1]);
    assert_eq!(request_offsets(&frame[1..]), vec![2, 4, 5]);

    // a long run of pieces that are there
    let mut array = PacketsArray::<u8>::new();
    for seq in 0..300 {
        array.insert(seq, 0).unwrap();
    }
    array.insert(301, 0).unwrap();
    let (frame, found) = generate_request(&array);
    assert!(found);
    assert_eq!(frame, vec![REQUEST_TAG, 0, 46]);
    assert_eq!(request_offsets(&frame[1..]), vec![300]);

    // the request counts from the start of the window
    array.advance_start_to(299).unwrap();
    let (frame, _) = generate_request(&array);
    assert_eq!(frame, vec![REQUEST_TAG, 2]);
}

#[test]
fn request_for_many_gaps_fits_into_one_frame() {
    let mut array = PacketsArray::<u8>::new();
    array.insert(5000, 0).unwrap();
    let (frame, found) = generate_request(&array);
    assert!(found);
    assert_eq!(frame.len(), MAX_CRYPTO_DATA_SIZE);
    assert_eq!(frame[0], REQUEST_TAG);
    let offsets = request_offsets(&frame[1..]);
    assert_eq!(offsets, (0..1372).collect::<Vec<u32>>());
}

#[test]
fn requested_pieces_go_out_again() {
    let (mut a, mut b) = pair(at_millis(0));
    let m0 = a.send_data(b"m0".to_vec(), at_millis(0)).unwrap();
    let _m1 = a.send_data(b"m1".to_vec(), at_millis(0)).unwrap();
    let m2 = a.send_data(b"m2".to_vec(), at_millis(900)).unwrap();
    let _m3 = a.send_data(b"m3".to_vec(), at_millis(900)).unwrap();
    let m4 = a.send_data(b"m4".to_vec(), at_millis(900)).unwrap();
    b.handle_crypto_data(&m0, at_millis(950)).unwrap();
    b.handle_crypto_data(&m2, at_millis(950)).unwrap();
    b.handle_crypto_data(&m4, at_millis(950)).unwrap();
    assert_eq!(b.poll_recv(), Some(b"m0".to_vec()));
    assert_eq!(b.poll_recv(), None);

    // b misses the pieces 1 and 3
    let request = b.request_missing().unwrap();
    let key = b.session().unwrap().session_precomputed_key;
    let nonce = sent_nonce(&b);
    assert_eq!(
        request.get_payload(&key, &nonce),
        Ok(CryptoDataPayload {
            buffer_start: 1,
            packet_number: 0,
            data: vec![REQUEST_TAG, 1, 2],
        })
    );
    assert_eq!(b.send_array.len(), 0);

    // piece 1 was sent a round trip time ago, piece 3 was not
    assert_eq!(a.rtt, Duration::from_millis(1000));
    assert_eq!(a.handle_crypto_data(&request, at_millis(1000)), Ok(DataKind::Request));
    assert_eq!(a.send_array.buffer_start, 1);
    assert!(a.send_array.get(1).unwrap().requested);
    assert!(!a.send_array.get(2).unwrap().requested);
    assert!(!a.send_array.get(3).unwrap().requested);
    assert!(!a.send_array.get(4).unwrap().requested);
    assert_eq!(drain(&mut a), Vec::<Vec<u8>>::new());

    let (packets, numbers) = a.retransmit(at_millis(1010), 10);
    assert_eq!(numbers, vec![1]);
    assert_eq!(packets.len(), 1);
    assert_eq!(
        a.send_array.get(1),
        Some(&SentPacket { data: b"m1".to_vec(), sent_time: at_millis(1010), requested: false })
    );
    assert_eq!(a.packets_resent, 1);
    assert_eq!(a.last_sent_time, Some(at_millis(1010)));
    assert_eq!(a.retransmit(at_millis(1020), 10), (vec![], vec![]));

    assert_eq!(b.handle_crypto_data(&packets[0], at_millis(1030)), Ok(DataKind::Data));
    assert_eq!(drain(&mut b), vec![b"m1".to_vec(), b"m2".to_vec()]);

    // later the other piece is old enough as well
    let request = b.request_missing().unwrap();
    assert_eq!(a.handle_crypto_data(&request, at_millis(1900)), Ok(DataKind::Request));
    let (packets, numbers) = a.retransmit(at_millis(1900), 10);
    assert_eq!(numbers, vec![3]);
    assert_eq!(b.handle_crypto_data(&packets[0], at_millis(1910)), Ok(DataKind::Data));
    assert_eq!(drain(&mut b), vec![b"m3".to_vec(), b"m4".to_vec()]);
    assert_eq!(b.request_missing(), None);
}

#[test]
fn retransmission_keeps_to_its_limit() {
    let now = at_millis(0);
    let (mut a, _) = pair(now);
    for i in 0..5u8 {
        a.send_data(vec![1, i], now).unwrap();
    }
    // the peer asks for the pieces 0, 2 and 4
    a.rtt = Duration::from_millis(0);
    a.handle_request(&[1, 2, 2], now);
    let (packets, numbers) = a.retransmit(at_millis(5), 2);
    assert_eq!(numbers, vec![0, 2]);
    assert_eq!(packets.len(), 2);
    assert!(a.send_array.get(4).unwrap().requested);
    let (_, numbers) = a.retransmit(at_millis(6), 2);
    assert_eq!(numbers, vec![4]);
    let (packets, numbers) = a.retransmit(at_millis(7), 0);
    assert!(packets.is_empty() && numbers.is_empty());

    let mut not_established = fresh(now);
    let before = not_established.clone();
    assert_eq!(not_established.retransmit(now, 5), (vec![], vec![]));
    assert_eq!(not_established, before);
}

#[test]
fn rate_limit_follows_window_and_round_trip_time() {
    let ms = 1_000_000u64;
    // a tenth of the round trip time allows a tenth of the window
    assert_eq!(rate_limit(100, 1000 * ms, 100 * ms), 10);
    assert_eq!(rate_limit(100, 1000 * ms, 50 * ms), 5);
    // one packet at least
    assert_eq!(rate_limit(100, 1000 * ms, 0), 1);
    assert_eq!(rate_limit(8, 1000 * ms, 50 * ms), 1);
    // never more than the window
    assert_eq!(rate_limit(100, 1000 * ms, 5000 * ms), 100);
    assert_eq!(rate_limit(100, 1000 * ms, 1000 * ms), 100);
    assert_eq!(rate_limit(100, 1000 * ms, 999 * ms), 99);
    assert_eq!(rate_limit(65536, 1, u64::MAX), 65536);
    assert_eq!(rate_limit(7, 0, 0), 7);
    assert_eq!(rate_limit(1, 500 * ms, 1), 1);
}

#[test]
fn loss_halves_the_send_window() {
    let (mut a, _) = pair(at_millis(0));
    a.send_window = 100;
    a.packets_sent = 30;
    a.packets_resent = 10;
    // the interval is not over
    let before = a.clone();
    a.update_congestion(at_millis(999));
    assert_eq!(a, before);
    // a quarter of the packets were sent again: the window stays
    a.update_congestion(at_millis(1000));
    assert_eq!(a.send_window, 100);
    assert_eq!((a.packets_sent, a.packets_resent), (0, 0));
    assert_eq!(a.congestion_time, at_millis(1000));

    a.packets_sent = 29;
    a.packets_resent = 10;
    a.update_congestion(at_millis(2000));
    assert_eq!(a.send_window, 50);

    // the more loss, the smaller the window; never below one packet
    a.packets_sent = 0;
    a.packets_resent = 1;
    a.send_window = 3;
    a.update_congestion(at_millis(3000));
    assert_eq!(a.send_window, 1);
    a.packets_resent = 1000;
    a.update_congestion(at_millis(4000));
    assert_eq!(a.send_window, 1);
    // no loss leaves it alone
    a.packets_sent = 1000;
    a.update_congestion(at_millis(5000));
    assert_eq!(a.send_window, 1);
}

#[test]
fn send_window_never_outgrows_the_array() {
    let now = at_millis(0);
    let (mut a, _) = pair(now);
    a.send_window = 65535;
    a.send_data(b"m0".to_vec(), now).unwrap();
    a.send_data(b"m1".to_vec(), now).unwrap();
    assert_eq!(a.acknowledge(2, now), Ok(()));
    assert_eq!(a.send_window, 65536);
    a.send_data(b"m2".to_vec(), now).unwrap();
    assert_eq!(a.acknowledge(3, now), Ok(()));
    assert_eq!(a.send_window, 65536);
}

#[test]
fn keep_alive_goes_out_when_idle() {
    let (mut a, mut b) = pair(at_millis(0));
    // nothing was sent yet
    assert!(a.is_idle(at_millis(0)));
    let alive = a.keep_alive(at_millis(0)).unwrap();
    assert_eq!(a.last_sent_time, Some(at_millis(0)));
    assert_eq!(a.send_array.len(), 0);
    let key = a.session().unwrap().session_precomputed_key;
    assert_eq!(
        alive.get_payload(&key, &sent_nonce(&a)),
        Ok(CryptoDataPayload { buffer_start: 0, packet_number: 0, data: vec![] })
    );
    assert_eq!(b.handle_crypto_data(&alive, at_millis(1)), Ok(DataKind::KeepAlive));
    assert_eq!(drain(&mut b), Vec::<Vec<u8>>::new());
    assert_eq!(b.recv_array.len(), 0);

    // not idle for a second after that
    assert!(!a.is_idle(at_millis(999)));
    assert_eq!(a.keep_alive(at_millis(999)), None);
    assert!(a.is_idle(at_millis(1000)));
    assert!(a.keep_alive(at_millis(1000)).is_some());
    // sending data counts
    a.send_data(b"m0".to_vec(), at_millis(1500)).unwrap();
    assert_eq!(a.keep_alive(at_millis(2499)), None);
    assert!(a.keep_alive(at_millis(2500)).is_some());

    let mut no_session = fresh(at_millis(0));
    assert_eq!(no_session.keep_alive(at_millis(0)), None);
    assert_eq!(no_session.request_missing(), None);
}

#[test]
fn data_packet_is_made_for_its_number() {
    let now = at_millis(0);
    let (a, _) = pair(now);
    let session = a.session().unwrap();
    let packet =
        make_data_packet(&session.session_precomputed_key, &session.sent_nonce, 10, 3, 12, b"xy");
    let mut nonce = session.sent_nonce;
    increment_nonce(&mut nonce, 2);
    assert_eq!(
        packet.get_payload(&session.session_precomputed_key, &nonce),
        Ok(CryptoDataPayload { buffer_start: 3, packet_number: 12, data: b"xy".to_vec() })
    );
    assert_eq!(packet.nonce_last_bytes, 0x1113);
}
