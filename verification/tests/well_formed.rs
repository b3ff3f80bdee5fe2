use tox_net_crypto::cookie_request::CookieRequest;
use tox_net_crypto::crypto_connection::{
    ConnectionStatus, CryptoConnection, SentPacket, StatusPacket, MAX_NUM_SENDPACKET_TRIES,
};
use tox_net_crypto::crypto_core::{gen_keypair, gen_nonce, precompute, Nonce, PublicKey};
use tox_net_crypto::net_crypto::{Entry, NetCrypto};
use tox_net_crypto::packet::Packet;
use tox_net_crypto::packets_array::PacketsArray;
use tox_net_crypto::time::{Duration, Instant};

fn at_millis(millis: u64) -> Instant {
    Instant::from_nanos(7_000_000_000 + millis * 1_000_000)
}

fn fresh(now: Instant) -> CryptoConnection {
    let (dht_pk, dht_sk) = gen_keypair();
    let (real_pk, _) = gen_keypair();
    let (peer_dht_pk, _) = gen_keypair();
    let (peer_real_pk, _) = gen_keypair();
    CryptoConnection::new(&dht_sk, dht_pk, real_pk, peer_real_pk, peer_dht_pk, now)
}

fn established(now: Instant) -> CryptoConnection {
    let mut connection = fresh(now);
    let (peer_session_pk, _) = gen_keypair();
    connection.status = ConnectionStatus::Established {
        sent_nonce: Nonce([1; 24]),
        received_nonce: Nonce([2; 24]),
        peer_session_pk,
        session_precomputed_key: precompute(&peer_session_pk, &connection.session_sk),
    };
    connection
}

#[test]
fn array_is_well_formed_while_slots_outside_the_window_are_empty() {
    let mut array = PacketsArray::<u8>::new();
    assert!(array.is_wf());
    array.insert(3, 1).unwrap();
    array.insert(70, 2).unwrap();
    array.pop_front();
    array.advance_start_to(2).unwrap();
    array.remove(70);
    assert!(array.is_wf());

    let mut outside = array.clone();
    outside.buffer[100] = Some(1);
    assert!(!outside.is_wf());
    let mut before_start = array.clone();
    before_start.buffer[1] = Some(1);
    assert!(!before_start.is_wf());
    let mut short = array.clone();
    short.buffer.pop();
    assert!(!short.is_wf());
    let mut too_wide = array.clone();
    too_wide.buffer_end = too_wide.buffer_start.wrapping_add(65537);
    assert!(!too_wide.is_wf());
    let mut backwards = array.clone();
    backwards.buffer_end = backwards.buffer_start.wrapping_sub(1);
    assert!(!backwards.is_wf());
    // a window of all 65536 slots
    let mut full = array;
    full.buffer_end = full.buffer_start.wrapping_add(65536);
    full.buffer[1] = Some(1);
    assert!(full.is_wf());
}

#[test]
fn connection_is_well_formed_as_it_is_made() {
    let now = at_millis(0);
    assert!(fresh(now).is_wf());
    let mut connection = established(now);
    assert!(connection.is_wf());
    connection.send_data(b"data".to_vec(), now).unwrap();
    assert!(connection.is_wf());

    let mut no_window = connection.clone();
    no_window.send_window = 0;
    assert!(!no_window.is_wf());
    let mut wide_window = connection.clone();
    wide_window.send_window = 65537;
    assert!(!wide_window.is_wf());
    wide_window.send_window = 65536;
    assert!(wide_window.is_wf());

    let mut broken_array = connection.clone();
    broken_array.recv_array.buffer[9] = Some(tox_net_crypto::crypto_connection::RecvPacket::new(vec![1]));
    assert!(!broken_array.is_wf());

    // data in the send array that could not have been sent
    for data in [vec![], vec![0, 1], vec![1; 1374]] {
        let mut unfit = connection.clone();
        unfit.send_array.insert(1, SentPacket::new(data, now)).unwrap();
        assert!(!unfit.is_wf());
    }

    let mut too_many_tries = fresh(now);
    let packet = StatusPacket {
        num_sent: MAX_NUM_SENDPACKET_TRIES + 1,
        ..StatusPacket::new_cookie_request(
            CookieRequest { pk: PublicKey([0; 32]), nonce: gen_nonce(), payload: vec![0; 80] },
            now,
        )
    };
    too_many_tries.status = ConnectionStatus::CookieRequesting { cookie_request_id: 1, packet };
    assert!(!too_many_tries.is_wf());
}

#[test]
fn engine_is_well_formed_while_handles_and_peers_are_distinct() {
    let (dht_pk, dht_sk) = gen_keypair();
    let (real_pk, _) = gen_keypair();
    let mut engine = NetCrypto::new(dht_pk, dht_sk, real_pk);
    assert!(engine.is_wf());
    let now = at_millis(0);
    let first = fresh(now);
    let second = fresh(now);
    let h1 = engine.connect(first.peer_real_pk, first.peer_dht_pk, now).unwrap();
    let h2 = engine.connect(second.peer_real_pk, second.peer_dht_pk, now).unwrap();
    engine.tick(now);
    assert!(engine.is_wf());
    assert_eq!((h1, h2), (0, 1));

    let mut same_handle = engine.clone();
    same_handle.entries[1].handle = h1;
    assert!(!same_handle.is_wf());
    let mut same_peer = engine.clone();
    same_peer.entries[1].connection.peer_real_pk = first.peer_real_pk;
    assert!(!same_peer.is_wf());
    let mut handle_not_given = engine.clone();
    handle_not_given.entries.push(Entry { handle: 2, connection: fresh(now) });
    assert!(!handle_not_given.is_wf());
    handle_not_given.next_handle = 3;
    assert!(handle_not_given.is_wf());
    let mut broken_connection = engine;
    broken_connection.entries[0].connection.send_window = 0;
    assert!(!broken_connection.is_wf());
}

#[test]
fn status_packet_waits_more_than_a_second() {
    let sent = at_millis(0);
    let mut packet = StatusPacket::new_cookie_request(
        CookieRequest { pk: PublicKey([0; 32]), nonce: gen_nonce(), payload: vec![0; 80] },
        sent,
    );
    packet.num_sent = 1;
    // a second exactly is not enough
    assert!(!packet.should_be_sent(at_millis(1000)));
    assert!(packet.should_be_sent(Instant::from_nanos(at_millis(1000).nanos + 1)));
    packet.num_sent = 7;
    assert!(packet.should_be_sent(at_millis(1001)));
    assert!(!packet.is_timed_out(at_millis(5000)));
    packet.num_sent = 8;
    assert!(!packet.should_be_sent(at_millis(1001)));
    assert!(!packet.is_timed_out(at_millis(1000)));
    assert!(packet.is_timed_out(at_millis(1001)));
    // a packet that was never sent is due whatever the time
    packet.num_sent = 0;
    assert!(packet.should_be_sent(Instant::from_nanos(0)));
    assert!(!packet.is_timed_out(at_millis(60_000)));
    // a clock that went back counts as no time passed
    packet.num_sent = 1;
    assert!(!packet.should_be_sent(Instant::from_nanos(0)));

    let taken = packet.take_to_send(at_millis(2000)).unwrap();
    assert_eq!(taken, packet.dht_packet());
    assert!(matches!(taken, Packet::CookieRequest(_)));
    assert_eq!(packet.num_sent, 2);
    assert_eq!(packet.sent_time, at_millis(2000));
    assert_eq!(packet.take_to_send(at_millis(2500)), None);
    assert_eq!(packet.num_sent, 2);
    assert_eq!(packet.duplicate(), packet);
}

#[test]
fn timer_gives_out_what_is_due_for_a_connection() {
    let start = at_millis(0);
    let mut asking = fresh(start);
    let tick = asking.tick(start);
    assert!(matches!(tick.status_packet, Some(Packet::CookieRequest(_))));
    assert!(tick.resent.is_empty());
    assert_eq!(tick.request, None);
    assert_eq!(tick.keep_alive, None);
    assert!(tick.sends());
    assert_eq!(asking.last_tick_time, start);
    // no address is known: no try by UDP is noted
    assert_eq!(asking.udp_send_attempt_time, None);
    let tick = asking.tick(at_millis(50));
    assert!(!tick.sends());
    assert_eq!(asking.last_tick_time, at_millis(50));

    let mut connection = established(start);
    connection.rtt = Duration::from_millis(100);
    connection.send_window = 20;
    for i in 0..10u8 {
        connection.send_data(vec![1, i], start).unwrap();
    }
    connection.handle_request(&[1, 1, 1, 1, 1, 1, 1, 1, 1, 1], at_millis(100));
    connection.recv_array.insert(1, tox_net_crypto::crypto_connection::RecvPacket::new(vec![1])).unwrap();
    assert_eq!(connection.last_tick_time, start);
    // 50 ms are half a round trip time: half of the window may go out again
    let tick = connection.tick(at_millis(50));
    assert_eq!(tick.status_packet, None);
    assert_eq!(tick.resent.len(), 10);
    assert!(tick.request.is_some());
    assert_eq!(tick.keep_alive, None);
    assert_eq!(connection.packets_resent, 10);

    connection.handle_request(&[1, 1, 1, 1, 1, 1, 1, 1, 1, 1], at_millis(200));
    let tick = connection.tick(at_millis(60));
    // 10 ms are a tenth of the round trip time: two packets of the window of 20
    assert_eq!(tick.resent.len(), 2);
    let tick = connection.tick(at_millis(60));
    // no time has passed: one packet goes out all the same
    assert_eq!(tick.resent.len(), 1);
    let mut out = Vec::new();
    tick.address(&connection, at_millis(60), &mut out);
    assert!(out.is_empty());
    connection.udp_addr = Some(tox_net_crypto::ip_addr::SocketAddr {
        ip: tox_net_crypto::ip_addr::IpAddr::V4(tox_net_crypto::ip_addr::Ipv4Addr::new(1, 1, 1, 1)),
        port: 1,
    });
    tick.address(&connection, at_millis(60), &mut out);
    assert_eq!(out.len(), 2);
    assert_eq!(out[0].packet, Packet::CryptoData(tick.resent[0].clone()));
    assert_eq!(out[1].packet, Packet::CryptoData(tick.request.clone().unwrap()));
}

#[test]
fn status_packet_with_any_count_can_be_asked_for() {
    for count in [9u8, 100, 254, 255] {
        let mut packet = StatusPacket::new_cookie_request(
            CookieRequest { pk: PublicKey([0; 32]), nonce: gen_nonce(), payload: vec![0; 80] },
            at_millis(0),
        );
        packet.num_sent = count;
        let before = packet.clone();
        assert_eq!(packet.take_to_send(at_millis(0)), None);
        assert_eq!(packet.take_to_send(at_millis(5000)), None);
        assert_eq!(packet, before);
        assert!(packet.is_timed_out(at_millis(5000)));

        let mut connection = fresh(at_millis(0));
        match &mut connection.status {
            ConnectionStatus::CookieRequesting { packet, .. } => packet.num_sent = count,
            other => panic!("not asking for a cookie: {:?}", other),
        }
        let before = connection.clone();
        assert_eq!(connection.packet_to_send(at_millis(5000)), None);
        assert_eq!(connection, before);
        assert!(!connection.is_wf());
    }
}
