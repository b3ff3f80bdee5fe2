use tox_net_crypto::cookie::{Cookie, CookieKeys, EncryptedCookie};
use tox_net_crypto::cookie_request::{CookieRequest, CookieRequestPayload};
use tox_net_crypto::cookie_response::{CookieResponse, CookieResponsePayload};
use tox_net_crypto::crypto_connection::{
    validate_handshake, ConnectionStatus, CryptoConnection, Endpoint, StatusPacketEnum,
    DEFAULT_RTT, TCP_RTT,
};
use tox_net_crypto::crypto_core::{gen_keypair, gen_nonce, precompute, Digest, PublicKey, SecretKey};
use tox_net_crypto::crypto_data::CryptoData;
use tox_net_crypto::crypto_handshake::{CryptoHandshake, CryptoHandshakePayload};
use tox_net_crypto::data_channel::DataKind;
use tox_net_crypto::error::Error;
use tox_net_crypto::ip_addr::{IpAddr, Ipv4Addr, Ipv6Addr, SocketAddr};
use tox_net_crypto::net_crypto::NetCrypto;
use tox_net_crypto::packet::Packet;
use tox_net_crypto::secretbox;
use tox_net_crypto::time::{Duration, Instant};
use tox_net_crypto::transport::{address, Outgoing};

struct Node {
    engine: NetCrypto,
    addr: SocketAddr,
    real_pk: PublicKey,
    dht_pk: PublicKey,
    dht_sk: SecretKey,
}

fn node(last_octet: u8) -> Node {
    let (dht_pk, dht_sk) = gen_keypair();
    let (real_pk, _real_sk) = gen_keypair();
    Node {
        engine: NetCrypto::new(dht_pk, dht_sk, real_pk),
        addr: SocketAddr { ip: IpAddr::V4(Ipv4Addr::new(192, 168, 0, last_octet)), port: 1000 },
        real_pk,
        dht_pk,
        dht_sk,
    }
}

fn at_millis(millis: u64) -> Instant {
    Instant::from_nanos(50_000_000_000 + millis * 1_000_000)
}

fn only(mut packets: Vec<Outgoing>) -> Packet {
    assert_eq!(packets.len(), 1);
    packets.pop().unwrap().packet
}

fn status_name(node: &Node, handle: u64) -> &'static str {
    match node.engine.connection(handle).unwrap().status {
        ConnectionStatus::CookieRequesting { .. } => "CookieRequesting",
        ConnectionStatus::HandshakeSending { .. } => "HandshakeSending",
        ConnectionStatus::NotConfirmed { .. } => "NotConfirmed",
        ConnectionStatus::Established { .. } => "Established",
    }
}

/// Brings `a` to the point where it sends its handshake packet to `b`, and
/// returns the handle and that packet.
fn until_handshake(a: &mut Node, b: &mut Node, now: Instant) -> (u64, CryptoHandshake) {
    let ha = a.engine.connect(b.real_pk, b.dht_pk, now).unwrap();
    a.engine.set_udp_addr(ha, b.addr);
    let request = only(a.engine.tick(now).outgoing);
    let response = only(b.engine.handle_packet(&request, Endpoint::Udp(a.addr), now).outgoing);
    assert_eq!(a.engine.handle_packet(&response, Endpoint::Udp(b.addr), now).handle, Some(ha));
    match only(a.engine.tick(now).outgoing) {
        Packet::CryptoHandshake(handshake) => (ha, handshake),
        other => panic!("not a handshake packet: {:?}", other),
    }
}

#[test]
fn new_engine_has_no_connections() {
    let mut a = node(1);
    assert!(a.engine.entries.is_empty());
    assert!(a.engine.allowed.is_empty());
    assert_eq!(a.engine.cookie_keys.previous, None);
    assert_eq!(a.engine.cookie_keys.rotated_at, None);
    assert_eq!(a.engine.connection(0), None);
    assert_eq!(a.engine.find(0), None);
    assert_eq!(a.engine.poll_recv(0), None);
    assert_eq!(a.engine.send(0, b"x".to_vec(), at_millis(0)), Err(Error::NotEstablished));
    assert!(!a.engine.close(0));
    assert!(!a.engine.set_udp_addr(0, a.addr));
    assert!(!a.engine.set_tcp_relay(0, 1));
    let ticked = a.engine.tick(at_millis(0));
    assert!(ticked.outgoing.is_empty() && ticked.failed.is_empty());
    let keys = CookieKeys::from_key(secretbox::gen_key());
    let engine = NetCrypto::with_cookie_keys(a.dht_pk, a.dht_sk, a.real_pk, keys);
    assert_eq!(engine.cookie_keys, keys);
    assert_eq!(engine.next_handle, 0);
}

#[test]
fn connect_opens_one_connection_for_each_peer() {
    let mut a = node(1);
    let b = node(2);
    let c = node(3);
    let now = at_millis(0);
    let hb = a.engine.connect(b.real_pk, b.dht_pk, now).unwrap();
    let hc = a.engine.connect(c.real_pk, c.dht_pk, now).unwrap();
    assert_ne!(hb, hc);
    // the peer is known already
    assert_eq!(a.engine.connect(b.real_pk, b.dht_pk, at_millis(10)), Some(hb));
    assert_eq!(a.engine.entries.len(), 2);
    assert_eq!(a.engine.find(hb), Some(0));
    assert_eq!(a.engine.find(hc), Some(1));
    assert_eq!(a.engine.find_peer(&c.real_pk), Some(1));
    assert_eq!(a.engine.find_peer(&a.real_pk), None);

    let connection = a.engine.connection(hb).unwrap();
    assert_eq!(connection.peer_real_pk, b.real_pk);
    assert_eq!(connection.peer_dht_pk, b.dht_pk);
    assert_eq!(connection.dht_precomputed_key, precompute(&b.dht_pk, &a.dht_sk));
    assert_eq!(connection.rtt, Duration::from_millis(DEFAULT_RTT));
    assert_eq!(connection.udp_addr, None);
    assert_eq!(connection.send_array.len(), 0);
    assert_eq!(status_name(&a, hb), "CookieRequesting");
    // the cookie request is made for the peer
    match &connection.status {
        ConnectionStatus::CookieRequesting { cookie_request_id, packet } => {
            assert_eq!(packet.num_sent, 0);
            assert_eq!(packet.sent_time, now);
            match &packet.packet {
                StatusPacketEnum::CookieRequest(request) => {
                    assert_eq!(request.pk, a.dht_pk);
                    assert_eq!(
                        request.get_payload(&precompute(&a.dht_pk, &b.dht_sk)),
                        Ok(CookieRequestPayload { pk: a.real_pk, id: *cookie_request_id })
                    );
                },
                other => panic!("not a cookie request: {:?}", other),
            }
        },
        other => panic!("not asking for a cookie: {:?}", other),
    }
    // no handle is left
    a.engine.next_handle = u64::MAX;
    let d = node(4);
    assert_eq!(a.engine.connect(d.real_pk, d.dht_pk, now), None);
    assert_eq!(a.engine.entries.len(), 2);
}

#[test]
fn connection_without_a_way_sends_nothing() {
    let mut a = node(1);
    let b = node(2);
    let ha = a.engine.connect(b.real_pk, b.dht_pk, at_millis(0)).unwrap();
    // the packet is due, but there is no way to send it by
    let ticked = a.engine.tick(at_millis(0));
    assert!(ticked.outgoing.is_empty());
    assert_eq!(a.engine.connection(ha).unwrap().udp_send_attempt_time, None);
    a.engine.set_udp_addr(ha, b.addr);
    assert!(a.engine.tick(at_millis(50)).outgoing.is_empty());
    let out = a.engine.tick(at_millis(1001)).outgoing;
    assert_eq!(out.len(), 1);
    assert_eq!(out[0].endpoint, Endpoint::Udp(b.addr));
    assert_eq!(a.engine.connection(ha).unwrap().udp_send_attempt_time, Some(at_millis(1001)));
}

#[test]
fn handshake_packets_go_by_every_way() {
    let mut a = node(1);
    let b = node(2);
    let ha = a.engine.connect(b.real_pk, b.dht_pk, at_millis(0)).unwrap();
    assert!(a.engine.set_tcp_relay(ha, 5));
    // a connection over a relay starts with the round trip time of a relay
    assert_eq!(a.engine.connection(ha).unwrap().rtt, Duration::from_millis(TCP_RTT));
    assert!(a.engine.set_udp_addr(ha, b.addr));
    let out = a.engine.tick(at_millis(0)).outgoing;
    assert_eq!(out.len(), 2);
    assert_eq!(out[0].endpoint, Endpoint::Udp(b.addr));
    assert_eq!(out[1].endpoint, Endpoint::TcpRelay { relay_id: 5, dest_dht_pk: b.dht_pk });
    assert_eq!(out[0].packet, out[1].packet);
    let connection = a.engine.connection(ha).unwrap();
    assert_eq!(connection.status_endpoints(), vec![out[0].endpoint, out[1].endpoint]);
    // nothing has come in by UDP: data goes by both ways as well
    assert_eq!(connection.data_endpoints(at_millis(0)), vec![out[0].endpoint, out[1].endpoint]);
    assert!(!connection.is_udp_alive(at_millis(0)));

    // a relay that becomes known later does not change the round trip time
    let c = node(3);
    let hc = a.engine.connect(c.real_pk, c.dht_pk, at_millis(0)).unwrap();
    a.engine.set_udp_addr(hc, c.addr);
    a.engine.set_tcp_relay(hc, 6);
    assert_eq!(a.engine.connection(hc).unwrap().rtt, Duration::from_millis(DEFAULT_RTT));
}

#[test]
fn udp_is_alive_for_8_seconds() {
    let mut connection = {
        let (dht_pk, dht_sk) = gen_keypair();
        CryptoConnection::new(&dht_sk, dht_pk, dht_pk, dht_pk, dht_pk, at_millis(0))
    };
    assert!(!connection.is_udp_alive(at_millis(0)));
    connection.update_udp_received_time(at_millis(100));
    assert!(connection.is_udp_alive(at_millis(100)));
    assert!(connection.is_udp_alive(at_millis(8_099)));
    assert!(!connection.is_udp_alive(at_millis(8_100)));
    // a clock that went back
    assert!(connection.is_udp_alive(at_millis(0)));

    assert!(connection.udp_attempt_should_be_made(at_millis(0)));
    connection.update_udp_send_attempt_time(at_millis(100));
    assert!(!connection.udp_attempt_should_be_made(at_millis(100)));
    assert!(!connection.udp_attempt_should_be_made(at_millis(4_099)));
    assert!(connection.udp_attempt_should_be_made(at_millis(4_100)));

    let v6 = SocketAddr { ip: IpAddr::V6(Ipv6Addr::new(1, 2, 3, 4, 5, 6, 7, 8)), port: 9 };
    connection.note_received(Endpoint::Udp(v6), at_millis(9_000));
    assert_eq!(connection.udp_addr, Some(v6));
    assert_eq!(connection.udp_received_time, Some(at_millis(9_000)));
    connection.note_received(
        Endpoint::TcpRelay { relay_id: 4, dest_dht_pk: PublicKey([0; 32]) },
        at_millis(9_500),
    );
    assert_eq!(connection.tcp_relay, Some(4));
    assert_eq!(connection.udp_received_time, Some(at_millis(9_000)));
    // while UDP is alive, data goes by UDP alone
    assert_eq!(connection.data_endpoints(at_millis(9_500)), vec![Endpoint::Udp(v6)]);
    assert_eq!(connection.data_endpoints(at_millis(17_000)).len(), 2);
    connection.note_sent(at_millis(9_600));
    assert_eq!(connection.udp_send_attempt_time, Some(at_millis(9_600)));
}

#[test]
fn packet_to_send_counts_the_tries() {
    let (dht_pk, dht_sk) = gen_keypair();
    let mut connection = CryptoConnection::new(&dht_sk, dht_pk, dht_pk, dht_pk, dht_pk, at_millis(0));
    let first = connection.packet_to_send(at_millis(0)).unwrap();
    assert!(matches!(first, Packet::CookieRequest(_)));
    // not again within a second
    assert_eq!(connection.packet_to_send(at_millis(1000)), None);
    let mut tries = 1;
    let mut millis = 1001;
    for _ in 0..20 {
        if let Some(packet) = connection.packet_to_send(at_millis(millis)) {
            assert_eq!(packet, first);
            tries += 1;
        }
        assert!(!connection.is_timed_out(at_millis(millis)) || tries == 8);
        millis += 1001;
    }
    // eight tries and no more
    assert_eq!(tries, 8);
    match &connection.status {
        ConnectionStatus::CookieRequesting { packet, .. } => assert_eq!(packet.num_sent, 8),
        other => panic!("not asking for a cookie: {:?}", other),
    }
    assert!(connection.is_timed_out(at_millis(millis)));
}

#[test]
fn cookie_request_is_answered_with_a_cookie() {
    let mut a = node(1);
    let b = node(2);
    let now = at_millis(0);
    let key = precompute(&b.dht_pk, &a.dht_sk);
    let payload = CookieRequestPayload { pk: b.real_pk, id: 4711 };
    let request = CookieRequest::new(&key, &b.dht_pk, &payload);
    let before = a.engine.clone();
    let response = a.engine.handle_cookie_request(&request, now).unwrap();
    assert_eq!(a.engine, before);
    let answer = response.get_payload(&precompute(&a.dht_pk, &b.dht_sk)).unwrap();
    assert_eq!(answer.id, 4711);
    // the cookie names the two keys of the requester and the time
    assert_eq!(
        answer.cookie.get_payload(&a.engine.cookie_keys.current),
        Ok(Cookie { real_pk: b.real_pk, dht_pk: b.dht_pk, time: now.nanos })
    );

    // answered at once, to where the request came from
    let handled = a.engine.handle_packet(&Packet::CookieRequest(request.clone()), Endpoint::Udp(b.addr), now);
    assert_eq!(handled.handle, None);
    assert_eq!(handled.outgoing.len(), 1);
    assert_eq!(handled.outgoing[0].endpoint, Endpoint::Udp(b.addr));
    assert!(matches!(handled.outgoing[0].packet, Packet::CookieResponse(_)));

    // a request that does not open gets no answer
    let mut tampered = request.clone();
    tampered.payload[0] ^= 1;
    assert_eq!(a.engine.handle_cookie_request(&tampered, now), Err(Error::Decrypt));
    let handled = a.engine.handle_packet(&Packet::CookieRequest(tampered), Endpoint::Udp(b.addr), now);
    assert!(handled.outgoing.is_empty());
    let mut other_key = request;
    other_key.pk = a.dht_pk;
    assert_eq!(a.engine.handle_cookie_request(&other_key, now), Err(Error::Decrypt));
}

#[test]
fn cookie_response_has_to_answer_our_request() {
    let mut a = node(1);
    let b = node(2);
    let now = at_millis(0);
    let ha = a.engine.connect(b.real_pk, b.dht_pk, now).unwrap();
    let id = match a.engine.connection(ha).unwrap().status {
        ConnectionStatus::CookieRequesting { cookie_request_id, .. } => cookie_request_id,
        _ => unreachable!(),
    };
    let cookie = EncryptedCookie::new(&secretbox::gen_key(), &Cookie::new(a.real_pk, a.dht_pk, now));
    let key = precompute(&a.dht_pk, &b.dht_sk);
    let source = Endpoint::Udp(b.addr);
    let before = a.engine.clone();

    // another id
    let wrong_id = CookieResponse::new(
        &key,
        &CookieResponsePayload { cookie: cookie.clone(), id: id.wrapping_add(1) },
    );
    assert_eq!(a.engine.handle_cookie_response(&wrong_id, source, now), Err(Error::CookieMismatch));
    // another key
    let (other_pk, _) = gen_keypair();
    let wrong_key = CookieResponse::new(
        &precompute(&other_pk, &b.dht_sk),
        &CookieResponsePayload { cookie: cookie.clone(), id },
    );
    assert_eq!(a.engine.handle_cookie_response(&wrong_key, source, now), Err(Error::CookieMismatch));
    assert_eq!(a.engine, before);
    {
        let mut connection = a.engine.connection(ha).unwrap().clone();
        let keys = a.engine.cookie_keys;
        assert_eq!(connection.handle_cookie_response(&wrong_id, &keys, now), Err(Error::CookieMismatch));
        assert_eq!(connection.handle_cookie_response(&wrong_key, &keys, now), Err(Error::Decrypt));
        assert_eq!(&connection, a.engine.connection(ha).unwrap());
    }

    // the right one
    let right = CookieResponse::new(&key, &CookieResponsePayload { cookie: cookie.clone(), id });
    assert_eq!(a.engine.handle_cookie_response(&right, source, at_millis(5)), Ok(ha));
    assert_eq!(status_name(&a, ha), "HandshakeSending");
    let connection = a.engine.connection(ha).unwrap();
    // the way by which the response came is noted
    assert_eq!(connection.udp_addr, Some(b.addr));
    assert_eq!(connection.udp_received_time, Some(at_millis(5)));
    match &connection.status {
        ConnectionStatus::HandshakeSending { sent_nonce, packet } => {
            // the count of tries starts again
            assert_eq!(packet.num_sent, 0);
            assert_eq!(packet.sent_time, at_millis(5));
            match &packet.packet {
                StatusPacketEnum::CryptoHandshake(handshake) => {
                    assert_eq!(handshake.cookie, cookie);
                    let payload = handshake.get_payload(&key).unwrap();
                    assert_eq!(payload.base_nonce, *sent_nonce);
                    assert_eq!(payload.session_pk, connection.session_pk);
                    assert_eq!(payload.cookie_hash, cookie.hash());
                    assert_eq!(
                        payload.cookie.get_payload(&a.engine.cookie_keys.current),
                        Ok(Cookie { real_pk: b.real_pk, dht_pk: b.dht_pk, time: at_millis(5).nanos })
                    );
                },
                other => panic!("not a handshake packet: {:?}", other),
            }
        },
        other => panic!("not sending a handshake packet: {:?}", other),
    }
    // a second response finds no connection that asks for a cookie
    assert_eq!(a.engine.handle_cookie_response(&right, source, now), Err(Error::CookieMismatch));
}

#[test]
fn handshake_of_a_peer_that_is_not_accepted_is_dropped() {
    let mut a = node(1);
    let mut b = node(2);
    let now = at_millis(0);
    let (_, handshake) = until_handshake(&mut a, &mut b, now);
    let source = Endpoint::Udp(a.addr);
    let before = b.engine.clone();
    assert_eq!(
        b.engine.accept_inbound_handshake(&handshake, source, now),
        Err(Error::CookieMismatch)
    );
    assert_eq!(b.engine.handle_packet(&Packet::CryptoHandshake(handshake.clone()), source, now).handle, None);
    assert_eq!(b.engine, before);
    assert!(!b.engine.is_allowed(&a.real_pk));

    b.engine.allow_peer(a.real_pk);
    b.engine.allow_peer(a.real_pk);
    assert_eq!(b.engine.allowed, vec![a.real_pk]);
    assert!(b.engine.is_allowed(&a.real_pk));
    let hb = b.engine.accept_inbound_handshake(&handshake, source, now).unwrap();
    assert_eq!(status_name(&b, hb), "NotConfirmed");
    // there is a connection to that peer now
    assert_eq!(b.engine.accept_inbound_handshake(&handshake, source, now), Err(Error::Duplicate));
    let connection = b.engine.connection(hb).unwrap();
    assert_eq!(connection.peer_real_pk, a.real_pk);
    assert_eq!(connection.peer_dht_pk, a.dht_pk);
    assert_eq!(connection.udp_addr, Some(a.addr));
    // the packet that was accepted is what the connection holds
    let payload = handshake.get_payload(&precompute(&a.dht_pk, &b.dht_sk)).unwrap();
    match &connection.status {
        ConnectionStatus::NotConfirmed { received_nonce, peer_session_pk, packet, .. } => {
            assert_eq!(*received_nonce, payload.base_nonce);
            assert_eq!(*peer_session_pk, payload.session_pk);
            match &packet.packet {
                // the cookie that the peer sent is echoed
                StatusPacketEnum::CryptoHandshake(ours) => assert_eq!(ours.cookie, payload.cookie),
                other => panic!("not a handshake packet: {:?}", other),
            }
        },
        other => panic!("not confirmed: {:?}", other),
    }
}

#[test]
fn handshake_with_an_old_cookie_is_dropped() {
    let mut a = node(1);
    let mut b = node(2);
    b.engine.allow_peer(a.real_pk);
    let (_, handshake) = until_handshake(&mut a, &mut b, at_millis(0));
    let source = Endpoint::Udp(a.addr);
    assert_eq!(
        b.engine.accept_inbound_handshake(&handshake, source, at_millis(15_001)),
        Err(Error::CookieExpired)
    );
    assert!(b.engine.entries.is_empty());
    assert!(b.engine.accept_inbound_handshake(&handshake, source, at_millis(15_000)).is_ok());
}

#[test]
fn handshake_is_accepted_after_the_cookie_key_changed_once() {
    let mut a = node(1);
    let mut b = node(2);
    b.engine.allow_peer(a.real_pk);
    let (_, handshake) = until_handshake(&mut a, &mut b, at_millis(0));
    let source = Endpoint::Udp(a.addr);
    let old_key = b.engine.cookie_keys.current;
    assert!(b.engine.rotate_cookie_key(at_millis(5)));
    assert_eq!(b.engine.cookie_keys.previous, Some(old_key));
    assert!(b.engine.clone().accept_inbound_handshake(&handshake, source, at_millis(10)).is_ok());
    // the key cannot change again while the cookie is valid
    let before = b.engine.clone();
    assert!(!b.engine.rotate_cookie_key(at_millis(15_005)));
    assert_eq!(b.engine, before);
    assert!(b.engine.clone().accept_inbound_handshake(&handshake, source, at_millis(15_000)).is_ok());
    // by the time it can, the cookie has run out
    assert!(b.engine.rotate_cookie_key(at_millis(15_006)));
    assert_eq!(
        b.engine.accept_inbound_handshake(&handshake, source, at_millis(15_006)),
        Err(Error::Decrypt)
    );
}

#[test]
fn handshake_checks_fail_one_by_one() {
    let mut a = node(1);
    let mut b = node(2);
    let now = at_millis(0);
    let (_, handshake) = until_handshake(&mut a, &mut b, now);
    let key = precompute(&a.dht_pk, &b.dht_sk);
    let keys = b.engine.cookie_keys;
    let payload = handshake.get_payload(&key).unwrap();
    assert_eq!(
        validate_handshake(&handshake, &key, &keys, &a.real_pk, &a.dht_pk, now),
        Ok(payload.clone())
    );
    // the seal
    let (other_pk, _) = gen_keypair();
    assert_eq!(
        validate_handshake(&handshake, &precompute(&other_pk, &b.dht_sk), &keys, &a.real_pk, &a.dht_pk, now),
        Err(Error::Decrypt)
    );
    // the cookie
    assert_eq!(
        validate_handshake(&handshake, &key, &CookieKeys::new(), &a.real_pk, &a.dht_pk, now),
        Err(Error::Decrypt)
    );
    assert_eq!(
        validate_handshake(&handshake, &key, &keys, &a.real_pk, &a.dht_pk, at_millis(15_001)),
        Err(Error::CookieExpired)
    );
    // the keys that the cookie names
    assert_eq!(
        validate_handshake(&handshake, &key, &keys, &other_pk, &a.dht_pk, now),
        Err(Error::CookieMismatch)
    );
    assert_eq!(
        validate_handshake(&handshake, &key, &keys, &a.real_pk, &other_pk, now),
        Err(Error::CookieMismatch)
    );
    // the digest of the cookie
    let wrong_hash = CryptoHandshake::new(
        &key,
        &CryptoHandshakePayload { cookie_hash: Digest([0; 64]), ..payload.clone() },
        handshake.cookie.clone(),
    );
    assert_eq!(
        validate_handshake(&wrong_hash, &key, &keys, &a.real_pk, &a.dht_pk, now),
        Err(Error::CookieMismatch)
    );
    // another cookie of ours with the digest of the first
    let other_cookie = EncryptedCookie::new(&keys.current, &Cookie::new(a.real_pk, a.dht_pk, now));
    let swapped = CryptoHandshake::new(&key, &payload, other_cookie);
    assert_eq!(
        validate_handshake(&swapped, &key, &keys, &a.real_pk, &a.dht_pk, now),
        Err(Error::CookieMismatch)
    );
}

#[test]
fn handshake_moves_a_connection_on() {
    let mut a = node(1);
    let mut b = node(2);
    let now = at_millis(0);
    b.engine.allow_peer(a.real_pk);
    let (ha, handshake) = until_handshake(&mut a, &mut b, now);
    let hb = b.engine.handle_crypto_handshake(&handshake, Endpoint::Udp(a.addr), now).unwrap();
    let answer = match only(b.engine.tick(at_millis(2_000)).outgoing.into_iter().take(1).collect()) {
        Packet::CryptoHandshake(answer) => answer,
        other => panic!("not a handshake packet: {:?}", other),
    };
    let sent_before = match &a.engine.connection(ha).unwrap().status {
        ConnectionStatus::HandshakeSending { sent_nonce, packet } => (*sent_nonce, packet.clone()),
        other => panic!("not sending a handshake packet: {:?}", other),
    };
    assert_eq!(a.engine.handle_crypto_handshake(&answer, Endpoint::Udp(b.addr), at_millis(2_010)), Ok(ha));
    let payload = answer.get_payload(&precompute(&b.dht_pk, &a.dht_sk)).unwrap();
    let connection = a.engine.connection(ha).unwrap();
    match &connection.status {
        ConnectionStatus::NotConfirmed {
            sent_nonce,
            received_nonce,
            peer_session_pk,
            session_precomputed_key,
            packet,
        } => {
            assert_eq!(*sent_nonce, sent_before.0);
            assert_eq!(*received_nonce, payload.base_nonce);
            assert_eq!(*peer_session_pk, payload.session_pk);
            assert_eq!(*session_precomputed_key, precompute(&payload.session_pk, &connection.session_sk));
            // the connection goes on with the handshake packet that it was sending
            assert_eq!(*packet, sent_before.1);
        },
        other => panic!("not confirmed: {:?}", other),
    }
    // the same packet once more is taken again and changes nothing
    let before = a.engine.clone();
    assert_eq!(a.engine.handle_crypto_handshake(&answer, Endpoint::Udp(b.addr), at_millis(2_010)), Ok(ha));
    assert_eq!(a.engine, before);

    // an established connection takes no handshake packets
    let alive = a.engine.tick(at_millis(2_020)).outgoing;
    for outgoing in alive.iter() {
        b.engine.handle_packet(&outgoing.packet, Endpoint::Udp(a.addr), at_millis(2_030));
    }
    assert_eq!(status_name(&b, hb), "Established");
    let before = b.engine.clone();
    assert_eq!(
        b.engine.handle_crypto_handshake(&handshake, Endpoint::Udp(a.addr), at_millis(2_040)),
        Err(Error::CookieMismatch)
    );
    assert_eq!(b.engine, before);
}

#[test]
fn both_sides_may_connect_at_once() {
    let mut a = node(1);
    let mut b = node(2);
    let now = at_millis(0);
    let hb = b.engine.connect(a.real_pk, a.dht_pk, now).unwrap();
    b.engine.set_udp_addr(hb, a.addr);
    let (ha, handshake) = until_handshake(&mut a, &mut b, now);
    assert_eq!(status_name(&b, hb), "CookieRequesting");
    // b was still asking for a cookie; it uses the one that came with the packet
    assert_eq!(b.engine.handle_crypto_handshake(&handshake, Endpoint::Udp(a.addr), now), Ok(hb));
    assert_eq!(status_name(&b, hb), "NotConfirmed");
    let out = b.engine.tick(now).outgoing;
    for outgoing in out.iter() {
        a.engine.handle_packet(&outgoing.packet, Endpoint::Udp(b.addr), now);
    }
    assert_eq!(status_name(&a, ha), "Established");
    for outgoing in a.engine.tick(now).outgoing.iter() {
        b.engine.handle_packet(&outgoing.packet, Endpoint::Udp(a.addr), now);
    }
    assert_eq!(status_name(&b, hb), "Established");
    let packets = b.engine.send(hb, b"hi".to_vec(), now).unwrap();
    for outgoing in packets.iter() {
        a.engine.handle_packet(&outgoing.packet, Endpoint::Udp(b.addr), now);
    }
    assert_eq!(a.engine.poll_recv(ha), Some(b"hi".to_vec()));
}

#[test]
fn data_of_unknown_peers_is_dropped() {
    let mut a = node(1);
    let b = node(2);
    let now = at_millis(0);
    a.engine.connect(b.real_pk, b.dht_pk, now).unwrap();
    let before = a.engine.clone();
    let packet = CryptoData { nonce_last_bytes: 1, payload: vec![1; 40] };
    assert_eq!(a.engine.handle_crypto_data(&packet, Endpoint::Udp(b.addr), now), Err(Error::Decrypt));
    let handled = a.engine.handle_packet(&Packet::CryptoData(packet), Endpoint::Udp(b.addr), now);
    assert_eq!(handled.handle, None);
    assert!(handled.outgoing.is_empty());
    assert_eq!(a.engine, before);
}

#[test]
fn closing_forgets_the_connection() {
    let mut a = node(1);
    let mut b = node(2);
    let now = at_millis(0);
    b.engine.allow_peer(a.real_pk);
    let (ha, handshake) = until_handshake(&mut a, &mut b, now);
    let hb = b.engine.handle_crypto_handshake(&handshake, Endpoint::Udp(a.addr), now).unwrap();
    for outgoing in b.engine.tick(now).outgoing.iter() {
        a.engine.handle_packet(&outgoing.packet, Endpoint::Udp(b.addr), now);
    }
    let data = a.engine.send(ha, b"data".to_vec(), now).unwrap();

    assert!(b.engine.close(hb));
    assert!(!b.engine.close(hb));
    assert_eq!(b.engine.connection(hb), None);
    assert_eq!(b.engine.poll_recv(hb), None);
    assert_eq!(b.engine.send(hb, b"x".to_vec(), now), Err(Error::NotEstablished));
    // nothing is sent for it any more
    assert!(b.engine.tick(at_millis(5_000)).outgoing.is_empty());
    // packets on their way do not bring it back
    for outgoing in data.iter() {
        assert_eq!(b.engine.handle_packet(&outgoing.packet, Endpoint::Udp(a.addr), now).handle, None);
    }
    assert_eq!(b.engine.connection(hb), None);
    assert!(b.engine.entries.is_empty());
    // a new connection to the same peer gets a new handle
    let again = b.engine.connect(a.real_pk, a.dht_pk, now).unwrap();
    assert_ne!(again, hb);
}

#[test]
fn timer_drives_data_over_an_established_connection() {
    let mut a = node(1);
    let mut b = node(2);
    b.engine.allow_peer(a.real_pk);
    let (ha, handshake) = until_handshake(&mut a, &mut b, at_millis(0));
    let hb = b.engine.handle_crypto_handshake(&handshake, Endpoint::Udp(a.addr), at_millis(0)).unwrap();
    for outgoing in b.engine.tick(at_millis(0)).outgoing.iter() {
        a.engine.handle_packet(&outgoing.packet, Endpoint::Udp(b.addr), at_millis(0));
    }
    for outgoing in a.engine.tick(at_millis(0)).outgoing.iter() {
        b.engine.handle_packet(&outgoing.packet, Endpoint::Udp(a.addr), at_millis(0));
    }
    assert_eq!(status_name(&a, ha), "Established");
    assert_eq!(status_name(&b, hb), "Established");

    // the second of three pieces is lost
    let m0 = a.engine.send(ha, b"m0".to_vec(), at_millis(10)).unwrap();
    let _m1 = a.engine.send(ha, b"m1".to_vec(), at_millis(10)).unwrap();
    let m2 = a.engine.send(ha, b"m2".to_vec(), at_millis(10)).unwrap();
    for outgoing in m0.iter().chain(m2.iter()) {
        let handled = b.engine.handle_crypto_data(
            match &outgoing.packet {
                Packet::CryptoData(data) => data,
                other => panic!("not a data packet: {:?}", other),
            },
            Endpoint::Udp(a.addr),
            at_millis(20),
        );
        assert_eq!(handled, Ok((hb, DataKind::Data)));
    }
    assert_eq!(b.engine.poll_recv(hb), Some(b"m0".to_vec()));
    assert_eq!(b.engine.poll_recv(hb), None);

    // the timers on both sides mend it: the request of b confirms the first
    // piece, which was 40 ms on its way, and asks for the second, which is
    // that old as well
    let mut millis = 50;
    let mut got = Vec::new();
    while millis <= 3_000 && got.len() < 2 {
        let now = at_millis(millis);
        for outgoing in b.engine.tick(now).outgoing.iter() {
            a.engine.handle_packet(&outgoing.packet, Endpoint::Udp(b.addr), now);
        }
        for outgoing in a.engine.tick(now).outgoing.iter() {
            b.engine.handle_packet(&outgoing.packet, Endpoint::Udp(a.addr), now);
        }
        while let Some(piece) = b.engine.poll_recv(hb) {
            got.push(piece);
        }
        millis += 50;
    }
    assert_eq!(got, vec![b"m1".to_vec(), b"m2".to_vec()]);
    assert_eq!(millis, 100);
    assert_eq!(a.engine.connection(ha).unwrap().rtt, Duration::from_millis(40));
    assert_eq!(a.engine.connection(ha).unwrap().packets_resent, 1);
    // everything is confirmed in the end
    for _ in 0..3 {
        let now = at_millis(millis + 1_000);
        for outgoing in b.engine.tick(now).outgoing.iter() {
            a.engine.handle_packet(&outgoing.packet, Endpoint::Udp(b.addr), now);
        }
        millis += 1_000;
    }
    assert_eq!(a.engine.connection(ha).unwrap().send_array.len(), 0);
    assert_eq!(a.engine.connection(ha).unwrap().send_array.buffer_start, 3);
}

#[test]
fn packets_are_addressed_to_each_way() {
    let mut out = vec![];
    let packet = Packet::CryptoData(CryptoData { nonce_last_bytes: 1, payload: vec![2] });
    let v4 = SocketAddr { ip: IpAddr::V4(Ipv4Addr::new(1, 2, 3, 4)), port: 5 };
    let ways = vec![
        Endpoint::Udp(v4),
        Endpoint::TcpRelay { relay_id: 1, dest_dht_pk: PublicKey([1; 32]) },
    ];
    address(&mut out, &ways, &packet);
    address(&mut out, &vec![], &packet);
    address(&mut out, &vec![Endpoint::Udp(v4)], &packet);
    assert_eq!(
        out,
        vec![
            Outgoing { endpoint: ways[0], packet: packet.clone() },
            Outgoing { endpoint: ways[1], packet: packet.clone() },
            Outgoing { endpoint: ways[0], packet: packet.clone() },
        ]
    );
    let _ = gen_nonce();
}
