use hyper_function_core::server_transport::{
    Packet, PacketAck, PacketClose, PacketMessage, PacketOpen, PacketPing, PacketPong,
    PacketRedirect, PacketReset, PacketRetry, Transport,
};

fn round_trip(p: &Packet) -> Packet {
    let bytes = Transport::encode_packet(p);
    let (q, end) = Transport::parse_packet(&bytes, 0).expect("packet should read back");
    assert_eq!(end, bytes.len());
    q
}

#[test]
fn open_frame_bytes() {
    assert_eq!(Transport::encode_open_packet(25, 20), vec![0x01, 0x19, 0x14]);
}

#[test]
fn ping_and_close_frame_bytes() {
    assert_eq!(Transport::encode_ping_packet(), vec![0x06]);
    assert_eq!(Transport::encode_close_packet("bye"), vec![0x05, 0xa3, b'b', b'y', b'e']);
    assert_eq!(Transport::encode_message_packet(&[1, 2]), vec![0x08, 1, 2]);
}

#[test]
fn every_variant_round_trips() {
    match round_trip(&Packet::OPEN(PacketOpen { ping_interval: 25, ping_timeout: 20 })) {
        Packet::OPEN(o) => {
            assert_eq!(o.ping_interval, 25);
            assert_eq!(o.ping_timeout, 20);
        }
        _ => panic!("expected OPEN"),
    }
    match round_trip(&Packet::RETRY(PacketRetry { delay: 3 })) {
        Packet::RETRY(r) => assert_eq!(r.delay, 3),
        _ => panic!("expected RETRY"),
    }
    match round_trip(&Packet::RESET(PacketReset { delay: 4 })) {
        Packet::RESET(r) => assert_eq!(r.delay, 4),
        _ => panic!("expected RESET"),
    }
    match round_trip(&Packet::REDIRECT(PacketRedirect { delay: 5, target: "wss://é".to_string() })) {
        Packet::REDIRECT(r) => {
            assert_eq!(r.delay, 5);
            assert_eq!(r.target, "wss://é");
        }
        _ => panic!("expected REDIRECT"),
    }
    match round_trip(&Packet::CLOSE(PacketClose { reason: "no reason".to_string() })) {
        Packet::CLOSE(c) => assert_eq!(c.reason, "no reason"),
        _ => panic!("expected CLOSE"),
    }
    assert!(matches!(round_trip(&Packet::PING(PacketPing {})), Packet::PING(_)));
    assert!(matches!(round_trip(&Packet::PONG(PacketPong {})), Packet::PONG(_)));
    let long_payload: Vec<u8> = (0..300u32).map(|i| (i % 256) as u8).collect();
    let msg = PacketMessage {
        id: -70000,
        pkg_id: 40000,
        headers: vec![b"k".to_vec(), b"v".to_vec(), vec![b'x'; 40], vec![]],
        payload: long_payload.clone(),
    };
    match round_trip(&Packet::MESSAGE(msg)) {
        Packet::MESSAGE(m) => {
            assert_eq!(m.id, -70000);
            assert_eq!(m.pkg_id, 40000);
            assert_eq!(m.headers, vec![b"k".to_vec(), b"v".to_vec(), vec![b'x'; 40], vec![]]);
            assert_eq!(m.payload, long_payload);
        }
        _ => panic!("expected MESSAGE"),
    }
    match round_trip(&Packet::ACK(PacketAck { id: -1, pkg_id: 200 })) {
        Packet::ACK(a) => {
            assert_eq!(a.id, -1);
            assert_eq!(a.pkg_id, 200);
        }
        _ => panic!("expected ACK"),
    }
}

#[test]
fn encoding_matches_rmp_framing() {
    let msg = PacketMessage {
        id: 7,
        pkg_id: 42,
        headers: vec![b"k".to_vec(), b"v".to_vec()],
        payload: vec![1, 2, 3],
    };
    let mut expected = Vec::new();
    rmp::encode::write_pfix(&mut expected, 8).unwrap();
    rmp::encode::write_sint(&mut expected, 7).unwrap();
    rmp::encode::write_sint(&mut expected, 42).unwrap();
    rmp::encode::write_map_len(&mut expected, 1).unwrap();
    rmp::encode::write_str(&mut expected, "k").unwrap();
    rmp::encode::write_str(&mut expected, "v").unwrap();
    rmp::encode::write_bin(&mut expected, &[1, 2, 3]).unwrap();
    assert_eq!(Transport::encode_packet(&Packet::MESSAGE(msg)), expected);
}

#[test]
fn several_packets_in_one_frame() {
    let mut frame = Transport::encode_packet(&Packet::PING(PacketPing {}));
    frame.extend(Transport::encode_packet(&Packet::ACK(PacketAck { id: 1, pkg_id: 2 })));
    frame.extend(Transport::encode_packet(&Packet::CLOSE(PacketClose { reason: "x".to_string() })));
    let packets = Transport::parse_frame(&frame);
    assert_eq!(packets.len(), 3);
    assert!(matches!(packets[0], Packet::PING(_)));
    assert!(matches!(packets[1], Packet::ACK(PacketAck { id: 1, pkg_id: 2 })));
    match &packets[2] {
        Packet::CLOSE(c) => assert_eq!(c.reason, "x"),
        _ => panic!("expected CLOSE"),
    }
}

#[test]
fn unknown_tag_stops_the_frame() {
    let packets = Transport::parse_frame(&[6, 99, 7]);
    assert_eq!(packets.len(), 1);
    assert!(matches!(packets[0], Packet::PING(_)));
    let packets = Transport::parse_frame(&[6, 7, 99, 7]);
    assert_eq!(packets.len(), 2);
    assert!(matches!(packets[0], Packet::PING(_)));
    assert!(matches!(packets[1], Packet::PONG(_)));
}

#[test]
fn ping_then_cut_message_yields_the_ping_alone() {
    // 8 opens a MESSAGE here; 99 and 7 are its two ids and the map length is missing.
    let packets = Transport::parse_frame(&[6, 8, 99, 7]);
    assert_eq!(packets.len(), 1);
    assert!(matches!(packets[0], Packet::PING(_)));
}

#[test]
fn truncated_frames_yield_a_prefix() {
    let mut frame = Transport::encode_packet(&Packet::ACK(PacketAck { id: 300, pkg_id: 2 }));
    let first = frame.len();
    frame.extend(Transport::encode_packet(&Packet::CLOSE(PacketClose { reason: "abc".to_string() })));
    for cut in 0..=frame.len() {
        let packets = Transport::parse_frame(&frame[..cut]);
        let expected = if cut == frame.len() { 2 } else if cut >= first { 1 } else { 0 };
        assert_eq!(packets.len(), expected, "cut at {}", cut);
    }
}

#[test]
fn invalid_utf8_close_is_refused() {
    let packets = Transport::parse_frame(&[6, 5, 0xa2, 0xff, 0xfe]);
    assert_eq!(packets.len(), 1);
    assert!(Transport::parse_packet(&[5, 0xa2, 0xff, 0xfe], 0).is_none());
}

#[test]
fn wide_integers_are_read() {
    // ACK with an i32 id (0xd2) and a u16 package id (0xcd).
    let data = [9, 0xd2, 0xff, 0xff, 0x00, 0x00, 0xcd, 0x01, 0x00];
    match Transport::parse_packet(&data, 0) {
        Some((Packet::ACK(a), end)) => {
            assert_eq!(a.id, -65536);
            assert_eq!(a.pkg_id, 256);
            assert_eq!(end, data.len());
        }
        _ => panic!("expected ACK"),
    }
    // A u32 above i32::MAX does not fit.
    assert!(Transport::parse_packet(&[9, 0xce, 0x80, 0, 0, 0, 1], 0).is_none());
    // A short field is refused.
    assert!(Transport::parse_packet(&[9, 0xcd, 0x01], 0).is_none());
    // OPEN fields must be positive fixints.
    assert!(Transport::parse_packet(&[1, 0xcc, 0x80, 1], 0).is_none());
}

#[test]
fn truncated_payload_is_refused() {
    // MESSAGE whose bin claims 3 bytes but holds 2.
    assert!(Transport::parse_packet(&[8, 1, 2, 0x80, 0xc4, 3, 1, 2], 0).is_none());
    assert!(Transport::parse_packet(&[8, 1, 2, 0x80, 0xc4, 2, 1, 2], 0).is_some());
}
