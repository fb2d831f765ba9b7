use hyper_function_core::gateway::Gateway;
use hyper_function_core::gateway_transport::{
    Packet, PacketAck, PacketClose, PacketMessage, PacketOpen, PacketPing, PacketPong,
    PacketRedirect, PacketRetry, Transport,
};
use hyper_function_core::socket::Tick;
use hyper_function_core::{send_message, Route};

fn round_trip(p: &Packet) -> Packet {
    let bytes = Transport::encode_packet(p);
    let (q, end) = Transport::parse_packet(&bytes, 0).expect("packet should read back");
    assert_eq!(end, bytes.len());
    q
}

fn dev_message(pkg_id: i32, socket_id: &str, payload: &[u8]) -> Vec<u8> {
    let mut data = Vec::new();
    rmp::encode::write_pfix(&mut data, 12).unwrap();
    rmp::encode::write_sint(&mut data, 1).unwrap();
    rmp::encode::write_sint(&mut data, pkg_id as i64).unwrap();
    rmp::encode::write_map_len(&mut data, 0).unwrap();
    rmp::encode::write_bin(&mut data, payload).unwrap();
    rmp::encode::write_str(&mut data, socket_id).unwrap();
    rmp::encode::write_pfix(&mut data, 0).unwrap();
    data
}

#[test]
fn dev_every_variant_round_trips() {
    match round_trip(&Packet::OPEN(PacketOpen {
        ping_interval: 10,
        ping_timeout: 5,
        compress_size: 4,
        compress_method: 1,
    })) {
        Packet::OPEN(o) => {
            assert_eq!((o.ping_interval, o.ping_timeout, o.compress_size, o.compress_method), (10, 5, 4, 1));
        }
        _ => panic!("expected OPEN"),
    }
    match round_trip(&Packet::CLOSE(PacketClose { reason: "bye".to_string() })) {
        Packet::CLOSE(c) => assert_eq!(c.reason, "bye"),
        _ => panic!("expected CLOSE"),
    }
    assert!(matches!(round_trip(&Packet::PING(PacketPing {})), Packet::PING(_)));
    assert!(matches!(round_trip(&Packet::PONG(PacketPong {})), Packet::PONG(_)));
    match round_trip(&Packet::RETRY(PacketRetry { delay: 9 })) {
        Packet::RETRY(r) => assert_eq!(r.delay, 9),
        _ => panic!("expected RETRY"),
    }
    match round_trip(&Packet::REDIRECT(PacketRedirect { delay: 1, target: "ws://x".to_string() })) {
        Packet::REDIRECT(r) => {
            assert_eq!(r.delay, 1);
            assert_eq!(r.target, "ws://x");
        }
        _ => panic!("expected REDIRECT"),
    }
    let msg = PacketMessage {
        id: 3,
        pkg_id: -4,
        headers: vec![b"a".to_vec(), b"1".to_vec()],
        payload: vec![9; 70000],
        socket_id: b"sock".to_vec(),
        compress: 1,
    };
    match round_trip(&Packet::MESSAGE(msg)) {
        Packet::MESSAGE(m) => {
            assert_eq!((m.id, m.pkg_id, m.compress), (3, -4, 1));
            assert_eq!(m.headers, vec![b"a".to_vec(), b"1".to_vec()]);
            assert_eq!(m.payload, vec![9; 70000]);
            assert_eq!(m.socket_id, b"sock".to_vec());
        }
        _ => panic!("expected MESSAGE"),
    }
    match round_trip(&Packet::ACK(PacketAck { id: 2, pkg_id: 3 })) {
        Packet::ACK(a) => assert_eq!((a.id, a.pkg_id), (2, 3)),
        _ => panic!("expected ACK"),
    }
}

#[test]
fn dev_frame_splits_and_stops_at_unknown_tag() {
    let mut frame = Transport::encode_packet(&Packet::PING(PacketPing {}));
    frame.extend(dev_message(5, "s1", b"hi"));
    frame.push(1);
    frame.push(8);
    let packets = Transport::parse_frame(&frame);
    assert_eq!(packets.len(), 2);
    assert!(matches!(packets[0], Packet::PING(_)));
    assert!(matches!(packets[1], Packet::MESSAGE(_)));
}

#[test]
fn dev_message_round_trip_through_host() {
    let mut gateway = Gateway::new(0);
    let to_host = gateway.on_frame(&dev_message(5, "s1", b"hi"), 1);
    assert_eq!(to_host.len(), 1);
    let mut expected = Vec::new();
    rmp::encode::write_sint(&mut expected, 5).unwrap();
    rmp::encode::write_map_len(&mut expected, 0).unwrap();
    rmp::encode::write_bin(&mut expected, b"hi").unwrap();
    rmp::encode::write_str(&mut expected, "s1").unwrap();
    assert_eq!(to_host[0], expected);

    match send_message(true, false, "s1".to_string(), b"hi".to_vec()) {
        Route::Uplink { socket_id, payload } => {
            let frame = Gateway::uplink_frame(&socket_id, &payload);
            match Transport::parse_packet(&frame, 0) {
                Some((Packet::MESSAGE(m), end)) => {
                    assert_eq!(end, frame.len());
                    assert_eq!(m.socket_id, b"s1".to_vec());
                    assert_eq!(m.payload, b"hi".to_vec());
                    assert_eq!(m.compress, 0);
                }
                _ => panic!("expected MESSAGE"),
            }
        }
        _ => panic!("expected the uplink route"),
    }
}

#[test]
fn relay_open_sets_intervals() {
    let mut gateway = Gateway::new(0);
    assert_eq!((gateway.settings.ping_interval, gateway.settings.ping_timeout), (25, 20));
    let out = gateway.on_frame(&[6, 10, 5, 2, 1, 9], 3);
    assert!(out.is_empty());
    let s = gateway.settings;
    assert_eq!((s.ping_interval, s.ping_timeout, s.compress_size, s.compress_method), (10, 5, 2, 1));
    assert_eq!(gateway.last_heartbeat, 3);
}

#[test]
fn uplink_heartbeat_follows_relay_intervals() {
    let mut gateway = Gateway::new(0);
    gateway.on_frame(&[6, 2, 1, 0, 0], 10);
    assert!(gateway.on_tick(13) == Tick::Ping);
    assert!(gateway.on_tick(14) == Tick::Close);
    gateway.on_frame(&[9], 14);
    assert!(gateway.on_tick(14) == Tick::Ping);
    // a frame that yields nothing still counts as a heartbeat
    gateway.on_frame(&[99], 20);
    assert_eq!(gateway.last_heartbeat, 20);
    assert!(gateway.on_tick(23) == Tick::Ping);
    assert_eq!(Gateway::ping_frame(), vec![8]);
}

#[test]
fn uplink_query_is_form_encoded_in_order() {
    assert_eq!(
        Gateway::uplink_query("u1", "app&1", "0.1.0", "node js"),
        "usid=u1&appid=app%261&ver=0.1.0&sdk=node+js"
    );
}
