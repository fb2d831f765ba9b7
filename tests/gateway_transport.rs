use hyper_function_core::gateway_transport::{Packet, PacketMessage, Transport};

#[test]
fn decode_packet_open() {
    let mut data = Vec::new();
    // packet message
    rmp::encode::write_pfix(&mut data, 6).unwrap();
    rmp::encode::write_pfix(&mut data, 25).unwrap();
    rmp::encode::write_pfix(&mut data, 20).unwrap();
    rmp::encode::write_pfix(&mut data, 0).unwrap();
    rmp::encode::write_pfix(&mut data, 0).unwrap();

    let (packet, _) = Transport::parse_packet(&data, 0).expect("parse packet open failed");
    match packet {
        Packet::OPEN(packet) => {
            assert_eq!(packet.ping_interval, 25);
            assert_eq!(packet.ping_timeout, 20);
            assert_eq!(packet.compress_size, 0);
            assert_eq!(packet.compress_method, 0);
        }
        _ => panic!("parse packet open failed"),
    }
}

#[test]
fn decode_packet_close() {
    let mut data = Vec::new();
    // packet message
    rmp::encode::write_pfix(&mut data, 7).unwrap();
    rmp::encode::write_str(&mut data, "no reason").unwrap();

    let (packet, _) = Transport::parse_packet(&data, 0).expect("parse packet close failed");
    match packet {
        Packet::CLOSE(packet) => {
            assert_eq!(packet.reason, "no reason");
        }
        _ => panic!("parse packet open failed"),
    }
}

#[test]
fn decode_packet_ping() {
    let mut data = Vec::new();
    // packet message
    rmp::encode::write_pfix(&mut data, 8).unwrap();

    let (packet, _) = Transport::parse_packet(&data, 0).expect("parse packet ping failed");
    match packet {
        Packet::PING(_packet) => {}
        _ => panic!("parse packet ping failed"),
    }
}

#[test]
fn decode_packet_pong() {
    let mut data = Vec::new();
    // packet message
    rmp::encode::write_pfix(&mut data, 9).unwrap();

    let (packet, _) = Transport::parse_packet(&data, 0).expect("parse packet pong failed");
    match packet {
        Packet::PONG(_packet) => {}
        _ => panic!("parse packet pong failed"),
    }
}

#[test]
fn decode_packet_retry() {
    let mut data = Vec::new();
    // packet message
    rmp::encode::write_pfix(&mut data, 10).unwrap();
    rmp::encode::write_pfix(&mut data, 3).unwrap();

    let (packet, _) = Transport::parse_packet(&data, 0).expect("parse packet retry failed");
    match packet {
        Packet::RETRY(packet) => {
            assert_eq!(packet.delay, 3);
        }
        _ => panic!("parse packet retry failed"),
    }
}

#[test]
fn decode_packet_redirect() {
    let mut data = Vec::new();
    // packet message
    rmp::encode::write_pfix(&mut data, 11).unwrap();
    rmp::encode::write_pfix(&mut data, 6).unwrap();
    rmp::encode::write_str(&mut data, "123").unwrap();

    let (packet, _) = Transport::parse_packet(&data, 0).expect("parse packet redirect failed");
    match packet {
        Packet::REDIRECT(packet) => {
            assert_eq!(packet.delay, 6);
            assert_eq!(packet.target, "123");
        }
        _ => panic!("parse packet redirect failed"),
    }
}

#[test]
fn decode_packet_message() {
    let mut data = Vec::new();
    // packet message
    rmp::encode::write_pfix(&mut data, 12).unwrap();
    // message id
    rmp::encode::write_sint(&mut data, 1).unwrap();
    // package id
    rmp::encode::write_sint(&mut data, 2).unwrap();
    // headers
    rmp::encode::write_map_len(&mut data, 3).unwrap();
    rmp::encode::write_str(&mut data, "a").unwrap();
    rmp::encode::write_str(&mut data, "1").unwrap();
    rmp::encode::write_str(&mut data, "b").unwrap();
    rmp::encode::write_str(&mut data, "2").unwrap();
    rmp::encode::write_str(&mut data, "c").unwrap();
    rmp::encode::write_str(&mut data, "3").unwrap();
    // payload
    rmp::encode::write_bin(&mut data, &[0x01, 0x02, 0x03]).unwrap();
    // socket id
    rmp::encode::write_str(&mut data, "socketid:1").unwrap();
    // compress
    rmp::encode::write_pfix(&mut data, 0).unwrap();

    let (msg, _) = Transport::parse_packet(&data, 0).expect("parse packet message failed");
    match msg {
        Packet::MESSAGE(msg) => {
            assert_eq!(msg.id, 1);
            assert_eq!(msg.pkg_id, 2);
            assert_eq!(msg.headers.len(), 3 * 2);
            assert_eq!(msg.headers[0], "a".as_bytes());
            assert_eq!(msg.headers[1], "1".as_bytes());
            assert_eq!(msg.headers[2], "b".as_bytes());
            assert_eq!(msg.headers[3], "2".as_bytes());
            assert_eq!(msg.headers[4], "c".as_bytes());
            assert_eq!(msg.headers[5], "3".as_bytes());
            assert_eq!(msg.payload, vec![0x01, 0x02, 0x03]);
        }
        _ => panic!("should be message"),
    }
}

#[test]
fn decode_packet_message_with_no_headers() {
    let mut data = Vec::new();
    // packet message
    rmp::encode::write_pfix(&mut data, 12).unwrap();
    // message id
    rmp::encode::write_sint(&mut data, 1).unwrap();
    // package id
    rmp::encode::write_sint(&mut data, 2).unwrap();
    // headers
    rmp::encode::write_map_len(&mut data, 0).unwrap();
    // payload
    rmp::encode::write_bin(&mut data, &[0x01, 0x02, 0x03]).unwrap();
    // socket id
    rmp::encode::write_str(&mut data, "socketid:1").unwrap();
    // compress
    rmp::encode::write_pfix(&mut data, 0).unwrap();

    let (msg, _) = Transport::parse_packet(&data, 0).expect("parse packet message failed");
    match msg {
        Packet::MESSAGE(msg) => {
            assert_eq!(msg.id, 1);
            assert_eq!(msg.pkg_id, 2);
            assert_eq!(msg.headers.len(), 0);
            assert_eq!(msg.payload, vec![0x01, 0x02, 0x03]);
        }
        _ => panic!("should be message"),
    }
}

#[test]
fn decode_packet_message_with_three_message_mixin() {
    let mut data = Vec::new();
    // packet message
    rmp::encode::write_pfix(&mut data, 12).unwrap();
    // message id
    rmp::encode::write_sint(&mut data, 1).unwrap();
    // package id
    rmp::encode::write_sint(&mut data, 2).unwrap();
    // headers
    rmp::encode::write_map_len(&mut data, 0).unwrap();
    // payload
    rmp::encode::write_bin(&mut data, &[0x01, 0x02, 0x03]).unwrap();
    // socket id
    rmp::encode::write_str(&mut data, "socketid:1").unwrap();
    // compress
    rmp::encode::write_pfix(&mut data, 0).unwrap();

    let data = vec![data.as_slice(), data.as_slice(), data.as_slice()].concat();

    let mut msgs: Vec<PacketMessage> = Vec::new();
    let mut pos = 0usize;

    while pos < data.len() {
        let (msg, next) = Transport::parse_packet(&data, pos).unwrap();
        pos = next;
        match msg {
            Packet::MESSAGE(msg) => {
                msgs.push(msg);
            }
            _ => panic!("should be message"),
        }
    }

    assert_eq!(msgs.len(), 3);

    for msg in msgs {
        assert_eq!(msg.id, 1);
        assert_eq!(msg.pkg_id, 2);
        assert_eq!(msg.headers.len(), 0);
        assert_eq!(msg.payload, vec![0x01, 0x02, 0x03]);
    }
}

#[test]
fn decode_packet_ack() {
    let mut data = Vec::new();
    // packet message
    rmp::encode::write_pfix(&mut data, 13).unwrap();
    rmp::encode::write_pfix(&mut data, 3).unwrap();
    rmp::encode::write_pfix(&mut data, 8).unwrap();

    let (packet, _) = Transport::parse_packet(&data, 0).expect("parse packet ack failed");
    match packet {
        Packet::ACK(packet) => {
            assert_eq!(packet.id, 3);
            assert_eq!(packet.pkg_id, 8);
        }
        _ => panic!("parse packet ack failed"),
    }
}

#[test]
fn wrong_data_should_return_none() {
    let mut data = Vec::new();
    // packet ack
    rmp::encode::write_pfix(&mut data, 13).unwrap();
    rmp::encode::write_pfix(&mut data, 3).unwrap();
    // wrong type
    rmp::encode::write_str(&mut data, "bla").unwrap();

    let packet = Transport::parse_packet(&data, 0);
    assert_eq!(packet.is_none(), true);
}
