use hyper_function_core::socket::{
    Action, ActionSendMessage, ActionSendPing, Phase, Session, Socket, Tick, PING_INTERVAL,
    PING_TIMEOUT,
};
use hyper_function_core::server_transport::PacketMessage;

const SOCKET_ID: &str = "01HZY3M8Q6W2N4P5R7T9V0X1YZ";

fn str_bytes(s: &[u8]) -> Vec<u8> {
    let mut out = Vec::new();
    rmp::encode::write_str_len(&mut out, s.len() as u32).unwrap();
    out.extend_from_slice(s);
    out
}

#[test]
fn accept_sends_open_first() {
    let (session, action) = Session::accept(1000);
    assert!(session.phase == Phase::Opening);
    assert_eq!(session.last_heartbeat, 1000);
    assert_eq!(session.ping_interval, 25);
    assert_eq!(session.ping_timeout, 20);
    assert_eq!(action.frame(), Some(vec![0x01, 0x19, 0x14]));
}

#[test]
fn sink_frames_for_actions() {
    assert_eq!(Action::SendPing(ActionSendPing {}).frame(), Some(vec![0x06]));
    assert_eq!(
        Action::SendMessage(ActionSendMessage { payload: vec![1, 2, 3] }).frame(),
        Some(vec![0x08, 1, 2, 3])
    );
    assert_eq!(Action::Close.frame(), None);
}

#[test]
fn message_is_echoed_to_host_with_socket_id() {
    let (mut session, _) = Session::accept(10);
    let mut frame = vec![0x08, 0x07, 0x2a, 0x81];
    frame.extend(str_bytes(b"k"));
    frame.extend(str_bytes(b"v"));
    frame.extend([0xc4, 3, 1, 2, 3]);
    let out = session.on_frame(SOCKET_ID, &frame, 12);
    assert!(!out.close);
    assert_eq!(out.to_host.len(), 1);
    let mut expected = vec![0x2a, 0x81];
    expected.extend(str_bytes(b"k"));
    expected.extend(str_bytes(b"v"));
    expected.extend([0xc4, 3, 1, 2, 3]);
    expected.extend(str_bytes(SOCKET_ID.as_bytes()));
    assert_eq!(out.to_host[0], expected);
    assert!(session.phase == Phase::Live);
    assert_eq!(session.last_heartbeat, 12);
}

#[test]
fn encode_message_for_host() {
    let msg = PacketMessage { id: 1, pkg_id: 5, headers: vec![], payload: b"hi".to_vec() };
    let bytes = Socket::encode_message("s", msg);
    assert_eq!(bytes, vec![0x05, 0x80, 0xc4, 2, b'h', b'i', 0xa1, b's']);
}

#[test]
fn close_packet_shuts_session() {
    let (mut session, _) = Session::accept(0);
    let out = session.on_frame(SOCKET_ID, &[0x07, 0x05, 0xa0], 1);
    assert!(out.close);
    assert!(out.to_host.is_empty());
    assert!(session.phase == Phase::Closing);
    let out = session.on_frame(SOCKET_ID, &[0x07], 2);
    assert!(out.close);
    assert_eq!(session.last_heartbeat, 1);
}

#[test]
fn undecodable_frame_is_still_a_heartbeat() {
    let (mut session, _) = Session::accept(5);
    let out = session.on_frame(SOCKET_ID, &[0x63], 9);
    assert!(!out.close);
    assert!(out.to_host.is_empty());
    assert!(session.phase == Phase::Opening);
    assert_eq!(session.last_heartbeat, 9);
}

#[test]
fn malformed_frames_every_second_keep_session_alive() {
    let (mut session, _) = Session::accept(0);
    session.ping_interval = 1;
    session.ping_timeout = 1;
    for t in 1..10u64 {
        session.on_frame(SOCKET_ID, &[0xff], t);
        assert!(session.on_tick(t) == Tick::Ping);
    }
    assert_eq!(session.last_heartbeat, 9);
}

#[test]
fn idle_session_times_out() {
    let (mut session, _) = Session::accept(100);
    let limit = 100 + PING_INTERVAL as u64 + PING_TIMEOUT as u64;
    assert!(session.on_tick(125) == Tick::Ping);
    assert!(session.on_tick(limit) == Tick::Ping);
    assert!(session.phase == Phase::Opening);
    assert!(session.on_tick(limit + 1) == Tick::Close);
    assert!(session.phase == Phase::Closing);
    session.finish();
    assert!(session.phase == Phase::Closed);
    assert!(session.on_tick(limit + 2) == Tick::Close);
}

#[test]
fn frames_every_interval_keep_session_alive() {
    let (mut session, _) = Session::accept(0);
    session.ping_interval = 1;
    session.ping_timeout = 1;
    for t in 1..100u64 {
        assert!(session.on_tick(t) == Tick::Ping);
        session.on_frame(SOCKET_ID, &[0x07], t);
    }
    assert!(session.phase == Phase::Live);
    assert!(session.on_tick(101) == Tick::Ping);
    assert!(session.on_tick(102) == Tick::Close);
}

#[test]
fn sink_error_closes() {
    let (mut session, _) = Session::accept(0);
    session.on_sink_error();
    assert!(session.phase == Phase::Closing);
}

#[test]
fn heartbeat_never_moves_back() {
    let (mut session, _) = Session::accept(50);
    session.on_frame(SOCKET_ID, &[0x07], 40);
    assert_eq!(session.last_heartbeat, 50);
    assert!(session.phase == Phase::Live);
}
