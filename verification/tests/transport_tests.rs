use mobile_worship::tcp::{encode_frame, handle_frame, expect_register, parse_frame_len,
    ConnectAction, TcpAction, TcpMessage, TcpP2pManager, DATA_FRAME_LIMIT, REGISTER_FRAME_LIMIT};
use mobile_worship::types::{PeerInfo, PeerType};

fn peer_entry(id: u128, name: &str) -> PeerInfo {
    PeerInfo {
        id,
        peer_type: PeerType::Display,
        display_name: name.to_string(),
        is_connected: true,
        is_leader: false,
    }
}

#[test]
fn frame_round_trip_preserves_bytes() {
    // One side frames "hello"; the other reads the header and finds exactly
    // the same bytes behind it.
    let payload = b"hello".to_vec();
    let frame = encode_frame(&payload);
    assert_eq!(frame.len(), payload.len() + 4);
    let declared = parse_frame_len(&frame[..4]);
    assert_eq!(declared as usize, payload.len());
    assert_eq!(&frame[4..], &payload[..]);
}

#[test]
fn frame_header_is_big_endian() {
    let payload = vec![0u8; 0x0102];
    let frame = encode_frame(&payload);
    assert_eq!(&frame[..4], &[0x00, 0x00, 0x01, 0x02]);
    assert_eq!(parse_frame_len(&[0x01, 0x02, 0x03, 0x04]), 0x01020304);
}

#[test]
fn frame_limits_match_protocol() {
    assert_eq!(REGISTER_FRAME_LIMIT, 10000);
    assert_eq!(DATA_FRAME_LIMIT, 10_000_000);
}

#[test]
fn duplex_loop_dispatches_frames() {
    // A data frame reaches the message callback with its text unchanged.
    match handle_frame(TcpMessage::Data { message: "hello".to_string() }) {
        TcpAction::Deliver { message } => assert_eq!(message, "hello"),
        other => panic!("expected Deliver, got {:?}", other),
    }
    assert!(matches!(handle_frame(TcpMessage::Ping), TcpAction::SendPong));
    assert!(matches!(handle_frame(TcpMessage::Pong), TcpAction::Ignore));
    assert!(matches!(handle_frame(TcpMessage::Register { peer_id: 1 }), TcpAction::Ignore));
}

#[test]
fn first_frame_must_register() {
    assert_eq!(expect_register(&TcpMessage::Register { peer_id: 9 }).unwrap(), 9);
    assert!(expect_register(&TcpMessage::Ping).is_err());
    assert!(expect_register(&TcpMessage::Data { message: "x".to_string() }).is_err());
}

#[test]
fn connect_is_idempotent() {
    let mut mgr = TcpP2pManager::new(1, 3011);
    assert_eq!(mgr.connect_to_peer(2, peer_entry(2, "D")), ConnectAction::OpenAndRegister);
    assert_eq!(mgr.connect_to_peer(2, peer_entry(2, "D")), ConnectAction::AlreadyConnected);
    assert!(mgr.is_connected(2));
    assert_eq!(mgr.get_connected_peers().len(), 1);
}

#[test]
fn send_message_fails_only_when_not_connected() {
    let mut mgr = TcpP2pManager::new(1, 0);
    assert!(mgr.send_message(2, "hello".to_string()).is_err());
    mgr.register_inbound(2, peer_entry(2, "D"));
    assert_eq!(mgr.send_message(2, "hello".to_string()).unwrap(), "hello");
}

#[test]
fn disconnect_fires_exactly_once_and_clears_registry() {
    let mut mgr = TcpP2pManager::new(1, 0);
    mgr.register_inbound(2, peer_entry(2, "D"));
    mgr.register_inbound(3, peer_entry(3, "E"));
    assert!(mgr.is_connected(2));
    // First disconnect reports the removal; a repeat finds nothing, so the
    // disconnected callback can fire exactly once.
    assert!(mgr.disconnect(2));
    assert!(!mgr.disconnect(2));
    assert!(!mgr.is_connected(2));
    assert!(mgr.is_connected(3));
    let peers = mgr.get_connected_peers();
    assert_eq!(peers.len(), 1);
    assert_eq!(peers[0].id, 3);
}

#[test]
fn broadcast_addresses_every_connection() {
    let mut mgr = TcpP2pManager::new(1, 0);
    mgr.register_inbound(2, peer_entry(2, "D"));
    mgr.register_inbound(3, peer_entry(3, "E"));
    let sends = mgr.broadcast("update".to_string());
    assert_eq!(sends.len(), 2);
    assert_eq!(sends[0].0, 2);
    assert_eq!(sends[1].0, 3);
    assert!(sends.iter().all(|(_, m)| m == "update"));
}

#[test]
fn set_my_info_keeps_identity() {
    let mut mgr = TcpP2pManager::new(77, 3011);
    mgr.set_my_info(peer_entry(77, "Me"));
    assert_eq!(mgr.my_peer_id, 77);
    assert_eq!(mgr.server_port, 3011);
}

#[test]
fn wire_body_is_the_json_the_protocol_speaks() {
    let body = mobile_worship::tcp::encode_tcp_message(&TcpMessage::Data {
        message: "say \"hi\"\\\n".to_string(),
    });
    let value: serde_json::Value = serde_json::from_slice(&body).expect("valid JSON");
    assert_eq!(value["Data"]["message"], "say \"hi\"\\\n");

    let body = mobile_worship::tcp::encode_tcp_message(&TcpMessage::Register { peer_id: 0xAB });
    let value: serde_json::Value = serde_json::from_slice(&body).expect("valid JSON");
    assert_eq!(value["Register"]["peer_id"], "00000000-0000-0000-0000-0000000000ab");

    let body = mobile_worship::tcp::encode_tcp_message(&TcpMessage::Ping);
    assert_eq!(body, b"\"Ping\"".to_vec());
    let body = mobile_worship::tcp::encode_tcp_message(&TcpMessage::Pong);
    assert_eq!(body, b"\"Pong\"".to_vec());
}

#[test]
fn wire_body_round_trips_through_the_decoder() {
    let cases = vec![
        TcpMessage::Ping,
        TcpMessage::Pong,
        TcpMessage::Register { peer_id: 0x0123456789abcdef0123456789abcdef },
        TcpMessage::Data { message: "hello".to_string() },
        TcpMessage::Data { message: "say \"hi\"\\ and\tgo\n".to_string() },
        TcpMessage::Data { message: String::new() },
    ];
    for m in cases {
        let body = mobile_worship::tcp::encode_tcp_message(&m);
        let back = mobile_worship::tcp::decode_tcp_message(&body).expect("canonical body decodes");
        match (&m, &back) {
            (TcpMessage::Ping, TcpMessage::Ping) => {}
            (TcpMessage::Pong, TcpMessage::Pong) => {}
            (TcpMessage::Register { peer_id: a }, TcpMessage::Register { peer_id: b }) => {
                assert_eq!(a, b)
            }
            (TcpMessage::Data { message: a }, TcpMessage::Data { message: b }) => {
                assert_eq!(a, b)
            }
            other => panic!("round trip changed the message: {:?}", other),
        }
    }
}

#[test]
fn decoder_rejects_noncanonical_bodies() {
    assert!(mobile_worship::tcp::decode_tcp_message(b"").is_none());
    assert!(mobile_worship::tcp::decode_tcp_message(b"\"Ringo\"").is_none());
    assert!(mobile_worship::tcp::decode_tcp_message(b"{\"Data\":{\"message\":\"unterminated}}").is_none());
    assert!(mobile_worship::tcp::decode_tcp_message(b"{\"Data\":{\"message\":\"bad\\q\"}}").is_none());
    assert!(mobile_worship::tcp::decode_tcp_message(
        b"{\"Register\":{\"peer_id\":\"not-a-uuid-at-all-not-a-uuid-at-all-\"}}").is_none());
}
