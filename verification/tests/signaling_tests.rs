use mobile_worship::signaling::{ClientAction, HubClient, RelayAction, SignalingServer};
use mobile_worship::peer::Peer;
use mobile_worship::types::{PeerInfo, PeerType, SignalingMessage};

fn member(id: u128, name: &str, leader: bool) -> PeerInfo {
    PeerInfo {
        id,
        peer_type: PeerType::Controller,
        display_name: name.to_string(),
        is_connected: true,
        is_leader: leader,
    }
}

#[test]
fn first_remote_registrant_leads_only_without_local_peer() {
    let mut hub = SignalingServer::new();
    let list = hub.handle_register(10, PeerType::Display, "D1".to_string());
    assert_eq!(list.len(), 1);
    assert!(list[0].is_leader);

    let mut hub2 = SignalingServer::new();
    hub2.set_local_peer(member(1, "Host", true));
    let list2 = hub2.handle_register(10, PeerType::Display, "D1".to_string());
    // Local peer first, then the registrant, which is not leader.
    assert_eq!(list2.len(), 2);
    assert_eq!(list2[0].id, 1);
    assert_eq!(list2[1].id, 10);
    assert!(!list2[1].is_leader);
}

#[test]
fn set_local_peer_takes_leadership_and_heads_the_list() {
    let mut hub = SignalingServer::new();
    hub.handle_register(10, PeerType::Display, "D1".to_string());
    let list = hub.set_local_peer(member(1, "Host", true));
    assert_eq!(hub.get_leader_id(), Some(1));
    assert_eq!(list.len(), 2);
    assert_eq!(list[0].id, 1);
    assert_eq!(list[1].id, 10);
}

#[test]
fn registered_messages_relay_to_their_target_only() {
    let mut hub = SignalingServer::new();
    hub.set_local_peer_id(1);
    hub.handle_register(10, PeerType::Display, "D1".to_string());

    // Data to a connected peer is forwarded verbatim.
    let data = SignalingMessage::Data {
        from_peer_id: 1,
        to_peer_id: 10,
        message: "hello".to_string(),
    };
    assert_eq!(hub.route_message(&data), RelayAction::DeliverTo { peer_id: 10 });

    // Data to an unknown peer is silently dropped.
    let stray = SignalingMessage::Data {
        from_peer_id: 1,
        to_peer_id: 99,
        message: "hello".to_string(),
    };
    assert_eq!(hub.route_message(&stray), RelayAction::Drop);

    // Negotiation addressed to the hosting process is handled locally.
    let offer = SignalingMessage::Offer {
        from_peer_id: 10,
        to_peer_id: 1,
        sdp: "sdp".to_string(),
    };
    assert_eq!(hub.route_message(&offer), RelayAction::HandleLocal);

    // Negotiation addressed to a client is forwarded.
    let answer = SignalingMessage::Answer {
        from_peer_id: 1,
        to_peer_id: 10,
        sdp: "sdp".to_string(),
    };
    assert_eq!(hub.route_message(&answer), RelayAction::DeliverTo { peer_id: 10 });

    // Heartbeats need no action.
    assert_eq!(hub.route_message(&SignalingMessage::Heartbeat { peer_id: 10 }), RelayAction::Drop);
}

#[test]
fn disconnect_removes_and_rebroadcasts() {
    let mut hub = SignalingServer::new();
    hub.set_local_peer(member(1, "Host", true));
    hub.handle_register(10, PeerType::Display, "D1".to_string());
    hub.handle_register(11, PeerType::Display, "D2".to_string());

    let (removed, list) = hub.handle_disconnect(10);
    assert!(removed);
    assert_eq!(list.len(), 2);
    assert_eq!(list[0].id, 1);
    assert_eq!(list[1].id, 11);

    let (removed_again, _) = hub.handle_disconnect(10);
    assert!(!removed_again);
}

#[test]
fn send_data_reaches_only_connected_peers() {
    let mut hub = SignalingServer::new();
    hub.handle_register(10, PeerType::Display, "D1".to_string());
    match hub.send_data(1, 10, "cue".to_string()) {
        Some(SignalingMessage::Data { from_peer_id, to_peer_id, message }) => {
            assert_eq!(from_peer_id, 1);
            assert_eq!(to_peer_id, 10);
            assert_eq!(message, "cue");
        },
        other => panic!("expected a data message, got {:?}", other),
    }
    assert!(hub.send_data(1, 99, "cue".to_string()).is_none());
}

#[test]
fn broadcast_targets_are_the_client_ids() {
    let mut hub = SignalingServer::new();
    hub.handle_register(10, PeerType::Display, "D1".to_string());
    hub.handle_register(11, PeerType::Controller, "C1".to_string());
    assert_eq!(hub.client_ids(), vec![10, 11]);
    assert_eq!(hub.get_peers().len(), 2);
}

#[test]
fn stop_clears_the_running_flag() {
    let mut hub = SignalingServer::new();
    hub.note_started();
    assert!(hub.running);
    hub.stop();
    assert!(!hub.running);
}

#[test]
fn follower_applies_peer_lists_and_data() {
    let mut client = HubClient::new(10);
    let list = SignalingMessage::PeerList {
        peers: vec![member(1, "Host", true), member(10, "Me", false)],
    };
    assert!(matches!(client.handle_hub_message(list), ClientAction::UpdatedPeerList));
    assert_eq!(client.peers.len(), 2);
    assert_eq!(client.peers[0].id, 1);

    let data = SignalingMessage::Data {
        from_peer_id: 1,
        to_peer_id: 10,
        message: "next slide".to_string(),
    };
    match client.handle_hub_message(data) {
        ClientAction::DeliverData { from_peer_id, message } => {
            assert_eq!(from_peer_id, 1);
            assert_eq!(message, "next slide");
        },
        other => panic!("expected DeliverData, got {:?}", other),
    }

    let noise = SignalingMessage::Heartbeat { peer_id: 1 };
    assert!(matches!(client.handle_hub_message(noise), ClientAction::Ignore));
    assert_eq!(client.peers.len(), 2);
}

#[test]
fn follower_registration_carries_priority() {
    let peer = Peer::from_parts(10, PeerType::Display, "Stage".to_string(), 77);
    match HubClient::register_message(&peer) {
        SignalingMessage::Register { peer_id, peer_type, display_name, display_class, priority } => {
            assert_eq!(peer_id, 10);
            assert_eq!(peer_type, PeerType::Display);
            assert_eq!(display_name, "Stage");
            assert!(display_class.is_none());
            assert_eq!(priority, Some((1, 77)));
        },
        other => panic!("expected Register, got {:?}", other),
    }
}
