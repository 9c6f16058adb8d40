use mobile_worship::driver::{get_leader_status, new_display_peers, peer_ids, plan_after_election,
    plan_send, resolve_hub_start, HubFallback, HubStartOutcome, SendRoute, StartupAction};
use mobile_worship::election::{ElectionResult, ElectionService};
use mobile_worship::messages::{parse_auto_start_mode, AutoStartMode};
use mobile_worship::net::{discovery_response_bytes, get_all_ip_addresses, is_discovery_request,
    ipv4_to_string, order_ip_addresses, parse_discovery_response, advertisement_txt_records};
use mobile_worship::peer::Peer;
use mobile_worship::signaling::SignalingServer;
use mobile_worship::tcp::TcpP2pManager;
use mobile_worship::types::{PeerInfo, PeerType};

fn listed(id: u128, peer_type: PeerType) -> PeerInfo {
    PeerInfo {
        id,
        peer_type,
        display_name: format!("peer-{}", id),
        is_connected: true,
        is_leader: false,
    }
}

#[test]
fn startup_branches_follow_the_election() {
    assert_eq!(plan_after_election(&ElectionResult::BecameLeader), StartupAction::StartHub);
    assert_eq!(plan_after_election(&ElectionResult::NoPeers), StartupAction::StartHub);
    assert_eq!(
        plan_after_election(&ElectionResult::Follower { leader_id: 9 }),
        StartupAction::ConnectToHub { leader_id: 9 }
    );
}

#[test]
fn port_collision_demotes_to_follower() {
    // The second process to bind the hub port sees the collision and must
    // connect to the first hub as a client instead of failing.
    assert_eq!(resolve_hub_start(HubStartOutcome::Started), HubFallback::ProceedAsLeader);
    assert_eq!(resolve_hub_start(HubStartOutcome::AddrInUse), HubFallback::ConnectAsFollower);
    assert_eq!(resolve_hub_start(HubStartOutcome::OtherError), HubFallback::Fail);
}

#[test]
fn membership_diff_connects_controllers_to_new_displays() {
    let current = vec![
        listed(1, PeerType::Controller),
        listed(2, PeerType::Display),
        listed(3, PeerType::Display),
        listed(4, PeerType::Display),
    ];
    let known = vec![1, 3];
    let fresh = new_display_peers(&current, &known, PeerType::Controller);
    assert_eq!(fresh.len(), 2);
    assert_eq!(fresh[0].id, 2);
    assert_eq!(fresh[1].id, 4);

    // A display never initiates connections.
    assert!(new_display_peers(&current, &known, PeerType::Display).is_empty());

    assert_eq!(peer_ids(&current), vec![1, 2, 3, 4]);
}

#[test]
fn outbound_messages_prefer_the_direct_transport() {
    let mut tcp = TcpP2pManager::new(1, 0);
    let mut hub = SignalingServer::new();

    assert_eq!(plan_send(&tcp, &hub, 9), SendRoute::NoConnection);

    hub.handle_register(9, PeerType::Display, "D".to_string());
    assert_eq!(plan_send(&tcp, &hub, 9), SendRoute::HubRelay);

    tcp.register_inbound(9, listed(9, PeerType::Display));
    assert_eq!(plan_send(&tcp, &hub, 9), SendRoute::Direct);
}

#[test]
fn leader_status_reflects_the_last_election() {
    let mut svc = ElectionService::new();
    svc.set_peer(Peer::from_parts(7, PeerType::Controller, "Me".to_string(), 0));
    svc.elect_leader(&Vec::new()).unwrap();
    let status = get_leader_status(&svc, 3);
    assert_eq!(status.leader_id, Some(7));
    assert!(status.am_i_leader);
    assert_eq!(status.peer_count, 3);
}

#[test]
fn auto_start_mode_prefers_the_environment() {
    let args = vec![b"app".to_vec(), b"--display".to_vec()];
    assert_eq!(
        parse_auto_start_mode(&Some(b"controller".to_vec()), &args),
        AutoStartMode::Controller
    );
    assert_eq!(parse_auto_start_mode(&None, &args), AutoStartMode::Display);
    assert_eq!(
        parse_auto_start_mode(&Some(b"bogus".to_vec()), &vec![b"app".to_vec()]),
        AutoStartMode::Disabled
    );
    assert_eq!(
        parse_auto_start_mode(&None, &vec![b"--controller".to_vec(), b"--display".to_vec()]),
        AutoStartMode::Controller
    );
}

#[test]
fn address_ordering_puts_loopback_first_and_drops_link_local() {
    let ifaces = vec![
        ("eth0".to_string(), Some((192, 168, 1, 20))),
        ("lo".to_string(), Some((127, 0, 0, 1))),
        ("docker".to_string(), None),
        ("bad".to_string(), Some((169, 254, 3, 4))),
    ];
    let ordered = order_ip_addresses(&ifaces);
    assert_eq!(ordered, vec![(127, 0, 0, 1), (192, 168, 1, 20)]);
    assert_eq!(ipv4_to_string((192, 168, 1, 20)), "192.168.1.20");
    // The live enumeration never reports a link-local text.
    for addr in get_all_ip_addresses() {
        assert!(!addr.starts_with("169.254."));
    }
}

#[test]
fn udp_discovery_round_trip() {
    assert!(is_discovery_request(b"MW-DISCOVER"));
    assert!(!is_discovery_request(b"MW-DISCOVER?"));
    let response = discovery_response_bytes(8443);
    assert_eq!(response, b"MW-HERE8443".to_vec());
    assert_eq!(parse_discovery_response(&response), Some(8443));
    assert_eq!(parse_discovery_response(b"MW-HERE  9000 "), Some(9000));
    assert_eq!(parse_discovery_response(b"MW-HEREjunk"), Some(8080));
    assert_eq!(parse_discovery_response(b"nope"), None);
}

#[test]
fn advertisement_records_include_only_known_fields() {
    let records = advertisement_txt_records(
        "display-1".to_string(),
        "device-1".to_string(),
        Some("Stage".to_string()),
        Some(1920),
        None,
        Some("Android 11".to_string()),
    );
    let pairs: Vec<(&str, &str)> = records.iter().map(|(k, v)| (k.as_str(), v.as_str())).collect();
    assert_eq!(
        pairs,
        vec![
            ("display_id", "display-1"),
            ("device_id", "device-1"),
            ("display_name", "Stage"),
            ("width", "1920"),
            ("platform", "Android 11"),
        ]
    );

    let bare = advertisement_txt_records(
        "d".to_string(),
        "v".to_string(),
        Some(String::new()),
        None,
        None,
        None,
    );
    assert_eq!(bare.len(), 2);
}
