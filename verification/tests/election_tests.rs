use mobile_worship::discovery::DiscoveredLeader;
use mobile_worship::election::{ElectionResult, ElectionService};
use mobile_worship::peer::Peer;
use mobile_worship::types::{PeerType, Priority};

fn leader(peer_id: u128, name: &str, peer_type: PeerType, score: u8, time: u64) -> DiscoveredLeader {
    DiscoveredLeader {
        peer_id,
        display_name: name.to_string(),
        peer_type,
        priority: (score, time),
    }
}

#[test]
fn test_controller_has_higher_priority_than_display() {
    let controller = Peer::new(PeerType::Controller, "Controller".to_string());
    let display = Peer::new(PeerType::Display, "Display".to_string());
    assert!(controller.priority() > display.priority());
}

#[test]
fn priority_is_a_strict_order_on_concrete_values() {
    let a = Priority { device_type_score: 2, startup_time_ms: 0 };
    let b = Priority { device_type_score: 2, startup_time_ms: 5 };
    let c = Priority { device_type_score: 1, startup_time_ms: 0 };
    // Earlier startup wins on equal scores.
    assert!(a > b);
    assert!(!(b > a));
    // A controller score beats a display score regardless of time.
    assert!(b > c);
    assert!(a > c);
    // Exactly one of <, ==, > holds.
    assert!(a == a);
    assert!(!(a > a) && !(a < a));
    assert!((a > b) ^ (a == b) ^ (a < b));
}

#[test]
fn election_with_no_peers_reports_no_peers() {
    let mut service = ElectionService::new();
    let me = Peer::from_parts(7, PeerType::Controller, "Me".to_string(), 100);
    let my_id = me.id;
    service.set_peer(me);
    let result = service.elect_leader(&Vec::new()).unwrap();
    assert!(matches!(result, ElectionResult::NoPeers));
    assert_eq!(service.get_leader(), Some(my_id));
    assert!(service.am_i_leader());
}

#[test]
fn election_without_peer_set_fails() {
    let mut service = ElectionService::new();
    assert!(service.elect_leader(&Vec::new()).is_err());
    assert_eq!(service.get_leader(), None);
    assert!(!service.am_i_leader());
}

#[test]
fn controller_beats_display_regardless_of_startup_time() {
    // Peer A: controller started at t=0. Peer B: display started at t=10.
    let mut a = ElectionService::new();
    a.set_peer(Peer::from_parts(1, PeerType::Controller, "A".to_string(), 0));
    let discovered_by_a = vec![leader(2, "B", PeerType::Display, 1, 10)];
    assert!(matches!(a.elect_leader(&discovered_by_a).unwrap(), ElectionResult::BecameLeader));
    assert!(a.am_i_leader());

    let mut b = ElectionService::new();
    b.set_peer(Peer::from_parts(2, PeerType::Display, "B".to_string(), 10));
    let discovered_by_b = vec![leader(1, "A", PeerType::Controller, 2, 0)];
    match b.elect_leader(&discovered_by_b).unwrap() {
        ElectionResult::Follower { leader_id } => assert_eq!(leader_id, 1),
        other => panic!("expected Follower, got {:?}", other),
    }
    assert_eq!(b.get_leader(), Some(1));
    assert!(!b.am_i_leader());
}

#[test]
fn earlier_controller_beats_later_controller() {
    // Two controllers: A at t=0, B at t=5; both see each other.
    let mut a = ElectionService::new();
    a.set_peer(Peer::from_parts(10, PeerType::Controller, "A".to_string(), 0));
    let discovered_by_a = vec![leader(20, "B", PeerType::Controller, 2, 5)];
    assert!(matches!(a.elect_leader(&discovered_by_a).unwrap(), ElectionResult::BecameLeader));

    let mut b = ElectionService::new();
    b.set_peer(Peer::from_parts(20, PeerType::Controller, "B".to_string(), 5));
    let discovered_by_b = vec![leader(10, "A", PeerType::Controller, 2, 0)];
    match b.elect_leader(&discovered_by_b).unwrap() {
        ElectionResult::Follower { leader_id } => assert_eq!(leader_id, 10),
        other => panic!("expected Follower, got {:?}", other),
    }
}

#[test]
fn unique_maximum_wins_among_many() {
    let mut svc = ElectionService::new();
    svc.set_peer(Peer::from_parts(5, PeerType::Display, "Me".to_string(), 50));
    let discovered = vec![
        leader(1, "D1", PeerType::Display, 1, 80),
        leader(2, "C1", PeerType::Controller, 2, 30),
        leader(3, "C2", PeerType::Controller, 2, 10),
        leader(4, "D2", PeerType::Display, 1, 5),
    ];
    // C2 has the top score and the earliest startup among controllers.
    match svc.elect_leader(&discovered).unwrap() {
        ElectionResult::Follower { leader_id } => assert_eq!(leader_id, 3),
        other => panic!("expected Follower, got {:?}", other),
    }
}

#[test]
fn equal_priorities_break_ties_by_higher_id() {
    let mut svc = ElectionService::new();
    svc.set_peer(Peer::from_parts(100, PeerType::Controller, "Me".to_string(), 7));
    // Same priority as self; the larger id wins deterministically.
    let discovered = vec![leader(200, "Twin", PeerType::Controller, 2, 7)];
    match svc.elect_leader(&discovered).unwrap() {
        ElectionResult::Follower { leader_id } => assert_eq!(leader_id, 200),
        other => panic!("expected Follower, got {:?}", other),
    }

    let mut svc2 = ElectionService::new();
    svc2.set_peer(Peer::from_parts(300, PeerType::Controller, "Me".to_string(), 7));
    let discovered2 = vec![leader(200, "Twin", PeerType::Controller, 2, 7)];
    assert!(matches!(svc2.elect_leader(&discovered2).unwrap(), ElectionResult::BecameLeader));
}

#[test]
fn peer_projection_carries_identity() {
    let p = Peer::from_parts(42, PeerType::Display, "Stage Left".to_string(), 9);
    let info = p.to_info(true);
    assert_eq!(info.id, 42);
    assert_eq!(info.peer_type, PeerType::Display);
    assert_eq!(info.display_name, "Stage Left");
    assert!(info.is_connected);
    assert!(!info.is_leader);
    let pri = p.priority();
    assert_eq!(pri.device_type_score, 1);
    assert_eq!(pri.startup_time_ms, 9);
}
