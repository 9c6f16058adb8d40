use mobile_worship::discovery::{collect_leaders, parse_leader_from_txt, parse_uuid, uuid_text,
    DiscoveryService};
use mobile_worship::peer::Peer;
use mobile_worship::types::PeerType;

fn entries(pairs: &[&str]) -> Vec<Vec<u8>> {
    pairs.iter().map(|s| s.as_bytes().to_vec()).collect()
}

const ID_A: &str = "00000000-0000-0000-0000-0000000000aa";
const ID_B: &str = "00000000-0000-0000-0000-0000000000bb";

#[test]
fn browse_with_zero_advertisements_returns_empty() {
    let svc = DiscoveryService::new();
    let leaders = svc.browse_for_leaders(&Vec::new());
    assert!(leaders.is_empty());
}

#[test]
fn parse_uuid_accepts_both_standard_forms() {
    assert_eq!(parse_uuid(ID_A.as_bytes()), Some(0xAA));
    assert_eq!(
        parse_uuid(b"0123456789abcdef0123456789ABCDEF"),
        Some(0x0123456789abcdef0123456789abcdef)
    );
    assert_eq!(
        parse_uuid(b"01234567-89ab-cdef-0123-456789abcdef"),
        Some(0x0123456789abcdef0123456789abcdef)
    );
    assert_eq!(parse_uuid(b"not-a-uuid"), None);
    assert_eq!(parse_uuid(b"01234567x89ab-cdef-0123-456789abcdef"), None);
    assert_eq!(parse_uuid(b""), None);
}

#[test]
fn advertisement_parses_every_field() {
    let adv = entries(&[
        &format!("peer_id={}", ID_A),
        "display_name=Front of House",
        "peer_type=controller",
        "priority_type=2",
        "priority_time=12345",
    ]);
    let leader = parse_leader_from_txt(&adv).expect("complete advertisement parses");
    assert_eq!(leader.peer_id, 0xAA);
    assert_eq!(leader.display_name, "Front of House");
    assert_eq!(leader.peer_type, PeerType::Controller);
    assert_eq!(leader.priority, (2, 12345));
}

#[test]
fn advertisement_defaults_missing_fields() {
    let adv = entries(&[&format!("peer_id={}", ID_A)]);
    let leader = parse_leader_from_txt(&adv).expect("peer id alone suffices");
    assert_eq!(leader.display_name, "Unknown");
    assert_eq!(leader.peer_type, PeerType::Display);
    assert_eq!(leader.priority, (1, 0));
}

#[test]
fn advertisement_without_peer_id_is_rejected() {
    assert!(parse_leader_from_txt(&entries(&["display_name=X"])).is_none());
    assert!(parse_leader_from_txt(&entries(&["peer_id=garbage"])).is_none());
    assert!(parse_leader_from_txt(&Vec::new()).is_none());
}

#[test]
fn later_duplicate_keys_win_within_one_advertisement() {
    let adv = entries(&[
        &format!("peer_id={}", ID_A),
        "priority_time=1",
        "priority_time=99",
    ]);
    let leader = parse_leader_from_txt(&adv).unwrap();
    assert_eq!(leader.priority.1, 99);
}

#[test]
fn unreadable_priority_fields_fall_back_to_defaults() {
    let adv = entries(&[
        &format!("peer_id={}", ID_A),
        "priority_type=900",
        "priority_time=notanumber",
    ]);
    let leader = parse_leader_from_txt(&adv).unwrap();
    assert_eq!(leader.priority, (1, 0));
}

#[test]
fn repeated_advertisements_are_deduplicated() {
    let a1 = entries(&[&format!("peer_id={}", ID_A), "priority_time=1"]);
    let a2 = entries(&[&format!("peer_id={}", ID_A), "priority_time=2"]);
    let b = entries(&[&format!("peer_id={}", ID_B)]);
    let junk = entries(&["nonsense"]);
    let leaders = collect_leaders(&vec![a1, junk, a2, b]);
    assert_eq!(leaders.len(), 2);
    assert_eq!(leaders[0].peer_id, 0xAA);
    // The first advertisement of a peer wins.
    assert_eq!(leaders[0].priority.1, 1);
    assert_eq!(leaders[1].peer_id, 0xBB);
}

#[test]
fn announce_stores_the_candidate() {
    let mut svc = DiscoveryService::new();
    let me = Peer::from_parts(5, PeerType::Controller, "Me".to_string(), 1);
    svc.announce(&me);
    assert_eq!(svc.self_peer.as_ref().map(|p| p.id), Some(5));
    svc.stop_announcing();
    assert!(svc.self_peer.is_none());
}

#[test]
fn uuid_text_round_trips_through_the_parser() {
    assert_eq!(uuid_text(0xAA), ID_A);
    assert_eq!(
        uuid_text(0x0123456789abcdef0123456789abcdef),
        "01234567-89ab-cdef-0123-456789abcdef"
    );
    assert_eq!(parse_uuid(uuid_text(u128::MAX).as_bytes()), Some(u128::MAX));
    assert_eq!(parse_uuid(uuid_text(0).as_bytes()), Some(0));
}
