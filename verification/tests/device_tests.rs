use mobile_worship::devices::{build_discovered_device, collect_display_devices,
    extract_ipv4_address, pick_fallback_address, ResolvedService};
use mobile_worship::messages::{make_lyrics_message, make_slide_message, WsMessage};

fn props(pairs: &[(&str, &str)]) -> Vec<(String, String)> {
    pairs.iter().map(|(k, v)| (k.to_string(), v.to_string())).collect()
}

fn service(fullname: &str, pairs: &[(&str, &str)]) -> ResolvedService {
    ResolvedService {
        fullname: fullname.to_string(),
        hostname: "device.local.".to_string(),
        port: 8080,
        v4_addrs: vec![(127, 0, 0, 1), (0, 0, 0, 0), (192, 168, 1, 30)],
        props: props(pairs),
    }
}

#[test]
fn first_usable_ipv4_is_picked() {
    assert_eq!(
        extract_ipv4_address(&vec![(127, 0, 0, 1), (0, 0, 0, 0), (10, 0, 0, 2), (10, 0, 0, 3)]),
        Some((10, 0, 0, 2))
    );
    assert_eq!(extract_ipv4_address(&vec![(127, 0, 0, 1)]), None);
    assert_eq!(extract_ipv4_address(&Vec::new()), None);
}

#[test]
fn fallback_addresses_skip_link_local_and_loopback() {
    let addrs = vec![
        "fe80::1".to_string(),
        "127.0.0.1".to_string(),
        "::1".to_string(),
        "10.1.2.3".to_string(),
    ];
    assert_eq!(pick_fallback_address(&addrs), Some("10.1.2.3".to_string()));
    assert_eq!(pick_fallback_address(&vec!["fe80::2".to_string()]), None);
}

#[test]
fn device_record_reads_the_advertisement() {
    let svc = service("tv._mw-display._tcp.local.", &[
        ("display_id", "disp-1"),
        ("device_id", "dev-1"),
        ("display_name", "Lobby TV"),
        ("width", "1920"),
        ("height", "1080"),
        ("platform", "Fire OS 7"),
    ]);
    let d = build_discovered_device(&svc).expect("advertisement with ids parses");
    assert_eq!(d.name, "tv._mw-display._tcp.local.");
    assert_eq!(d.host, "192.168.1.30");
    assert_eq!(d.port, 8080);
    assert_eq!(d.display_id, "disp-1");
    assert_eq!(d.device_id.as_deref(), Some("dev-1"));
    assert_eq!(d.display_name.as_deref(), Some("Lobby TV"));
    assert_eq!(d.width, Some(1920));
    assert_eq!(d.height, Some(1080));
    assert_eq!(d.platform.as_deref(), Some("Fire OS 7"));
    assert_eq!(d.service_type, "_mw-display._tcp.local.");
}

#[test]
fn device_id_backs_up_a_missing_display_id() {
    let svc = service("tv2._mw-display._tcp.local.", &[("device_id", "dev-2")]);
    let d = build_discovered_device(&svc).unwrap();
    assert_eq!(d.display_id, "dev-2");

    let bare = service("tv3._mw-display._tcp.local.", &[("width", "640")]);
    assert!(build_discovered_device(&bare).is_none());
}

#[test]
fn hostname_backs_up_missing_addresses() {
    let mut svc = service("tv4._mw-display._tcp.local.", &[("display_id", "d4")]);
    svc.v4_addrs = vec![(127, 0, 0, 1)];
    let d = build_discovered_device(&svc).unwrap();
    assert_eq!(d.host, "device.local.");
}

#[test]
fn duplicate_services_are_reported_once() {
    let a = service("tv._mw-display._tcp.local.", &[("display_id", "d1")]);
    let a_again = service("tv._mw-display._tcp.local.", &[("display_id", "d1")]);
    let b = service("tv2._mw-display._tcp.local.", &[("display_id", "d2")]);
    let legacy = service("old._mw-display._tcp.local.", &[]);
    let found = collect_display_devices(&vec![a, a_again, b, legacy]);
    assert_eq!(found.len(), 2);
    assert_eq!(found[0].display_id, "d1");
    assert_eq!(found[1].display_id, "d2");
}

#[test]
fn display_updates_carry_their_fields() {
    let msg = make_lyrics_message(
        Some("display-abc".to_string()),
        "church-123".to_string(),
        "event-456".to_string(),
        "song-789".to_string(),
        "Amazing Grace".to_string(),
        "# Verse 1".to_string(),
        None,
        1234567890,
    );
    match msg {
        WsMessage::Lyrics(d) => {
            assert_eq!(d.target_display_id.as_deref(), Some("display-abc"));
            assert_eq!(d.church_id, "church-123");
            assert_eq!(d.title, "Amazing Grace");
            assert!(d.background_url.is_none());
            assert_eq!(d.timestamp, 1234567890);
        },
        other => panic!("expected lyrics, got {:?}", other),
    }

    let msg = make_slide_message(
        None,
        "church-123".to_string(),
        "event-456".to_string(),
        "song-789".to_string(),
        3,
        1234567890,
    );
    match msg {
        WsMessage::Slide(d) => {
            assert!(d.target_display_id.is_none());
            assert_eq!(d.slide_index, 3);
        },
        other => panic!("expected slide, got {:?}", other),
    }
}
