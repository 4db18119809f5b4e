use dipper::node::{
    add_report, direction_str, list, print_long, remove_report, status, topology, trust_str, Bin,
    PeerDiagnostics, Status, Topology,
};

fn peer() -> PeerDiagnostics {
    PeerDiagnostics {
        overlay: "abcd".to_string(),
        peer_id: Some("16Uiu2".to_string()),
        connected: true,
        proximity_order: 7,
        direction: 2,
        trust: 0,
        verified: false,
        score: Some("+1.5".to_string()),
        ip: Some("10.0.0.1".to_string()),
        uptime_secs: Some(90),
        connected_since: Some(1_700_000_000),
        multiaddrs: vec!["/ip4/10.0.0.1".to_string(), "/dns/x".to_string()],
    }
}

fn bare_peer() -> PeerDiagnostics {
    PeerDiagnostics {
        overlay: "ef".to_string(),
        peer_id: None,
        connected: false,
        proximity_order: 0,
        direction: 0,
        trust: 9,
        verified: true,
        score: None,
        ip: None,
        uptime_secs: None,
        connected_since: None,
        multiaddrs: vec![],
    }
}

#[test]
fn status_is_shown_line_by_line() {
    let s = Status {
        overlay_address: "ab".to_string(),
        depth: 8,
        connected_peers: 120,
        known_peers: 900,
        pending_connections: 0,
        stored_peers: 1000,
    };
    assert_eq!(
        status(&s),
        vec![
            "Overlay address:     0xab",
            "Kademlia depth:      8",
            "Connected peers:     120",
            "Known peers:         900",
            "Pending connections: 0",
            "Stored peers:        1000",
        ]
    );
}

#[test]
fn topology_is_shown_bin_by_bin() {
    let t = Topology {
        overlay_address: "ab".to_string(),
        depth: 2,
        bins: vec![
            Bin {
                proximity_order: 0,
                connected_peers: 2,
                known_peers: 30,
                connected_peer_addresses: vec!["11".to_string(), "22".to_string()],
            },
            Bin {
                proximity_order: 12,
                connected_peers: 0,
                known_peers: 1,
                connected_peer_addresses: vec![],
            },
        ],
    };
    assert_eq!(
        topology(&t),
        vec![
            "Overlay address: 0xab".to_string(),
            "Depth:           2".to_string(),
            String::new(),
            format!("{:>3}  {:>9}  {:>9}", "PO", "connected", "known"),
            format!("{:>3}  {:>9}  {:>9}", 0, 2, 30),
            "       - 0x11".to_string(),
            "       - 0x22".to_string(),
            format!("{:>3}  {:>9}  {:>9}", 12, 0, 1),
        ]
    );
}

#[test]
fn directions_and_trust_have_words() {
    assert_eq!(direction_str(1), "inbound");
    assert_eq!(direction_str(2), "outbound");
    assert_eq!(direction_str(0), "-");
    assert_eq!(direction_str(-1), "-");
    assert_eq!(direction_str(3), "-");
    assert_eq!(trust_str(0), "normal");
    assert_eq!(trust_str(1), "local");
    assert_eq!(trust_str(2), "trusted");
    assert_eq!(trust_str(3), "-");
    assert_eq!(trust_str(-1), "-");
}

#[test]
fn peers_are_shown_in_full() {
    assert_eq!(
        print_long(&peer()),
        vec![
            "Overlay:         0xabcd",
            "Peer ID:         16Uiu2",
            "Connected:       true",
            "Proximity order: 7",
            "Direction:       outbound",
            "Trust:           normal",
            "Verified:        false",
            "Score:           +1.5",
            "IP:              10.0.0.1",
            "Uptime:          90s",
            "Connected since: 1700000000 (unix)",
            "Multiaddrs:",
            "  - /ip4/10.0.0.1",
            "  - /dns/x",
        ]
    );
    assert_eq!(
        print_long(&bare_peer()),
        vec![
            "Overlay:         0xef",
            "Connected:       false",
            "Proximity order: 0",
            "Direction:       -",
            "Trust:           -",
            "Verified:        true",
            "Multiaddrs:      (none known)",
        ]
    );
}

#[test]
fn peers_are_listed() {
    assert_eq!(list(&vec![], true), vec!["No peers."]);
    assert_eq!(list(&vec![], false), vec!["No peers."]);
    let row = |state: &str, po: &str, direction: &str, trust: &str, score: &str, overlay: &str| {
        format!("{state:<6}  {po:>3}  {direction:<9}  {trust:<8}  {score:<11}  {overlay}")
    };
    assert_eq!(
        list(&vec![peer(), bare_peer()], false),
        vec![
            row("STATE", "PO", "direction", "trust", "score", "overlay"),
            row("up", "7", "outbound", "normal", "+1.5", "0xabcd"),
            row("known", "0", "-", "-", "-", "0xef"),
        ]
    );
    let mut expected = print_long(&peer());
    expected.push(String::new());
    expected.extend(print_long(&bare_peer()));
    expected.push(String::new());
    assert_eq!(list(&vec![peer(), bare_peer()], true), expected);
}

#[test]
fn peer_requests_are_reported() {
    assert_eq!(add_report(true, "/ip4/1", None), vec!["Dial queued for /ip4/1"]);
    let lines = add_report(false, "/ip4/1", Some(&bare_peer()));
    assert_eq!(lines[0], "Dial rejected for /ip4/1");
    assert_eq!(lines[1..], print_long(&bare_peer())[..]);
    assert_eq!(remove_report(true, "0xab"), "Disconnect queued for 0xab");
    assert_eq!(remove_report(false, "0xab"), "Disconnect rejected for 0xab");
}
