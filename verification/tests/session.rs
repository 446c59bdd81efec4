use reseda_server::client::{Connection, Host, Reservation};
use reseda_server::handlers::health_status;
use reseda_server::params::QueryParameters;
use reseda_server::wireguard::{
    IpResponse, KeyState, RegistryReturn, WireGuardConfig, WireGuardConfigFile,
};
use reseda_server::ws::{
    admit_client, apply_account, client_msg, close_query, close_query_at, confirm_peer,
    end_session, open_query, SessionAction, UsageRow,
};
use reseda_server::meter::{meter_row, meter_row_at};

const GOOD_PK: &str = "ABCDEFGHIJKLMNOPQRSTUVWXYZabcdefghijklmnopq=";

fn node() -> WireGuardConfig {
    let config = WireGuardConfigFile::defaults(
        "203.0.113.5".to_string(),
        "mysql://user@localhost/reseda".to_string(),
        "access".to_string(),
    );
    let keys = KeyState {
        private_key: "PRIV\n".to_string(),
        public_key: "SERVERPUB\n".to_string(),
    };
    let information = RegistryReturn {
        key: "pem-key".to_string(),
        cert: "pem-cert".to_string(),
        ip: "203.0.113.5".to_string(),
        record_id: "record-1".to_string(),
        cert_id: "cert-1".to_string(),
        res: IpResponse {
            country: "NZ".to_string(),
            region: "Wellington".to_string(),
            eu: false,
            city: "Wellington".to_string(),
            latitude: "-41.28".to_string(),
            longitude: "174.77".to_string(),
            metro: 0,
            radius: 0,
            timezone: "Pacific/Auckland".to_string(),
        },
        id: "node-1".to_string(),
    };
    let mut node = WireGuardConfig::initialize(config, keys, information);
    // Bootstrap reserves the server's own slot before serving.
    let held = node.reserve_slot(Host { a: 2, b: 1, conn_time: 0 });
    assert!(matches!(held, Reservation::Held(_)));
    node
}

fn join(node: &mut WireGuardConfig, author: &str) -> String {
    let result = admit_client(
        node,
        &QueryParameters {
            author: author.to_string(),
            public_key: GOOD_PK.to_string(),
        },
    );
    assert!(result.admitted);
    result.key
}

fn render(action: &SessionAction) -> String {
    match action {
        SessionAction::Send(frame) => frame.render(),
        _ => panic!("expected a frame"),
    }
}

#[test]
fn admission_acknowledges_a_valid_key() {
    let mut node = node();
    let result = admit_client(
        &mut node,
        &QueryParameters {
            author: "u1".to_string(),
            public_key: GOOD_PK.to_string(),
        },
    );
    assert!(result.admitted);
    assert_eq!(result.key.as_str(), GOOD_PK);
    assert_eq!(result.actions.len(), 1);
    assert_eq!(
        render(&result.actions[0]),
        "{ \"message\": \"PUBLIC_KEY_OK\", \"type\": \"message\" }"
    );
}

#[test]
fn invalid_public_key_is_refused() {
    let mut node = node();
    let result = admit_client(
        &mut node,
        &QueryParameters {
            author: "u1".to_string(),
            public_key: "short".to_string(),
        },
    );
    assert!(!result.admitted);
    assert_eq!(result.actions.len(), 1);
    assert_eq!(
        render(&result.actions[0]),
        "{ \"message\": \"Invalid public key, expected 44 characters.\", \"type\": \"error\" }"
    );
    assert_eq!(node.clients.len(), 0);
}

#[test]
fn open_assigns_the_first_free_slot() {
    let mut node = node();
    let key = join(&mut node, "u1");
    let actions = open_query(&mut node, key.as_str());
    assert_eq!(actions.len(), 2);
    match &actions[0] {
        SessionAction::AddPeer { public_key, allowed_ip } => {
            assert_eq!(public_key.as_str(), GOOD_PK);
            assert_eq!(allowed_ip.as_str(), "10.8.2.2/32");
        }
        _ => panic!("expected the peer to be programmed first"),
    }
    assert_eq!(
        render(&actions[1]),
        "{ \"message\": { \"server_public_key\": \"SERVERPUB\", \"endpoint\": \"203.0.113.5:8443\", \
         \"subdomain\": \"2.2\" }, \"type\": \"message\" }"
    );
    match node.clients.get(key.as_str()).unwrap().connected {
        Connection::Connected(h) => assert_eq!((h.a, h.b), (2, 2)),
        Connection::Disconnected => panic!("the session should be connected"),
    }
}

#[test]
fn meter_pushes_updates_under_cap() {
    let mut node = node();
    let key = join(&mut node, "u1");
    apply_account(&mut node, key.as_str(), &Vec::new(), Some("FREE"));
    open_query(&mut node, key.as_str());
    // Each tick under the cap pushes exactly one update frame.
    for _ in 0..3 {
        let actions = meter_row(&mut node, key.as_str(), 100, 200);
        assert_eq!(actions.len(), 1);
        assert_eq!(
            render(&actions[0]),
            "{ \"message\": { \"up\": 100, \"down\": 200 }, \"type\": \"update\"}"
        );
    }
    assert_eq!(node.clients.get(key.as_str()).unwrap().get_usage(), (200, 100));
}

#[test]
fn a_session_round_trip_frees_everything() {
    let mut node = node();
    let key = join(&mut node, "u1");
    apply_account(&mut node, key.as_str(), &Vec::new(), Some("FREE"));
    open_query(&mut node, key.as_str());
    meter_row(&mut node, key.as_str(), 100, 200);

    let session_id = "00000000-0000-4000-8000-000000000000".to_string();
    let actions = close_query_at(&mut node, key.as_str(), 0, session_id);
    assert_eq!(actions.len(), 3);
    assert!(matches!(&actions[0], SessionAction::RemovePeer { .. }));
    match &actions[1] {
        SessionAction::Record(record) => {
            assert_eq!(record.up, 100);
            assert_eq!(record.down, 200);
            assert_eq!(record.author.as_str(), "u1");
            assert_eq!(record.conn_end.as_str(), "1970-01-01T00:00:00+00:00");
            assert!(!record.conn_start.is_empty());
        }
        _ => panic!("expected the usage row second"),
    }
    assert_eq!(
        render(&actions[2]),
        "{ \"message\": \"Removed client successfully.\", \"type\": \"message\" }"
    );

    end_session(&mut node, key.as_str());
    assert_eq!(node.clients.len(), 0);
    // The slot went back to the registry.
    let again = node.reserve_slot(Host { a: 2, b: 2, conn_time: 0 });
    assert!(matches!(again, Reservation::Held(_)));
}

#[test]
fn a_second_close_is_silent() {
    let mut node = node();
    let key = join(&mut node, "u1");
    open_query(&mut node, key.as_str());
    close_query(&mut node, key.as_str());
    let actions = close_query(&mut node, key.as_str());
    assert_eq!(actions.len(), 1);
    assert_eq!(
        render(&actions[0]),
        "{ \"message\": \"Removed client successfully.\", \"type\": \"message\" }"
    );
    for action in &actions {
        assert!(!matches!(action, SessionAction::RemovePeer { .. }));
        assert!(!matches!(action, SessionAction::Record(_)));
    }
}

#[test]
fn slot_exhaustion_keeps_the_session_admitted() {
    let mut node = node();
    node.registry = WireGuardConfig::init_registry(3);
    for b in 1..=254u8 {
        let held = node.reserve_slot(Host { a: 2, b, conn_time: 0 });
        assert!(matches!(held, Reservation::Held(_)));
    }
    let key = join(&mut node, "u1");
    let actions = open_query(&mut node, key.as_str());
    assert_eq!(actions.len(), 1);
    assert_eq!(
        render(&actions[0]),
        "{ \"message\": \"No open slot is available on this node.\", \"type\": \"error\" }"
    );
    let record = node.clients.get(key.as_str()).unwrap();
    assert_eq!(record.connected, Connection::Disconnected);
}

#[test]
fn exceeding_the_quota_disconnects_the_peer() {
    let mut node = node();
    let key = join(&mut node, "u1");
    apply_account(&mut node, key.as_str(), &Vec::new(), Some("FREE"));
    open_query(&mut node, key.as_str());

    let session_id = "00000000-0000-4000-8000-000000000001".to_string();
    let actions = meter_row_at(&mut node, key.as_str(), 0, 5_000_000_001, 0, session_id);
    assert_eq!(actions.len(), 5);
    assert_eq!(
        render(&actions[0]),
        "{ \"message\": \"UDC-EU\", \"type\": \"error\"}"
    );
    assert!(matches!(&actions[1], SessionAction::Wait { millis: 200 }));
    assert!(matches!(&actions[2], SessionAction::RemovePeer { .. }));
    match &actions[3] {
        SessionAction::Record(record) => {
            assert_eq!(record.up, 0);
            assert_eq!(record.down, 5_000_000_001);
        }
        _ => panic!("expected the usage row"),
    }
    // The slot was freed by the forced disconnect.
    let again = node.reserve_slot(Host { a: 2, b: 2, conn_time: 0 });
    assert!(matches!(again, Reservation::Held(_)));
}

#[test]
fn an_over_cap_disconnected_record_gets_the_grace_pause() {
    let mut node = node();
    let key = join(&mut node, "u1");
    apply_account(&mut node, key.as_str(), &Vec::new(), Some("FREE"));
    let session_id = "00000000-0000-4000-8000-000000000002".to_string();
    let actions = meter_row_at(&mut node, key.as_str(), 0, 6_000_000_000, 0, session_id);
    assert_eq!(actions.len(), 3);
    assert!(matches!(&actions[0], SessionAction::Wait { millis: 1000 }));
    assert!(matches!(&actions[1], SessionAction::RemovePeer { .. }));
    assert!(matches!(&actions[2], SessionAction::Send(_)));
    for action in &actions {
        assert!(!matches!(action, SessionAction::Record(_)));
    }
}

#[test]
fn meter_skips_unknown_peers() {
    let mut node = node();
    let actions = meter_row(&mut node, "nobody", 1, 2);
    assert_eq!(actions.len(), 0);
}

#[test]
fn unknown_query_types_earn_an_error_and_the_session_goes_on() {
    let mut node = node();
    let key = join(&mut node, "u1");
    let actions = client_msg(&mut node, key.as_str(), "{\"query_type\":\"foo\"}");
    assert_eq!(actions.len(), 1);
    assert_eq!(
        render(&actions[0]),
        "{ \"message\": \"Unknown query_type, expected one of open, close, resume.\", \"type\": \
         \"error\" }"
    );
    // `resume` is accepted and does nothing.
    let actions = client_msg(&mut node, key.as_str(), "{\"query_type\":\"resume\"}");
    assert_eq!(actions.len(), 0);
    assert!(node.clients.get(key.as_str()).is_some());
}

#[test]
fn unparsable_frames_earn_an_error() {
    let mut node = node();
    let key = join(&mut node, "u1");
    let actions = client_msg(&mut node, key.as_str(), "{");
    assert_eq!(actions.len(), 1);
    assert_eq!(
        render(&actions[0]),
        "{ \"message\": \"Unable to parse query.\", \"type\": \"error\" }"
    );
}

#[test]
fn a_failed_peer_setup_rolls_the_open_back() {
    let mut node = node();
    let key = join(&mut node, "u1");
    open_query(&mut node, key.as_str());

    let actions = confirm_peer(&mut node, key.as_str(), false);
    assert_eq!(actions.len(), 1);
    assert_eq!(
        render(&actions[0]),
        "{ \"message\": \"Failed to program the peer.\", \"type\": \"error\" }"
    );
    let record = node.clients.get(key.as_str()).unwrap();
    assert_eq!(record.connected, Connection::Disconnected);
    let again = node.reserve_slot(Host { a: 2, b: 2, conn_time: 0 });
    assert!(matches!(again, Reservation::Held(_)));

    // A successful setup changes nothing.
    let actions = confirm_peer(&mut node, key.as_str(), true);
    assert_eq!(actions.len(), 0);
}

#[test]
fn reconnecting_with_a_new_author_keeps_the_counters() {
    let mut node = node();
    let key = join(&mut node, "a1");
    apply_account(
        &mut node,
        key.as_str(),
        &vec![UsageRow { up: "10".to_string(), down: "20".to_string() }],
        Some("FREE"),
    );
    meter_row(&mut node, key.as_str(), 100, 200);

    // The same key returns under a different account identifier.
    let key = join(&mut node, "a2");
    let record = node.clients.get(key.as_str()).unwrap();
    assert_eq!(record.author.as_str(), "a2");
    assert_eq!(record.get_usage(), (200, 100));
    assert_eq!(record.maximums, reseda_server::client::Maximums::Free(10, 20));
    assert_eq!(node.clients.len(), 1);
}

#[test]
fn account_rows_aggregate_with_parse_failures_as_zero() {
    let mut node = node();
    let key = join(&mut node, "u1");
    let rows = vec![
        UsageRow { up: "5".to_string(), down: "7".to_string() },
        UsageRow { up: "junk".to_string(), down: "3".to_string() },
        UsageRow { up: "10".to_string(), down: "junk".to_string() },
    ];
    let (up, down) = apply_account(&mut node, key.as_str(), &rows, Some("SUPPORTER"));
    assert_eq!((up, down), (15, 10));
    let record = node.clients.get(key.as_str()).unwrap();
    assert_eq!(
        record.maximums,
        reseda_server::client::Maximums::Supporter(15, 10)
    );
}

#[test]
fn unknown_tiers_stay_unassigned() {
    let mut node = node();
    let key = join(&mut node, "u1");
    apply_account(&mut node, key.as_str(), &Vec::new(), Some("GOLD"));
    assert_eq!(
        node.clients.get(key.as_str()).unwrap().maximums,
        reseda_server::client::Maximums::Unassigned
    );
    apply_account(&mut node, key.as_str(), &Vec::new(), None);
    assert_eq!(
        node.clients.get(key.as_str()).unwrap().maximums,
        reseda_server::client::Maximums::Unassigned
    );
}

#[test]
fn fresh_session_identifiers_are_hyphenated_uuids() {
    let mut node = node();
    let key = join(&mut node, "u1");
    open_query(&mut node, key.as_str());
    let actions = close_query(&mut node, key.as_str());
    match &actions[1] {
        SessionAction::Record(record) => {
            assert_eq!(record.session_id.len(), 36);
        }
        _ => panic!("expected the usage row"),
    }
}

#[test]
fn health_reports_the_node_identity() {
    let mut node = node();
    join(&mut node, "u1");
    let health = health_status(&node);
    assert_eq!(health.status.as_str(), "OK");
    assert_eq!(health.usage.as_str(), "1");
    assert_eq!(health.ip.as_str(), "203.0.113.5");
    assert_eq!(health.cert.as_str(), "pem-cert");
    assert_eq!(health.record_id.as_str(), "record-1");
}

#[test]
fn the_interface_configuration_text() {
    let node = node();
    let expected = "[Interface]\nAddress = 10.8.2.1/24\nPrivateKey = PRIV\nListenPort = 8443\n\
                    DNS = 1.1.1.1\nPostUp = iptables -A FORWARD -i reseda -j ACCEPT; iptables -t \
                    nat -A POSTROUTING -o eth0 -j MASQUERADE\nPostDown = iptables -A FORWARD -i \
                    reseda -j ACCEPT; iptables -t nat -A POSTROUTING -o eth0 -j MASQUERADE";
    assert_eq!(node.generate_config_string().as_str(), expected);
}
