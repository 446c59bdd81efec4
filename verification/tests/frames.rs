use reseda_server::frames::ControlFrame;

#[test]
fn constant_frames_render_their_wire_text() {
    assert_eq!(
        ControlFrame::PublicKeyOk.render().as_str(),
        "{ \"message\": \"PUBLIC_KEY_OK\", \"type\": \"message\" }"
    );
    assert_eq!(
        ControlFrame::InvalidPublicKey.render().as_str(),
        "{ \"message\": \"Invalid public key, expected 44 characters.\", \"type\": \"error\" }"
    );
    assert_eq!(
        ControlFrame::ExceededUsage.render().as_str(),
        "{ \"message\": \"UDC-EU\", \"type\": \"error\"}"
    );
    assert_eq!(
        ControlFrame::RemovedClient.render().as_str(),
        "{ \"message\": \"Removed client successfully.\", \"type\": \"message\" }"
    );
    assert_eq!(
        ControlFrame::SlotExhausted.render().as_str(),
        "{ \"message\": \"No open slot is available on this node.\", \"type\": \"error\" }"
    );
    assert_eq!(
        ControlFrame::ReservationBounced.render().as_str(),
        "{ \"message\": \"Slot reservation failed.\", \"type\": \"error\" }"
    );
    assert_eq!(
        ControlFrame::PeerSetupFailed.render().as_str(),
        "{ \"message\": \"Failed to program the peer.\", \"type\": \"error\" }"
    );
    assert_eq!(
        ControlFrame::UnknownQuery.render().as_str(),
        "{ \"message\": \"Unknown query_type, expected one of open, close, resume.\", \"type\": \
         \"error\" }"
    );
    assert_eq!(
        ControlFrame::MalformedQuery.render().as_str(),
        "{ \"message\": \"Unable to parse query.\", \"type\": \"error\" }"
    );
}

#[test]
fn the_open_reply_carries_the_tunnel_parameters() {
    let frame = ControlFrame::OpenReply {
        server_public_key: "SPK".to_string(),
        endpoint_ip: "198.51.100.7".to_string(),
        endpoint_port: "8443".to_string(),
        a: 3,
        b: 14,
    };
    assert_eq!(
        frame.render().as_str(),
        "{ \"message\": { \"server_public_key\": \"SPK\", \"endpoint\": \"198.51.100.7:8443\", \
         \"subdomain\": \"3.14\" }, \"type\": \"message\" }"
    );
}

#[test]
fn update_frames_render_both_counters() {
    let frame = ControlFrame::Update { up: 0, down: 5_000_000_001 };
    assert_eq!(
        frame.render().as_str(),
        "{ \"message\": { \"up\": 0, \"down\": 5000000001 }, \"type\": \"update\"}"
    );
    let frame = ControlFrame::Update { up: -1, down: 7 };
    assert_eq!(
        frame.render().as_str(),
        "{ \"message\": { \"up\": -1, \"down\": 7 }, \"type\": \"update\"}"
    );
}
