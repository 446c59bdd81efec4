//! Outbound control frames and their wire text: every reply is a JSON
//! object with a `message` (string or nested object) and a `type` in
//! `message`, `error`, `update` or `success`.
use vstd::prelude::*;

use crate::strings::{dec_of_int, dec_of_nat, i128_to_dec, u8_to_dec};
use vstd::string::StringExecFns;

verus! {

/// One outbound reply on a session's control sink.
#[derive(Debug, Clone)]
pub enum ControlFrame {
    /// The public key passed validation.
    PublicKeyOk,
    /// The public key had the wrong shape; the socket closes next.
    InvalidPublicKey,
    /// A successful `open`: what the client needs to bring its tunnel up.
    OpenReply {
        server_public_key: String,
        endpoint_ip: String,
        endpoint_port: String,
        a: u8,
        b: u8,
    },
    /// A meter tick's usage report.
    Update { up: i128, down: i128 },
    /// The client exceeded its cap and is about to be disconnected.
    ExceededUsage,
    /// A `close` finished.
    RemovedClient,
    /// An `open` found no free slot; the session stays admitted.
    SlotExhausted,
    /// A reservation bounced; the session stays admitted. The probe and
    /// the reservation are separate registry calls, so a caller that does
    /// not hold the node's guard across both can lose the race.
    ReservationBounced,
    /// Programming the peer failed; the slot was given back.
    PeerSetupFailed,
    /// An inbound frame carried an unrecognized `query_type`.
    UnknownQuery,
    /// An inbound frame was not a well-formed control query.
    MalformedQuery,
}

/// The wire text of a successful `open` reply, over the already-trimmed
/// parts it mentions.
pub open spec fn open_reply_text(
    server_public_key: Seq<char>,
    endpoint_ip: Seq<char>,
    endpoint_port: Seq<char>,
    a: u8,
    b: u8,
) -> Seq<char> {
    "{ \"message\": { \"server_public_key\": \""@ + server_public_key + "\", \"endpoint\": \""@
        + endpoint_ip + ":"@ + endpoint_port + "\", \"subdomain\": \""@ + dec_of_nat(a as nat)
        + "."@ + dec_of_nat(b as nat) + "\" }, \"type\": \"message\" }"@
}

/// The wire text of a meter update.
pub open spec fn update_text(up: int, down: int) -> Seq<char> {
    "{ \"message\": { \"up\": "@ + dec_of_int(up) + ", \"down\": "@ + dec_of_int(down)
        + " }, \"type\": \"update\"}"@
}

/// The exact wire text of each frame.
pub open spec fn frame_text(f: ControlFrame) -> Seq<char> {
    match f {
        ControlFrame::PublicKeyOk => "{ \"message\": \"PUBLIC_KEY_OK\", \"type\": \"message\" }"@,
        ControlFrame::InvalidPublicKey =>
            "{ \"message\": \"Invalid public key, expected 44 characters.\", \"type\": \"error\" }"@,
        ControlFrame::OpenReply { server_public_key, endpoint_ip, endpoint_port, a, b } =>
            open_reply_text(server_public_key@, endpoint_ip@, endpoint_port@, a, b),
        ControlFrame::Update { up, down } => update_text(up as int, down as int),
        ControlFrame::ExceededUsage => "{ \"message\": \"UDC-EU\", \"type\": \"error\"}"@,
        ControlFrame::RemovedClient =>
            "{ \"message\": \"Removed client successfully.\", \"type\": \"message\" }"@,
        ControlFrame::SlotExhausted =>
            "{ \"message\": \"No open slot is available on this node.\", \"type\": \"error\" }"@,
        ControlFrame::ReservationBounced =>
            "{ \"message\": \"Slot reservation failed.\", \"type\": \"error\" }"@,
        ControlFrame::PeerSetupFailed =>
            "{ \"message\": \"Failed to program the peer.\", \"type\": \"error\" }"@,
        ControlFrame::UnknownQuery =>
            "{ \"message\": \"Unknown query_type, expected one of open, close, resume.\", \"type\": \"error\" }"@,
        ControlFrame::MalformedQuery =>
            "{ \"message\": \"Unable to parse query.\", \"type\": \"error\" }"@,
    }
}

impl ControlFrame {
    /// Renders the frame to its wire text.
    pub fn render(&self) -> (r: String)
        ensures
            r@ == frame_text(*self),
    {
        match self {
            ControlFrame::PublicKeyOk => String::from_str(
                "{ \"message\": \"PUBLIC_KEY_OK\", \"type\": \"message\" }",
            ),
            ControlFrame::InvalidPublicKey => String::from_str(
                "{ \"message\": \"Invalid public key, expected 44 characters.\", \"type\": \"error\" }",
            ),
            ControlFrame::OpenReply { server_public_key, endpoint_ip, endpoint_port, a, b } => {
                let mut s = String::from_str("{ \"message\": { \"server_public_key\": \"");
                s.append(server_public_key.as_str());
                s.append("\", \"endpoint\": \"");
                s.append(endpoint_ip.as_str());
                s.append(":");
                s.append(endpoint_port.as_str());
                s.append("\", \"subdomain\": \"");
                let a_text = u8_to_dec(*a);
                s.append(a_text.as_str());
                s.append(".");
                let b_text = u8_to_dec(*b);
                s.append(b_text.as_str());
                s.append("\" }, \"type\": \"message\" }");
                proof {
                    assert(s@ =~= frame_text(*self));
                }
                s
            },
            ControlFrame::Update { up, down } => {
                let mut s = String::from_str("{ \"message\": { \"up\": ");
                let up_text = i128_to_dec(*up);
                s.append(up_text.as_str());
                s.append(", \"down\": ");
                let down_text = i128_to_dec(*down);
                s.append(down_text.as_str());
                s.append(" }, \"type\": \"update\"}");
                proof {
                    assert(s@ =~= frame_text(*self));
                }
                s
            },
            ControlFrame::ExceededUsage => String::from_str(
                "{ \"message\": \"UDC-EU\", \"type\": \"error\"}",
            ),
            ControlFrame::RemovedClient => String::from_str(
                "{ \"message\": \"Removed client successfully.\", \"type\": \"message\" }",
            ),
            ControlFrame::SlotExhausted => String::from_str(
                "{ \"message\": \"No open slot is available on this node.\", \"type\": \"error\" }",
            ),
            ControlFrame::ReservationBounced => String::from_str(
                "{ \"message\": \"Slot reservation failed.\", \"type\": \"error\" }",
            ),
            ControlFrame::PeerSetupFailed => String::from_str(
                "{ \"message\": \"Failed to program the peer.\", \"type\": \"error\" }",
            ),
            ControlFrame::UnknownQuery => String::from_str(
                "{ \"message\": \"Unknown query_type, expected one of open, close, resume.\", \"type\": \"error\" }",
            ),
            ControlFrame::MalformedQuery => String::from_str(
                "{ \"message\": \"Unable to parse query.\", \"type\": \"error\" }",
            ),
        }
    }
}

} // verus!
