//! The per-session state machine: admission, the `open` / `close` control
//! queries, and session teardown. Every function here computes the next
//! state of the shared node state together with the outward actions the
//! caller must perform; the caller owns the socket, the tunnel commands
//! and the persistence calls.
use vstd::prelude::*;

use crate::client::{canon_pk, pk_shape_ok, Client, Connection, Host, Maximums, Reservation, Slot};
use crate::usage::Usage;
use crate::clock::{chrono_millis_in_range, now_timestamp_millis, rfc3339_of, rfc3339_of_millis};
use crate::frames::{frame_text, open_reply_text, ControlFrame};
use crate::ids::new_session_id;
use crate::params::QueryParameters;
use crate::strings::{dec_of_nat, trim_spec, trim_ws, u8_to_dec};
use crate::wireguard::{apply_slot_op, SlotOp, WireGuardConfig};
use vstd::string::StringExecFns;

verus! {

/// One row for the `Usage` table, together with the billing callback the
/// caller attempts once the row is committed.
#[derive(Debug, Clone)]
pub struct UsageRecord {
    pub session_id: String,
    pub author: String,
    pub server_name: String,
    pub up: i128,
    pub down: i128,
    pub conn_start: String,
    pub conn_end: String,
}

/// An outward effect the caller performs, in list order: send a frame on
/// the session's control sink, program or deprogram a peer on the local
/// interface, persist a usage row (and then attempt the billing callback,
/// best effort), or pause.
#[derive(Debug, Clone)]
pub enum SessionAction {
    Send(ControlFrame),
    AddPeer { public_key: String, allowed_ip: String },
    RemovePeer { public_key: String },
    Record(UsageRecord),
    Wait { millis: u64 },
}

/// The mathematical shadow of one action.
pub enum ActionView {
    Send { text: Seq<char> },
    AddPeer { public_key: Seq<char>, allowed_ip: Seq<char> },
    RemovePeer { public_key: Seq<char> },
    Record {
        session_id: Seq<char>,
        author: Seq<char>,
        server_name: Seq<char>,
        up: int,
        down: int,
        conn_start: Seq<char>,
        conn_end: Seq<char>,
    },
    Wait { millis: int },
}

impl View for SessionAction {
    type V = ActionView;

    open spec fn view(&self) -> ActionView {
        match self {
            SessionAction::Send(f) => ActionView::Send { text: frame_text(*f) },
            SessionAction::AddPeer { public_key, allowed_ip } => ActionView::AddPeer {
                public_key: public_key@,
                allowed_ip: allowed_ip@,
            },
            SessionAction::RemovePeer { public_key } => ActionView::RemovePeer {
                public_key: public_key@,
            },
            SessionAction::Record(rec) => ActionView::Record {
                session_id: rec.session_id@,
                author: rec.author@,
                server_name: rec.server_name@,
                up: rec.up as int,
                down: rec.down as int,
                conn_start: rec.conn_start@,
                conn_end: rec.conn_end@,
            },
            SessionAction::Wait { millis } => ActionView::Wait { millis: *millis as int },
        }
    }
}

pub open spec fn views_of(actions: Seq<SessionAction>) -> Seq<ActionView> {
    actions.map_values(|a: SessionAction| a@)
}

pub proof fn lemma_views_concat(a: Seq<SessionAction>, b: Seq<SessionAction>)
    ensures
        views_of(a + b) == views_of(a) + views_of(b),
{
    assert(views_of(a + b) =~= views_of(a) + views_of(b));
}

/// The allowed-IPs entry programmed for a peer on slot `(a, b)`: the
/// single host `10.8.<a>.<b>/32`.
pub open spec fn allowed_ip_text(a: u8, b: u8) -> Seq<char> {
    "10.8."@ + dec_of_nat(a as nat) + "."@ + dec_of_nat(b as nat) + "/32"@
}

fn render_allowed_ip(a: u8, b: u8) -> (r: String)
    ensures
        r@ == allowed_ip_text(a, b),
{
    let mut s = String::from_str("10.8.");
    let a_text = u8_to_dec(a);
    s.append(a_text.as_str());
    s.append(".");
    let b_text = u8_to_dec(b);
    s.append(b_text.as_str());
    s.append("/32");
    proof {
        assert(s@ =~= allowed_ip_text(a, b));
    }
    s
}

/// Everything but the client roster and the registry is untouched.
pub open spec fn frame_fields_unchanged(pre: WireGuardConfig, post: WireGuardConfig) -> bool {
    &&& post.config == pre.config
    &&& post.keys == pre.keys
    &&& post.internal_addr == pre.internal_addr
    &&& post.information == pre.information
    &&& post.registry.rows == pre.registry.rows
}

/// The record an admission leaves in the roster for canonical key `ck`: a
/// returning key keeps everything from its previous record but the
/// author; a new key starts fresh.
pub open spec fn admitted_record(
    pre: WireGuardConfig,
    ck: Seq<char>,
    author: String,
    canonical: String,
) -> Client {
    if pre.clients.contains_key(ck) {
        (Client { author, limit: -1i128, ..pre.clients.map_view()[ck] })
    } else {
        (Client {
            author,
            public_key: canonical,
            maximums: crate::client::Maximums::Unassigned,
            limit: -1i128,
            connected: Connection::Disconnected,
            usage: (Usage { up: 0, down: 0 }),
            valid_pk: true,
        })
    }
}

/// The outcome of admitting one upgraded socket.
pub struct AdmitResult {
    /// Whether the session may proceed; when `false` the caller sends the
    /// actions and closes the socket.
    pub admitted: bool,
    /// The canonicalized public key the session is registered under.
    pub key: String,
    pub actions: Vec<SessionAction>,
}

/// Validates the public key of an upgraded socket and, when it passes,
/// registers the session in the roster: a returning key is merged so its
/// historical counters survive, and `PUBLIC_KEY_OK` is acknowledged on
/// the sink. A malformed key leaves the node state untouched and earns
/// one error frame before the socket closes.
pub fn admit_client(config: &mut WireGuardConfig, parameters: &QueryParameters) -> (r: AdmitResult)
    requires
        old(config).wf(),
    ensures
        final(config).wf(),
        !pk_shape_ok(parameters.public_key@) ==> {
            &&& !r.admitted
            &&& *final(config) == *old(config)
            &&& views_of(r.actions@) == seq![
                ActionView::Send { text: frame_text(ControlFrame::InvalidPublicKey) },
            ]
        },
        pk_shape_ok(parameters.public_key@) ==> {
            &&& r.admitted
            &&& r.key@ == canon_pk(parameters.public_key@)
            &&& final(config).clients.map_view() == old(config).clients.map_view().insert(
                r.key@,
                admitted_record(
                    *old(config),
                    r.key@,
                    parameters.author,
                    r.key,
                ),
            )
            &&& final(config).registry == old(config).registry
            &&& frame_fields_unchanged(*old(config), *final(config))
            &&& views_of(r.actions@) == seq![
                ActionView::Send { text: frame_text(ControlFrame::PublicKeyOk) },
            ]
        },
{
    let client = Client::new().set_public_key(parameters.public_key.clone()).set_author(
        parameters.author.clone(),
    );
    if !client.is_valid() {
        let mut actions: Vec<SessionAction> = Vec::new();
        actions.push(SessionAction::Send(ControlFrame::InvalidPublicKey));
        proof {
            assert(views_of(actions@) =~= seq![
                ActionView::Send { text: frame_text(ControlFrame::InvalidPublicKey) },
            ]);
        }
        return AdmitResult { admitted: false, key: client.public_key, actions };
    }
    let mut client = client;
    let key = client.public_key.clone();
    match config.clients.take(key.as_str()) {
        Some(existing) => {
            client.merge_from(&existing);
            client = client.set_author(parameters.author.clone());
        },
        None => {},
    }
    config.clients.put(client);
    let mut actions: Vec<SessionAction> = Vec::new();
    actions.push(SessionAction::Send(ControlFrame::PublicKeyOk));
    proof {
        assert(views_of(actions@) =~= seq![
            ActionView::Send { text: frame_text(ControlFrame::PublicKeyOk) },
        ]);
        assert(final(config).clients.map_view() =~= old(config).clients.map_view().insert(
            key@,
            admitted_record(*old(config), key@, parameters.author, key),
        ));
    }
    AdmitResult { admitted: true, key, actions }
}

/// Removes the session's record from the roster once its socket is gone.
pub fn end_session(config: &mut WireGuardConfig, client_id: &str)
    requires
        old(config).wf(),
    ensures
        final(config).wf(),
        final(config).clients.map_view() == old(config).clients.map_view().remove(client_id@),
        !final(config).clients.contains_key(client_id@),
        final(config).registry == old(config).registry,
        frame_fields_unchanged(*old(config), *final(config)),
    {
    let taken = config.clients.take(client_id);
    proof {
        if taken is None {
            assert(final(config).clients.map_view() =~= old(config).clients.map_view().remove(
                client_id@,
            ));
        }
        assert(!final(config).clients.map_view().contains_key(client_id@));
        assert(!final(config).clients.contains_key(client_id@));
    }
}

/// One `Usage` row of the current billing month, as the store returns it:
/// both counters are decimal text.
#[derive(Debug, Clone)]
pub struct UsageRow {
    pub up: String,
    pub down: String,
}

/// The value a stored counter contributes: rows that do not parse as an
/// `i128` degrade to zero.
pub open spec fn row_val(s: Seq<char>) -> int {
    match crate::strings::int_of_dec(s) {
        Some(v) => if i128::MIN <= v <= i128::MAX {
            v
        } else {
            0
        },
        None => 0,
    }
}

/// Addition clamped to the `i128` range.
pub open spec fn sat_add_i128(a: int, b: int) -> int {
    if a + b > i128::MAX {
        i128::MAX as int
    } else if a + b < i128::MIN {
        i128::MIN as int
    } else {
        a + b
    }
}

pub open spec fn accrued_up(rows: Seq<UsageRow>) -> int
    decreases rows.len(),
{
    if rows.len() == 0 {
        0
    } else {
        sat_add_i128(accrued_up(rows.drop_last()), row_val(rows.last().up@))
    }
}

pub open spec fn accrued_down(rows: Seq<UsageRow>) -> int
    decreases rows.len(),
{
    if rows.len() == 0 {
        0
    } else {
        sat_add_i128(accrued_down(rows.drop_last()), row_val(rows.last().down@))
    }
}

fn sat_add(a: i128, b: i128) -> (r: i128)
    ensures
        r as int == sat_add_i128(a as int, b as int),
{
    if b >= 0 {
        if a > i128::MAX - b {
            i128::MAX
        } else {
            a + b
        }
    } else {
        if a < i128::MIN - b {
            i128::MIN
        } else {
            a + b
        }
    }
}

/// Sums the billing month's stored counters, upload first; rows that do
/// not parse count as zero, and the sums saturate at the `i128` range.
pub fn aggregate_usage(rows: &Vec<UsageRow>) -> (r: (i128, i128))
    ensures
        r.0 as int == accrued_up(rows@),
        r.1 as int == accrued_down(rows@),
{
    let mut up: i128 = 0;
    let mut down: i128 = 0;
    let mut i: usize = 0;
    let n = rows.len();
    while i < n
        invariant
            0 <= i <= n,
            n == rows@.len(),
            up as int == accrued_up(rows@.subrange(0, i as int)),
            down as int == accrued_down(rows@.subrange(0, i as int)),
        decreases n - i,
    {
        let ghost prefix = rows@.subrange(0, i as int);
        let ghost prefix1 = rows@.subrange(0, i + 1 as int);
        proof {
            assert(prefix1.drop_last() =~= prefix);
            assert(prefix1.last() == rows@[i as int]);
        }
        let row_up: i128 = match crate::strings::parse_i128(rows[i].up.as_str()) {
            Some(v) => v,
            None => 0,
        };
        let row_down: i128 = match crate::strings::parse_i128(rows[i].down.as_str()) {
            Some(v) => v,
            None => 0,
        };
        up = sat_add(up, row_up);
        down = sat_add(down, row_down);
        i = i + 1;
    }
    proof {
        assert(rows@.subrange(0, n as int) =~= rows@);
    }
    (up, down)
}

/// The tier an account row denotes, by literal match, with the billing
/// month's carried totals attached; an unknown or missing tier stays
/// `Unassigned`.
pub open spec fn spec_tier_of(t: Option<Seq<char>>, up: i128, down: i128) -> Maximums {
    match t {
        Option::None => Maximums::Unassigned,
        Option::Some(s) => {
            if s == "FREE"@ {
                Maximums::Free(up as i128, down as i128)
            } else if s == "PRO"@ {
                Maximums::Pro(up, down)
            } else if s == "BASIC"@ {
                Maximums::Basic(up, down)
            } else if s == "SUPPORTER"@ {
                Maximums::Supporter(up, down)
            } else {
                Maximums::Unassigned
            }
        },
    }
}

pub open spec fn opt_str_view(t: Option<&str>) -> Option<Seq<char>> {
    match t {
        Option::None => Option::None,
        Option::Some(s) => Option::Some(s@),
    }
}

/// Applies what the persistence gateway found during admission: the
/// session's tier, carrying the billing month's accrued `(up, down)`
/// totals. A failed tier lookup (`None`) leaves the record `Unassigned`,
/// its grace window; a session that vanished meanwhile is left alone.
pub fn apply_account(
    config: &mut WireGuardConfig,
    client_id: &str,
    rows: &Vec<UsageRow>,
    tier: Option<&str>,
) -> (r: (i128, i128))
    requires
        old(config).wf(),
    ensures
        final(config).wf(),
        r.0 as int == accrued_up(rows@),
        r.1 as int == accrued_down(rows@),
        old(config).clients.contains_key(client_id@) ==> {
            &&& final(config).clients.map_view() == old(config).clients.map_view().insert(
                client_id@,
                (Client {
                    maximums: spec_tier_of(opt_str_view(tier), r.0, r.1),
                    ..old(config).clients.map_view()[client_id@]
                }),
            )
            &&& final(config).registry == old(config).registry
            &&& frame_fields_unchanged(*old(config), *final(config))
        },
        !old(config).clients.contains_key(client_id@) ==> *final(config) == *old(config),
{
    let (up, down) = aggregate_usage(rows);
    let maximums = match tier {
        Option::None => Maximums::Unassigned,
        Option::Some(t) => {
            if crate::strings::str_eq(t, "FREE") {
                Maximums::Free(up, down)
            } else if crate::strings::str_eq(t, "PRO") {
                Maximums::Pro(up, down)
            } else if crate::strings::str_eq(t, "BASIC") {
                Maximums::Basic(up, down)
            } else if crate::strings::str_eq(t, "SUPPORTER") {
                Maximums::Supporter(up, down)
            } else {
                Maximums::Unassigned
            }
        },
    };
    match config.clients.take(client_id) {
        Some(mut c) => {
            c.set_tier(maximums);
            config.clients.put(c);
            proof {
                assert(final(config).clients.map_view() =~= old(
                    config,
                ).clients.map_view().insert(
                    client_id@,
                    (Client {
                        maximums: spec_tier_of(opt_str_view(tier), up, down),
                        ..old(config).clients.map_view()[client_id@]
                    }),
                ));
            }
        },
        None => {},
    }
    (up, down)
}

/// What one `open` query does to the node state, for the probed host `h`:
/// on a full node only an error frame goes out; otherwise `h` is the first
/// free slot, and when the session is in the roster it is connected to
/// `h`, the slot is marked, the peer is programmed and the tunnel
/// parameters are sent, while a vanished session gives the slot straight
/// back.
pub open spec fn open_step(
    pre: WireGuardConfig,
    post: WireGuardConfig,
    key: Seq<char>,
    acts: Seq<ActionView>,
    h: Host,
) -> bool {
    if pre.registry.full() {
        &&& post == pre
        &&& acts == seq![ActionView::Send { text: frame_text(ControlFrame::SlotExhausted) }]
    } else {
        &&& pre.registry.is_first_free(h.a as int, h.b as int)
        &&& chrono_millis_in_range(h.conn_time as int)
        &&& if pre.clients.contains_key(key) {
            let c = pre.clients.map_view()[key];
            &&& post.clients.map_view() == pre.clients.map_view().insert(
                key,
                (Client { connected: Connection::Connected(h), ..c }),
            )
            &&& post.registry.grid() == pre.registry.grid().insert((h.a as int, h.b as int), true)
            &&& frame_fields_unchanged(pre, post)
            &&& acts == seq![
                ActionView::AddPeer {
                    public_key: c.public_key@,
                    allowed_ip: allowed_ip_text(h.a, h.b),
                },
                ActionView::Send {
                    text: open_reply_text(
                        trim_spec(pre.keys.public_key@),
                        pre.config.address@,
                        trim_spec(pre.config.listen_port@),
                        h.a,
                        h.b,
                    ),
                },
            ]
        } else {
            &&& post.clients.map_view() == pre.clients.map_view()
            &&& post.registry.grid() == pre.registry.grid()
            &&& frame_fields_unchanged(pre, post)
            &&& acts == Seq::<ActionView>::empty()
        }
    }
}

/// Handles `{"query_type":"open"}`: probes the registry, reserves the
/// first free slot under the exclusive borrow (so the reservation cannot
/// bounce), connects the session's record and emits the peer programming
/// and the reply. See `open_step` for the exact effect.
pub fn open_query(config: &mut WireGuardConfig, client_id: &str) -> (r: Vec<SessionAction>)
    requires
        old(config).wf(),
    ensures
        final(config).wf(),
        exists|h: Host| #[trigger] open_step(
            *old(config),
            *final(config),
            client_id@,
            views_of(r@),
            h,
        ),
{
    let slot = config.find_open_slot();
    match slot {
        Slot::Prospective => {
            let mut actions: Vec<SessionAction> = Vec::new();
            actions.push(SessionAction::Send(ControlFrame::SlotExhausted));
            proof {
                let hw = Host { a: 0, b: 0, conn_time: 0 };
                assert(views_of(actions@) =~= seq![
                    ActionView::Send { text: frame_text(ControlFrame::SlotExhausted) },
                ]);
                assert(open_step(*old(config), *final(config), client_id@, views_of(actions@), hw));
            }
            actions
        },
        Slot::Open(h) => {
            let reservation = config.reserve_slot(h);
            match reservation {
                Reservation::Held(held) => {
                    match config.clients.take(client_id) {
                        Some(mut c) => {
                            let ghost c0 = old(config).clients.map_view()[client_id@];
                            c.set_connectivity(Connection::Connected(held));
                            let pk = c.public_key.clone();
                            config.clients.put(c);
                            let allowed = render_allowed_ip(held.a, held.b);
                            let server_public_key = trim_ws(config.keys.public_key.as_str());
                            let endpoint_port = trim_ws(config.config.listen_port.as_str());
                            let endpoint_ip = config.config.address.clone();
                            let mut actions: Vec<SessionAction> = Vec::new();
                            actions.push(
                                SessionAction::AddPeer { public_key: pk, allowed_ip: allowed },
                            );
                            actions.push(
                                SessionAction::Send(
                                    ControlFrame::OpenReply {
                                        server_public_key,
                                        endpoint_ip,
                                        endpoint_port,
                                        a: held.a,
                                        b: held.b,
                                    },
                                ),
                            );
                            proof {
                                assert(final(config).clients.map_view()
                                    == old(config).clients.map_view().insert(
                                    client_id@,
                                    (Client { connected: Connection::Connected(h), ..c0 }),
                                ));
                                assert(views_of(actions@) =~= seq![
                                    ActionView::AddPeer {
                                        public_key: c0.public_key@,
                                        allowed_ip: allowed_ip_text(h.a, h.b),
                                    },
                                    ActionView::Send {
                                        text: open_reply_text(
                                            trim_spec(old(config).keys.public_key@),
                                            old(config).config.address@,
                                            trim_spec(old(config).config.listen_port@),
                                            h.a,
                                            h.b,
                                        ),
                                    },
                                ]);
                                assert(open_step(
                                    *old(config),
                                    *final(config),
                                    client_id@,
                                    views_of(actions@),
                                    h,
                                ));
                            }
                            actions
                        },
                        None => {
                            config.free_slot(&held);
                            let actions: Vec<SessionAction> = Vec::new();
                            proof {
                                assert(final(config).registry.grid() =~= old(
                                    config,
                                ).registry.grid());
                                assert(views_of(actions@) =~= Seq::<ActionView>::empty());
                                assert(open_step(
                                    *old(config),
                                    *final(config),
                                    client_id@,
                                    views_of(actions@),
                                    h,
                                ));
                            }
                            actions
                        },
                    }
                },
                Reservation::Detached(_) => {
                    proof {
                        assert(false);
                    }
                    unreached()
                },
                Reservation::Imissable => {
                    proof {
                        assert(false);
                    }
                    unreached()
                },
            }
        },
    }
}

/// Applies the outcome of programming the peer after a successful `open`:
/// a failed `add_peer` rolls the session back — the slot is given back,
/// the record returns to `Disconnected`, and the client hears an error —
/// while success changes nothing.
pub fn confirm_peer(config: &mut WireGuardConfig, client_id: &str, ok: bool) -> (r: Vec<
    SessionAction,
>)
    requires
        old(config).wf(),
    ensures
        final(config).wf(),
        ok ==> *final(config) == *old(config) && views_of(r@) == Seq::<ActionView>::empty(),
        !ok ==> {
            if old(config).clients.contains_key(client_id@) {
                match old(config).clients.map_view()[client_id@].connected {
                    Connection::Connected(h) => {
                        &&& final(config).clients.map_view() == old(
                            config,
                        ).clients.map_view().insert(
                            client_id@,
                            (Client {
                                connected: Connection::Disconnected,
                                ..old(config).clients.map_view()[client_id@]
                            }),
                        )
                        &&& final(config).registry.grid() == apply_slot_op(
                            old(config).registry.grid(),
                            SlotOp::Free { a: h.a as int, b: h.b as int },
                        )
                        &&& frame_fields_unchanged(*old(config), *final(config))
                        &&& views_of(r@) == seq![
                            ActionView::Send { text: frame_text(ControlFrame::PeerSetupFailed) },
                        ]
                    },
                    Connection::Disconnected => {
                        &&& final(config).clients.map_view() == old(config).clients.map_view()
                        &&& final(config).registry == old(config).registry
                        &&& frame_fields_unchanged(*old(config), *final(config))
                        &&& views_of(r@) == Seq::<ActionView>::empty()
                    },
                }
            } else {
                *final(config) == *old(config) && views_of(r@) == Seq::<ActionView>::empty()
            }
        },
{
    if ok {
        let actions: Vec<SessionAction> = Vec::new();
        proof {
            assert(views_of(actions@) =~= Seq::<ActionView>::empty());
        }
        return actions;
    }
    match config.clients.take(client_id) {
        Some(mut c) => {
            match c.connected {
                Connection::Connected(h) => {
                    c.set_connectivity(Connection::Disconnected);
                    config.clients.put(c);
                    config.free_slot(&h);
                    let mut actions: Vec<SessionAction> = Vec::new();
                    actions.push(SessionAction::Send(ControlFrame::PeerSetupFailed));
                    proof {
                        assert(final(config).clients.map_view() =~= old(
                            config,
                        ).clients.map_view().insert(
                            client_id@,
                            (Client {
                                connected: Connection::Disconnected,
                                ..old(config).clients.map_view()[client_id@]
                            }),
                        ));
                        assert(views_of(actions@) =~= seq![
                            ActionView::Send { text: frame_text(ControlFrame::PeerSetupFailed) },
                        ]);
                    }
                    actions
                },
                Connection::Disconnected => {
                    config.clients.put(c);
                    let actions: Vec<SessionAction> = Vec::new();
                    proof {
                        assert(final(config).clients.map_view() =~= old(
                            config,
                        ).clients.map_view());
                        assert(views_of(actions@) =~= Seq::<ActionView>::empty());
                    }
                    actions
                },
            }
        },
        None => {
            let actions: Vec<SessionAction> = Vec::new();
            proof {
                assert(views_of(actions@) =~= Seq::<ActionView>::empty());
            }
            actions
        },
    }
}

/// What one `close` does to the node state, for the closing time `now`
/// and the session identifier `sid`: a connected session is torn down —
/// the peer is removed, one usage row is recorded (with the billing
/// callback attempted after it), the slot is freed and the client is told
/// — while a session that is already disconnected only hears the
/// farewell, with no tunnel command and no record; an unknown key does
/// nothing.
pub open spec fn close_step(
    pre: WireGuardConfig,
    post: WireGuardConfig,
    key: Seq<char>,
    acts: Seq<ActionView>,
    now: int,
    sid: Seq<char>,
) -> bool {
    if pre.clients.contains_key(key) {
        let c = pre.clients.map_view()[key];
        match c.connected {
            Connection::Connected(h) => {
                &&& post.clients.map_view() == pre.clients.map_view().insert(
                    key,
                    (Client { connected: Connection::Disconnected, ..c }),
                )
                &&& post.registry.grid() == apply_slot_op(
                    pre.registry.grid(),
                    SlotOp::Free { a: h.a as int, b: h.b as int },
                )
                &&& frame_fields_unchanged(pre, post)
                &&& acts == seq![
                    ActionView::RemovePeer { public_key: c.public_key@ },
                    ActionView::Record {
                        session_id: sid,
                        author: c.author@,
                        server_name: pre.config.name@,
                        up: c.usage.up as int,
                        down: c.usage.down as int,
                        conn_start: if chrono_millis_in_range(h.conn_time as int) {
                            rfc3339_of(h.conn_time as int)
                        } else {
                            Seq::<char>::empty()
                        },
                        conn_end: if chrono_millis_in_range(now) {
                            rfc3339_of(now)
                        } else {
                            Seq::<char>::empty()
                        },
                    },
                    ActionView::Send { text: frame_text(ControlFrame::RemovedClient) },
                ]
            },
            Connection::Disconnected => {
                &&& post.clients.map_view() == pre.clients.map_view()
                &&& post.registry == pre.registry
                &&& frame_fields_unchanged(pre, post)
                &&& acts == seq![
                    ActionView::Send { text: frame_text(ControlFrame::RemovedClient) },
                ]
            },
        }
    } else {
        &&& post == pre
        &&& acts == Seq::<ActionView>::empty()
    }
}

/// Handles `{"query_type":"close"}` at a given closing time and with a
/// given session identifier; see `close_step` for the exact effect. The
/// start time comes from the slot's own reservation stamp, never from a
/// fresh kernel sample: the meter loop is authoritative for the counters.
pub fn close_query_at(
    config: &mut WireGuardConfig,
    client_id: &str,
    now: i64,
    session_id: String,
) -> (r: Vec<SessionAction>)
    requires
        old(config).wf(),
    ensures
        final(config).wf(),
        close_step(
            *old(config),
            *final(config),
            client_id@,
            views_of(r@),
            now as int,
            session_id@,
        ),
{
    match config.clients.take(client_id) {
        Some(mut c) => {
            match c.connected {
                Connection::Connected(h) => {
                    let ghost c0 = old(config).clients.map_view()[client_id@];
                    c.set_connectivity(Connection::Disconnected);
                    let public_key = c.public_key.clone();
                    let author = c.author.clone();
                    let up = c.usage.up;
                    let down = c.usage.down;
                    config.clients.put(c);
                    config.free_slot(&h);
                    let conn_start = match rfc3339_of_millis(h.conn_time) {
                        Some(s) => s,
                        None => String::new(),
                    };
                    let conn_end = match rfc3339_of_millis(now) {
                        Some(s) => s,
                        None => String::new(),
                    };
                    let record = UsageRecord {
                        session_id,
                        author,
                        server_name: config.config.name.clone(),
                        up,
                        down,
                        conn_start,
                        conn_end,
                    };
                    let mut actions: Vec<SessionAction> = Vec::new();
                    actions.push(SessionAction::RemovePeer { public_key });
                    actions.push(SessionAction::Record(record));
                    actions.push(SessionAction::Send(ControlFrame::RemovedClient));
                    proof {
                        assert(final(config).clients.map_view() =~= old(
                            config,
                        ).clients.map_view().insert(
                            client_id@,
                            (Client { connected: Connection::Disconnected, ..c0 }),
                        ));
                        assert(views_of(actions@) =~= seq![
                            ActionView::RemovePeer { public_key: c0.public_key@ },
                            ActionView::Record {
                                session_id: session_id@,
                                author: c0.author@,
                                server_name: old(config).config.name@,
                                up: c0.usage.up as int,
                                down: c0.usage.down as int,
                                conn_start: if chrono_millis_in_range(h.conn_time as int) {
                                    rfc3339_of(h.conn_time as int)
                                } else {
                                    Seq::<char>::empty()
                                },
                                conn_end: if chrono_millis_in_range(now as int) {
                                    rfc3339_of(now as int)
                                } else {
                                    Seq::<char>::empty()
                                },
                            },
                            ActionView::Send { text: frame_text(ControlFrame::RemovedClient) },
                        ]);
                    }
                    actions
                },
                Connection::Disconnected => {
                    config.clients.put(c);
                    let mut actions: Vec<SessionAction> = Vec::new();
                    actions.push(SessionAction::Send(ControlFrame::RemovedClient));
                    proof {
                        assert(final(config).clients.map_view() =~= old(
                            config,
                        ).clients.map_view());
                        assert(views_of(actions@) =~= seq![
                            ActionView::Send { text: frame_text(ControlFrame::RemovedClient) },
                        ]);
                    }
                    actions
                },
            }
        },
        None => {
            let actions: Vec<SessionAction> = Vec::new();
            proof {
                assert(views_of(actions@) =~= Seq::<ActionView>::empty());
            }
            actions
        },
    }
}

/// Handles `{"query_type":"close"}`, stamping the session's end with the
/// current time and a fresh session identifier.
pub fn close_query(config: &mut WireGuardConfig, client_id: &str) -> (r: Vec<SessionAction>)
    requires
        old(config).wf(),
    ensures
        final(config).wf(),
        exists|now: int, sid: Seq<char>| #[trigger] close_step(
            *old(config),
            *final(config),
            client_id@,
            views_of(r@),
            now,
            sid,
        ) && sid.len() == 36 && chrono_millis_in_range(now),
{
    let now = now_timestamp_millis();
    let session_id = new_session_id();
    let ghost sid = session_id@;
    let r = close_query_at(config, client_id, now, session_id);
    proof {
        assert(close_step(
            *old(config),
            *final(config),
            client_id@,
            views_of(r@),
            now as int,
            sid,
        ));
    }
    r
}

/// The node's standing invariant, established at bootstrap and kept by
/// every session step: the server's own slot `(2, 1)` is occupied, every
/// connected client holds an occupied in-grid slot other than the
/// server's, and no two clients hold the same slot.
pub open spec fn coherent(s: WireGuardConfig) -> bool {
    &&& s.registry.in_grid(2, 1)
    &&& s.registry.occupied(2, 1)
    &&& forall|k: Seq<char>| #[trigger]
        s.clients.map_view().contains_key(k) ==> (match s.clients.map_view()[k].connected {
            Connection::Connected(h) => {
                &&& s.registry.in_grid(h.a as int, h.b as int)
                &&& s.registry.occupied(h.a as int, h.b as int)
                &&& (h.a as int, h.b as int) != (2int, 1int)
            },
            Connection::Disconnected => true,
        })
    &&& forall|k1: Seq<char>, k2: Seq<char>|
        #![trigger s.clients.map_view()[k1], s.clients.map_view()[k2]]
        s.clients.map_view().contains_key(k1) && s.clients.map_view().contains_key(k2) && k1 != k2
            ==> (match (s.clients.map_view()[k1].connected, s.clients.map_view()[k2].connected) {
            (Connection::Connected(h1), Connection::Connected(h2)) => (h1.a, h1.b) != (h2.a, h2.b),
            _ => (true),
        })
}

/// Bootstrap establishes coherence: the roster starts empty and the
/// server's slot is reserved before anything is served.
pub proof fn lemma_bootstrap_coherent(s: WireGuardConfig)
    requires
        s.clients.map_view() == Map::<Seq<char>, Client>::empty(),
        s.registry.in_grid(2, 1),
        s.registry.occupied(2, 1),
    ensures
        coherent(s),
{
}

/// Replacing one roster record with one that is disconnected, or that
/// keeps the slot the old record under the same key held, cannot break
/// coherence while the registry stands still. This covers admission (a
/// fresh or merged record keeps its previous slot), the account lookup,
/// and a meter update.
pub proof fn lemma_roster_update_preserves_coherence(
    pre: WireGuardConfig,
    post: WireGuardConfig,
    key: Seq<char>,
    c2: Client,
)
    requires
        coherent(pre),
        post.registry == pre.registry,
        post.clients.map_view() == pre.clients.map_view().insert(key, c2),
        c2.connected is Disconnected || (pre.clients.map_view().contains_key(key)
            && c2.connected == pre.clients.map_view()[key].connected),
    ensures
        coherent(post),
{
}

/// Connecting one roster record to a freshly reserved free slot keeps the
/// node coherent: the slot was free, so nobody else held it, and the
/// server's slot stays occupied.
pub proof fn lemma_connect_preserves_coherence(
    pre: WireGuardConfig,
    post: WireGuardConfig,
    key: Seq<char>,
    h: Host,
)
    requires
        coherent(pre),
        pre.clients.map_view().contains_key(key),
        pre.registry.in_grid(h.a as int, h.b as int),
        !pre.registry.occupied(h.a as int, h.b as int),
        post.clients.map_view() == pre.clients.map_view().insert(
            key,
            (Client { connected: Connection::Connected(h), ..pre.clients.map_view()[key] }),
        ),
        post.registry.grid() == pre.registry.grid().insert((h.a as int, h.b as int), true),
        post.registry.rows == pre.registry.rows,
    ensures
        coherent(post),
{
    assert(pre.registry.grid().contains_key((2int, 1int)));
    assert(post.registry.grid()[(2int, 1int)]);
    assert(post.registry.occupied(2, 1));
    assert forall|k: Seq<char>| #[trigger]
        post.clients.map_view().contains_key(k) implies (
    match post.clients.map_view()[k].connected {
        Connection::Connected(h2) => {
            &&& post.registry.in_grid(h2.a as int, h2.b as int)
            &&& post.registry.occupied(h2.a as int, h2.b as int)
            &&& (h2.a as int, h2.b as int) != (2int, 1int)
        },
        Connection::Disconnected => true,
    }) by {
        match post.clients.map_view()[k].connected {
            Connection::Connected(h2) => {
                assert(post.registry.grid().contains_key((h2.a as int, h2.b as int)));
                assert(post.registry.grid()[(h2.a as int, h2.b as int)]);
            },
            Connection::Disconnected => {},
        }
    }
}

/// Freeing the slot a disconnecting record held keeps the node coherent:
/// the record held neither the server's slot nor any other client's.
pub proof fn lemma_disconnect_preserves_coherence(
    pre: WireGuardConfig,
    post: WireGuardConfig,
    key: Seq<char>,
    h: Host,
    c2: Client,
)
    requires
        coherent(pre),
        pre.clients.map_view().contains_key(key),
        pre.clients.map_view()[key].connected == Connection::Connected(h),
        c2.connected is Disconnected,
        post.clients.map_view() == pre.clients.map_view().insert(key, c2),
        post.registry.grid() == apply_slot_op(
            pre.registry.grid(),
            SlotOp::Free { a: h.a as int, b: h.b as int },
        ),
        post.registry.rows == pre.registry.rows,
    ensures
        coherent(post),
{
    assert(pre.registry.grid().contains_key((2int, 1int)));
    assert(post.registry.grid()[(2int, 1int)]);
    assert(post.registry.occupied(2, 1));
    assert forall|k: Seq<char>| #[trigger]
        post.clients.map_view().contains_key(k) implies (
    match post.clients.map_view()[k].connected {
        Connection::Connected(h2) => {
            &&& post.registry.in_grid(h2.a as int, h2.b as int)
            &&& post.registry.occupied(h2.a as int, h2.b as int)
            &&& (h2.a as int, h2.b as int) != (2int, 1int)
        },
        Connection::Disconnected => true,
    }) by {
        if k != key {
            match post.clients.map_view()[k].connected {
                Connection::Connected(h2) => {
                    assert(pre.clients.map_view()[k].connected == Connection::Connected(h2));
                    // Distinct clients held distinct slots, so the freed
                    // cell is not this one.
                    assert((h2.a, h2.b) != (h.a, h.b));
                    assert(post.registry.grid().contains_key((h2.a as int, h2.b as int)));
                    assert(post.registry.grid()[(h2.a as int, h2.b as int)]);
                },
                Connection::Disconnected => {},
            }
        }
    }
}

/// Removing a record from the roster cannot break coherence.
pub proof fn lemma_remove_preserves_coherence(
    pre: WireGuardConfig,
    post: WireGuardConfig,
    key: Seq<char>,
)
    requires
        coherent(pre),
        post.registry == pre.registry,
        post.clients.map_view() == pre.clients.map_view().remove(key),
    ensures
        coherent(post),
{
}

/// One `open` keeps the node coherent, whatever it did.
pub proof fn lemma_open_preserves_coherence(
    pre: WireGuardConfig,
    post: WireGuardConfig,
    key: Seq<char>,
    acts: Seq<ActionView>,
    h: Host,
)
    requires
        coherent(pre),
        open_step(pre, post, key, acts, h),
    ensures
        coherent(post),
{
    if pre.registry.full() {
    } else if pre.clients.contains_key(key) {
        assert(pre.clients.map_view().contains_key(key));
        lemma_connect_preserves_coherence(pre, post, key, h);
    } else {
        assert forall|k: Seq<char>| #[trigger]
            post.clients.map_view().contains_key(k) implies (
        match post.clients.map_view()[k].connected {
            Connection::Connected(h2) => {
                &&& post.registry.in_grid(h2.a as int, h2.b as int)
                &&& post.registry.occupied(h2.a as int, h2.b as int)
                &&& (h2.a as int, h2.b as int) != (2int, 1int)
            },
            Connection::Disconnected => true,
        }) by {
            match post.clients.map_view()[k].connected {
                Connection::Connected(h2) => {
                    assert(pre.clients.map_view()[k].connected == Connection::Connected(h2));
                    assert(post.registry.grid().contains_key((h2.a as int, h2.b as int)));
                    assert(post.registry.grid()[(h2.a as int, h2.b as int)]);
                },
                Connection::Disconnected => {},
            }
        }
        assert(post.registry.grid()[(2int, 1int)]);
        assert(post.registry.occupied(2, 1));
    }
}

/// One `close` keeps the node coherent, whatever it did.
pub proof fn lemma_close_preserves_coherence(
    pre: WireGuardConfig,
    post: WireGuardConfig,
    key: Seq<char>,
    acts: Seq<ActionView>,
    now: int,
    sid: Seq<char>,
)
    requires
        coherent(pre),
        close_step(pre, post, key, acts, now, sid),
    ensures
        coherent(post),
{
    if pre.clients.contains_key(key) {
        assert(pre.clients.map_view().contains_key(key));
        let c = pre.clients.map_view()[key];
        match c.connected {
            Connection::Connected(h) => {
                lemma_disconnect_preserves_coherence(
                    pre,
                    post,
                    key,
                    h,
                    (Client { connected: Connection::Disconnected, ..c }),
                );
            },
            Connection::Disconnected => {
                assert(post.clients.map_view() =~= pre.clients.map_view().insert(key, c));
                lemma_roster_update_preserves_coherence(pre, post, key, c);
            },
        }
    }
}

/// Interprets one inbound text frame and runs it: `open` and `close` run
/// their queries, `resume` is an accepted no-op, an unrecognized
/// `query_type` earns the fixed error reply, and text that is no control
/// query at all earns a parse-error reply. The session goes on in every
/// case but the queries' own effects.
pub fn client_msg(config: &mut WireGuardConfig, client_id: &str, msg: &str) -> (r: Vec<
    SessionAction,
>)
    requires
        old(config).wf(),
    ensures
        final(config).wf(),
        match crate::query::spec_parse_query_value(msg@) {
            Option::None => *final(config) == *old(config) && views_of(r@) == seq![
                ActionView::Send { text: frame_text(ControlFrame::MalformedQuery) },
            ],
            Option::Some(q) => match crate::query::spec_query_of(q) {
                crate::query::Query::Open => exists|h: Host| #[trigger] open_step(
                    *old(config),
                    *final(config),
                    client_id@,
                    views_of(r@),
                    h,
                ),
                crate::query::Query::Close => exists|now: int, sid: Seq<char>| #[trigger]
                    close_step(
                    *old(config),
                    *final(config),
                    client_id@,
                    views_of(r@),
                    now,
                    sid,
                ) && sid.len() == 36 && chrono_millis_in_range(now),
                crate::query::Query::Resume => *final(config) == *old(config) && views_of(r@)
                    == Seq::<ActionView>::empty(),
                crate::query::Query::Unknown => *final(config) == *old(config) && views_of(r@)
                    == seq![ActionView::Send { text: frame_text(ControlFrame::UnknownQuery) }],
            },
        },
{
    match crate::query::parse_start_query(msg) {
        Option::None => {
            let mut actions: Vec<SessionAction> = Vec::new();
            actions.push(SessionAction::Send(ControlFrame::MalformedQuery));
            proof {
                assert(views_of(actions@) =~= seq![
                    ActionView::Send { text: frame_text(ControlFrame::MalformedQuery) },
                ]);
            }
            actions
        },
        Option::Some(q) => match q.query_type {
            crate::query::Query::Open => open_query(config, client_id),
            crate::query::Query::Close => close_query(config, client_id),
            crate::query::Query::Resume => {
                let actions: Vec<SessionAction> = Vec::new();
                proof {
                    assert(views_of(actions@) =~= Seq::<ActionView>::empty());
                }
                actions
            },
            crate::query::Query::Unknown => {
                let mut actions: Vec<SessionAction> = Vec::new();
                actions.push(SessionAction::Send(ControlFrame::UnknownQuery));
                proof {
                    assert(views_of(actions@) =~= seq![
                        ActionView::Send { text: frame_text(ControlFrame::UnknownQuery) },
                    ]);
                }
                actions
            },
        },
    }
}

/// A full session round trip: a roster with an admitted, disconnected
/// client on a node with room opens a tunnel, the meter credits it with
/// `up` and `down` bytes, it closes, and its socket goes away. Afterwards
/// the client is out of the roster (a roster that held only this client
/// is empty), the slot registry is exactly as before the `open`, and the
/// close emitted exactly one usage record — the one row written and the
/// one billing attempt made — carrying exactly `up` and `down`.
pub proof fn lemma_session_round_trip(
    s0: WireGuardConfig,
    s1: WireGuardConfig,
    s2: WireGuardConfig,
    s3: WireGuardConfig,
    s4: WireGuardConfig,
    key: Seq<char>,
    h: Host,
    up: i128,
    down: i128,
    acts_open: Seq<ActionView>,
    acts_close: Seq<ActionView>,
    now: int,
    sid: Seq<char>,
)
    requires
        s0.clients.contains_key(key),
        s0.clients.map_view()[key].connected is Disconnected,
        !s0.registry.full(),
        open_step(s0, s1, key, acts_open, h),
        s2.clients.map_view() == s1.clients.map_view().insert(
            key,
            (Client { usage: (Usage { up, down }), ..s1.clients.map_view()[key] }),
        ),
        s2.registry == s1.registry,
        s2.config == s1.config,
        close_step(s2, s3, key, acts_close, now, sid),
        s4.clients.map_view() == s3.clients.map_view().remove(key),
        s4.registry == s3.registry,
    ensures
        !s4.clients.map_view().contains_key(key),
        s0.clients.map_view().dom() == set![key] ==> s4.clients.map_view().dom() == Set::<
            Seq<char>,
        >::empty(),
        s4.registry.grid() == s0.registry.grid(),
        acts_close.filter(|a: ActionView| a is Record) == seq![
            ActionView::Record {
                session_id: sid,
                author: s0.clients.map_view()[key].author@,
                server_name: s0.config.name@,
                up: up as int,
                down: down as int,
                conn_start: if chrono_millis_in_range(h.conn_time as int) {
                    rfc3339_of(h.conn_time as int)
                } else {
                    Seq::<char>::empty()
                },
                conn_end: if chrono_millis_in_range(now) {
                    rfc3339_of(now)
                } else {
                    Seq::<char>::empty()
                },
            },
        ],
{
    let c0 = s0.clients.map_view()[key];
    let c1 = (Client { connected: Connection::Connected(h), ..c0 });
    assert(s1.clients.map_view()[key] == c1);
    let c2 = (Client { usage: (Usage { up, down }), ..c1 });
    assert(s2.clients.map_view().contains_key(key));
    assert(s2.clients.contains_key(key));
    assert(s2.clients.map_view()[key] == c2);
    assert(c2.connected == Connection::Connected(h));
    // The slot taken by the open is given back by the close.
    assert(s3.registry.grid() =~= s0.registry.grid());
    assert(s4.registry.grid() == s0.registry.grid());
    // Exactly one usage record is emitted, by the close.
    let expected = ActionView::Record {
        session_id: sid,
        author: c0.author@,
        server_name: s0.config.name@,
        up: up as int,
        down: down as int,
        conn_start: if chrono_millis_in_range(h.conn_time as int) {
            rfc3339_of(h.conn_time as int)
        } else {
            Seq::<char>::empty()
        },
        conn_end: if chrono_millis_in_range(now) {
            rfc3339_of(now)
        } else {
            Seq::<char>::empty()
        },
    };
    assert(acts_close.filter(|a: ActionView| a is Record) =~= seq![expected]) by {
        reveal_with_fuel(Seq::filter, 5);
    }
    if s0.clients.map_view().dom() == set![key] {
        assert(s4.clients.map_view().dom() =~= Set::<Seq<char>>::empty());
    }
}

/// A second `close` of an already-disconnected session is silent on the
/// outside: after any close the record is disconnected, so closing it
/// again issues no tunnel command, writes no usage row, and leaves the
/// node state as it was.
pub proof fn lemma_close_idempotent(
    s0: WireGuardConfig,
    s1: WireGuardConfig,
    s2: WireGuardConfig,
    key: Seq<char>,
    acts1: Seq<ActionView>,
    acts2: Seq<ActionView>,
    now1: int,
    sid1: Seq<char>,
    now2: int,
    sid2: Seq<char>,
)
    requires
        s0.clients.contains_key(key),
        close_step(s0, s1, key, acts1, now1, sid1),
        close_step(s1, s2, key, acts2, now2, sid2),
    ensures
        forall|i: int|
            0 <= i < acts2.len() ==> !((#[trigger] acts2[i]) is RemovePeer) && !(acts2[i]
                is Record),
        s2.clients.map_view() == s1.clients.map_view(),
        s2.registry == s1.registry,
{
    let c0 = s0.clients.map_view()[key];
    let c1 = s1.clients.map_view()[key];
    assert(c1.connected is Disconnected);
}

} // verus!
