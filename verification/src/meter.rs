//! The meter loop's verified core: parsing the interface's transfer
//! report, and the per-row step that updates a client's counters and
//! decides whether it must be disconnected.
use vstd::prelude::*;

use crate::client::{over_cap, Client, Connection};
use crate::clock::{chrono_millis_in_range, now_timestamp_millis, rfc3339_of};
use crate::frames::{frame_text, update_text, ControlFrame};
use crate::ids::new_session_id;
use crate::strings::{
    chars_of, find_char, int_of_dec, parse_i128_chars, string_from_chars, trim_spec, trim_ws,
};
use crate::usage::Usage;
use crate::wireguard::{apply_slot_op, SlotOp, WireGuardConfig};
use crate::ws::{close_query_at, lemma_views_concat, views_of, ActionView, SessionAction};

verus! {

pub proof fn lemma_find_char_bounds(s: Seq<char>, i: int, c: char)
    requires
        0 <= i <= s.len(),
    ensures
        i <= find_char(s, i, c) <= s.len(),
        find_char(s, i, c) < s.len() ==> s[find_char(s, i, c)] == c,
    decreases s.len() - i,
{
    if i < s.len() && s[i] != c {
        lemma_find_char_bounds(s, i + 1, c);
    }
}

/// The pieces of `s` between occurrences of `sep`, in order; an empty
/// text yields one empty piece, as `str::split` does.
pub open spec fn split_from(s: Seq<char>, i: int, sep: char) -> Seq<Seq<char>>
    recommends
        0 <= i <= s.len(),
    decreases s.len() - i,
    via split_from_decreases
{
    let j = find_char(s, i, sep);
    if j >= s.len() {
        seq![s.subrange(i, s.len() as int)]
    } else {
        seq![s.subrange(i, j)] + split_from(s, j + 1, sep)
    }
}

#[via_fn]
proof fn split_from_decreases(s: Seq<char>, i: int, sep: char) {
    if 0 <= i <= s.len() {
        lemma_find_char_bounds(s, i, sep);
    }
}

pub open spec fn split_char(s: Seq<char>, sep: char) -> Seq<Seq<char>> {
    split_from(s, 0, sep)
}

/// One row of the transfer report: `<public key> TAB <up> TAB <down>`,
/// with both counters decimal integers that fit in an `i128`; any other
/// line carries no row.
pub open spec fn row_of_line(line: Seq<char>) -> Option<(Seq<char>, int, int)> {
    let fields = split_char(line, '\t');
    if fields.len() >= 3 {
        match (int_of_dec(fields[1]), int_of_dec(fields[2])) {
            (Some(u), Some(d)) => if i128::MIN <= u <= i128::MAX && i128::MIN <= d <= i128::MAX {
                Some((fields[0], u, d))
            } else {
                None
            },
            _ => None,
        }
    } else {
        None
    }
}

pub open spec fn rows_of_lines(lines: Seq<Seq<char>>) -> Seq<(Seq<char>, int, int)>
    decreases lines.len(),
{
    if lines.len() == 0 {
        Seq::<(Seq<char>, int, int)>::empty()
    } else {
        rows_of_lines(lines.drop_last()) + (match row_of_line(lines.last()) {
            Some(row) => seq![row],
            None => Seq::<(Seq<char>, int, int)>::empty(),
        })
    }
}

/// All rows of a transfer report: the trimmed text, line by line.
pub open spec fn transfers_of(s: Seq<char>) -> Seq<(Seq<char>, int, int)> {
    rows_of_lines(split_char(trim_spec(s), '\n'))
}

/// One parsed transfer row.
#[derive(Debug, Clone)]
pub struct TransferRow {
    pub public_key: String,
    pub up: i128,
    pub down: i128,
}

pub open spec fn row_views(rows: Seq<TransferRow>) -> Seq<(Seq<char>, int, int)> {
    rows.map_values(|t: TransferRow| (t.public_key@, t.up as int, t.down as int))
}

fn find_char_exec(v: &Vec<char>, from: usize, c: char) -> (r: usize)
    requires
        from <= v@.len(),
    ensures
        r == find_char(v@, from as int, c),
        from <= r <= v@.len(),
        r < v@.len() ==> v@[r as int] == c,
    decreases v@.len() - from,
{
    if from < v.len() && v[from] != c {
        find_char_exec(v, from + 1, c)
    } else {
        from
    }
}

/// Splits `v` on `sep`.
fn split_chars(v: &Vec<char>, sep: char) -> (r: Vec<Vec<char>>)
    ensures
        r@.map_values(|p: Vec<char>| p@) == split_char(v@, sep),
{
    let mut pieces: Vec<Vec<char>> = Vec::new();
    let n = v.len();
    let mut i: usize = 0;
    loop
        invariant_except_break
            0 <= i <= n,
            n == v@.len(),
            split_char(v@, sep) == pieces@.map_values(|p: Vec<char>| p@) + split_from(
                v@,
                i as int,
                sep,
            ),
        ensures
            split_char(v@, sep) == pieces@.map_values(|p: Vec<char>| p@),
        decreases n - i,
    {
        let j = find_char_exec(v, i, sep);
        let mut piece: Vec<char> = Vec::new();
        let mut p: usize = i;
        while p < j
            invariant
                i <= p <= j <= n,
                n == v@.len(),
                piece@ == v@.subrange(i as int, p as int),
            decreases j - p,
        {
            piece.push(v[p]);
            assert(piece@ =~= v@.subrange(i as int, p + 1 as int));
            p = p + 1;
        }
        let ghost pieces_before = pieces@;
        pieces.push(piece);
        proof {
            assert(pieces@.map_values(|p: Vec<char>| p@) =~= pieces_before.map_values(
                |p: Vec<char>| p@,
            ) + seq![v@.subrange(i as int, j as int)]);
        }
        if j == n {
            proof {
                assert(split_from(v@, i as int, sep) =~= seq![
                    v@.subrange(i as int, v@.len() as int),
                ]);
                assert(split_char(v@, sep) =~= pieces@.map_values(|p: Vec<char>| p@));
            }
            break ;
        }
        i = j + 1;
    }
    pieces
}

/// Parses the output of reading the interface's transfer counters. Each
/// well-formed line yields one row; empty output yields none.
pub fn parse_transfers(s: &str) -> (r: Vec<TransferRow>)
    ensures
        row_views(r@) == transfers_of(s@),
{
    let trimmed = trim_ws(s);
    let chars = chars_of(trimmed.as_str());
    let lines = split_chars(&chars, '\n');
    let mut rows: Vec<TransferRow> = Vec::new();
    let mut i: usize = 0;
    let n = lines.len();
    while i < n
        invariant
            0 <= i <= n,
            n == lines@.len(),
            lines@.map_values(|p: Vec<char>| p@) == split_char(trim_spec(s@), '\n'),
            row_views(rows@) == rows_of_lines(
                lines@.map_values(|p: Vec<char>| p@).subrange(0, i as int),
            ),
        decreases n - i,
    {
        let ghost lines_v = lines@.map_values(|p: Vec<char>| p@);
        let ghost prefix = lines_v.subrange(0, i as int);
        let ghost prefix1 = lines_v.subrange(0, i + 1 as int);
        proof {
            assert(prefix1.drop_last() =~= prefix);
            assert(prefix1.last() == lines_v[i as int]);
        }
        let fields = split_chars(&lines[i], '\t');
        let ghost fv = fields@.map_values(|p: Vec<char>| p@);
        proof {
            assert(fv == split_char(lines_v[i as int], '\t'));
        }
        if fields.len() >= 3 {
            let up = parse_i128_chars(&fields[1]);
            let down = parse_i128_chars(&fields[2]);
            proof {
                assert(fields@[1]@ == fv[1]);
                assert(fields@[2]@ == fv[2]);
            }
            match (up, down) {
                (Some(u), Some(d)) => {
                    let ghost rows_before = rows@;
                    let public_key = string_from_chars(&fields[0]);
                    rows.push(TransferRow { public_key, up: u, down: d });
                    proof {
                        assert(row_of_line(lines_v[i as int]) == Some((fv[0], u as int, d as int)));
                        assert(row_views(rows@) =~= row_views(rows_before) + seq![
                            (fv[0], u as int, d as int),
                        ]);
                        assert(row_views(rows@) =~= rows_of_lines(prefix1));
                    }
                },
                _ => {
                    proof {
                        assert(row_of_line(lines_v[i as int]) is None);
                        assert(row_views(rows@) =~= rows_of_lines(prefix1));
                    }
                },
            }
        } else {
            proof {
                assert(row_of_line(lines_v[i as int]) is None);
                assert(row_views(rows@) =~= rows_of_lines(prefix1));
            }
        }
        i = i + 1;
    }
    proof {
        assert(lines@.map_values(|p: Vec<char>| p@).subrange(0, n as int) =~= lines@.map_values(
            |p: Vec<char>| p@,
        ));
    }
    rows
}

/// What one meter tick does with one transfer row, at closing time `now`
/// and with session identifier `sid` in case a disconnect is due: an
/// unknown key is skipped; a client under its cap has its counters
/// recorded and hears one update frame; a client over its cap is torn
/// down — after a grace pause when its record is already disconnected,
/// or after a warning frame and a short flush pause when it is connected,
/// in which case its slot is freed and its usage row is recorded.
pub open spec fn meter_step(
    pre: WireGuardConfig,
    post: WireGuardConfig,
    key: Seq<char>,
    up: i128,
    down: i128,
    acts: Seq<ActionView>,
    now: int,
    sid: Seq<char>,
) -> bool {
    if !pre.clients.contains_key(key) {
        &&& post == pre
        &&& acts == Seq::<ActionView>::empty()
    } else {
        let c = pre.clients.map_view()[key];
        let c_used = (Client { usage: (Usage { up, down }), ..c });
        if !over_cap(c.maximums, up as int, down as int) {
            &&& post.clients.map_view() == pre.clients.map_view().insert(key, c_used)
            &&& post.registry == pre.registry
            &&& crate::ws::frame_fields_unchanged(pre, post)
            &&& acts == seq![
                ActionView::Send { text: update_text(up as int, down as int) },
            ]
        } else {
            match c.connected {
                Connection::Disconnected => {
                    &&& post.clients.map_view() == pre.clients.map_view().insert(key, c_used)
                    &&& post.registry == pre.registry
                    &&& crate::ws::frame_fields_unchanged(pre, post)
                    &&& acts == seq![
                        ActionView::Wait { millis: 1000 },
                        ActionView::RemovePeer { public_key: c.public_key@ },
                        ActionView::Send { text: frame_text(ControlFrame::RemovedClient) },
                    ]
                },
                Connection::Connected(h) => {
                    let c_done = (Client { connected: Connection::Disconnected, ..c_used });
                    &&& post.clients.map_view() == pre.clients.map_view().insert(key, c_done)
                    &&& post.registry.grid() == apply_slot_op(
                        pre.registry.grid(),
                        SlotOp::Free { a: h.a as int, b: h.b as int },
                    )
                    &&& crate::ws::frame_fields_unchanged(pre, post)
                    &&& acts == seq![
                        ActionView::Send { text: frame_text(ControlFrame::ExceededUsage) },
                        ActionView::Wait { millis: 200 },
                        ActionView::RemovePeer { public_key: c.public_key@ },
                        ActionView::Record {
                            session_id: sid,
                            author: c.author@,
                            server_name: pre.config.name@,
                            up: up as int,
                            down: down as int,
                            conn_start: if chrono_millis_in_range(h.conn_time as int) {
                                rfc3339_of(h.conn_time as int)
                            } else {
                                Seq::<char>::empty()
                            },
                            conn_end: if chrono_millis_in_range(now) {
                                rfc3339_of(now)
                            } else {
                                Seq::<char>::empty()
                            },
                        },
                        ActionView::Send { text: frame_text(ControlFrame::RemovedClient) },
                    ]
                },
            }
        }
    }
}

/// One meter row keeps the node coherent, whatever it did: an update only
/// rewrites the counters, and a forced disconnect frees exactly the slot
/// the client held.
pub proof fn lemma_meter_preserves_coherence(
    pre: WireGuardConfig,
    post: WireGuardConfig,
    key: Seq<char>,
    up: i128,
    down: i128,
    acts: Seq<ActionView>,
    now: int,
    sid: Seq<char>,
)
    requires
        crate::ws::coherent(pre),
        meter_step(pre, post, key, up, down, acts, now, sid),
    ensures
        crate::ws::coherent(post),
{
    if pre.clients.contains_key(key) {
        assert(pre.clients.map_view().contains_key(key));
        let c = pre.clients.map_view()[key];
        let c_used = (Client { usage: (Usage { up, down }), ..c });
        if !over_cap(c.maximums, up as int, down as int) {
            crate::ws::lemma_roster_update_preserves_coherence(pre, post, key, c_used);
        } else {
            match c.connected {
                Connection::Disconnected => {
                    crate::ws::lemma_roster_update_preserves_coherence(pre, post, key, c_used);
                },
                Connection::Connected(h) => {
                    crate::ws::lemma_disconnect_preserves_coherence(
                        pre,
                        post,
                        key,
                        h,
                        (Client { connected: Connection::Disconnected, ..c_used }),
                    );
                },
            }
        }
    }
}

/// Handles one transfer row at a given time and with a given session
/// identifier; see `meter_step` for the exact effect.
pub fn meter_row_at(
    config: &mut WireGuardConfig,
    public_key: &str,
    up: i128,
    down: i128,
    now: i64,
    session_id: String,
) -> (r: Vec<SessionAction>)
    requires
        old(config).wf(),
        old(config).clients.contains_key(public_key@) && old(config).clients.map_view()[
            public_key@
        ].maximums.is_quota_bounded() ==> old(config).clients.map_view()[
            public_key@
        ].maximums.cap_in_range(),
    ensures
        final(config).wf(),
        meter_step(
            *old(config),
            *final(config),
            public_key@,
            up,
            down,
            views_of(r@),
            now as int,
            session_id@,
        ),
{
    match config.clients.take(public_key) {
        None => {
            let actions: Vec<SessionAction> = Vec::new();
            proof {
                assert(views_of(actions@) =~= Seq::<ActionView>::empty());
            }
            actions
        },
        Some(mut c) => {
            let ghost c0 = old(config).clients.map_view()[public_key@];
            let over = c.set_usage(&up, &down);
            let pk = c.public_key.clone();
            let was_connected = c.connected;
            config.clients.put(c);
            let ghost mid = *config;
            proof {
                assert(mid.clients.map_view() =~= old(config).clients.map_view().insert(
                    public_key@,
                    (Client { usage: (Usage { up, down }), ..c0 }),
                ));
            }
            if !over {
                let mut actions: Vec<SessionAction> = Vec::new();
                actions.push(SessionAction::Send(ControlFrame::Update { up, down }));
                proof {
                    assert(views_of(actions@) =~= seq![
                        ActionView::Send { text: update_text(up as int, down as int) },
                    ]);
                }
                actions
            } else {
                match was_connected {
                    Connection::Disconnected => {
                        let mut actions: Vec<SessionAction> = Vec::new();
                        actions.push(SessionAction::Wait { millis: 1000 });
                        actions.push(SessionAction::RemovePeer { public_key: pk });
                        let tail = close_query_at(config, public_key, now, session_id);
                        let ghost tail_seq = tail@;
                        let ghost head_seq = actions@;
                        let mut tail = tail;
                        actions.append(&mut tail);
                        proof {
                            lemma_views_concat(head_seq, tail_seq);
                            assert(views_of(tail_seq) == seq![
                                ActionView::Send { text: frame_text(ControlFrame::RemovedClient) },
                            ]);
                            assert(views_of(head_seq) =~= seq![
                                ActionView::Wait { millis: 1000 },
                                ActionView::RemovePeer { public_key: c0.public_key@ },
                            ]);
                            assert(views_of(actions@) =~= seq![
                                ActionView::Wait { millis: 1000 },
                                ActionView::RemovePeer { public_key: c0.public_key@ },
                                ActionView::Send { text: frame_text(ControlFrame::RemovedClient) },
                            ]);
                        }
                        actions
                    },
                    Connection::Connected(h) => {
                        let mut actions: Vec<SessionAction> = Vec::new();
                        actions.push(SessionAction::Send(ControlFrame::ExceededUsage));
                        actions.push(SessionAction::Wait { millis: 200 });
                        let tail = close_query_at(config, public_key, now, session_id);
                        let ghost tail_seq = tail@;
                        let ghost head_seq = actions@;
                        let mut tail = tail;
                        actions.append(&mut tail);
                        proof {
                            lemma_views_concat(head_seq, tail_seq);
                            assert(views_of(head_seq) =~= seq![
                                ActionView::Send { text: frame_text(ControlFrame::ExceededUsage) },
                                ActionView::Wait { millis: 200 },
                            ]);
                            assert(final(config).clients.map_view() =~= old(
                                config,
                            ).clients.map_view().insert(
                                public_key@,
                                (Client {
                                    connected: Connection::Disconnected,
                                    usage: (Usage { up, down }),
                                    ..c0
                                }),
                            ));
                            assert(views_of(actions@) =~= seq![
                                ActionView::Send { text: frame_text(ControlFrame::ExceededUsage) },
                                ActionView::Wait { millis: 200 },
                                ActionView::RemovePeer { public_key: c0.public_key@ },
                                ActionView::Record {
                                    session_id: session_id@,
                                    author: c0.author@,
                                    server_name: old(config).config.name@,
                                    up: up as int,
                                    down: down as int,
                                    conn_start: if chrono_millis_in_range(h.conn_time as int) {
                                        rfc3339_of(h.conn_time as int)
                                    } else {
                                        Seq::<char>::empty()
                                    },
                                    conn_end: if chrono_millis_in_range(now as int) {
                                        rfc3339_of(now as int)
                                    } else {
                                        Seq::<char>::empty()
                                    },
                                },
                                ActionView::Send { text: frame_text(ControlFrame::RemovedClient) },
                            ]);
                        }
                        actions
                    },
                }
            }
        },
    }
}

/// Handles one transfer row, stamping any disconnect it forces with the
/// current time and a fresh session identifier.
pub fn meter_row(config: &mut WireGuardConfig, public_key: &str, up: i128, down: i128) -> (r: Vec<
    SessionAction,
>)
    requires
        old(config).wf(),
        old(config).clients.contains_key(public_key@) && old(config).clients.map_view()[
            public_key@
        ].maximums.is_quota_bounded() ==> old(config).clients.map_view()[
            public_key@
        ].maximums.cap_in_range(),
    ensures
        final(config).wf(),
        exists|now: int, sid: Seq<char>| #[trigger] meter_step(
            *old(config),
            *final(config),
            public_key@,
            up,
            down,
            views_of(r@),
            now,
            sid,
        ) && sid.len() == 36 && chrono_millis_in_range(now),
{
    let now = now_timestamp_millis();
    let session_id = new_session_id();
    let ghost sid = session_id@;
    let r = meter_row_at(config, public_key, up, down, now, session_id);
    proof {
        assert(meter_step(
            *old(config),
            *final(config),
            public_key@,
            up,
            down,
            views_of(r@),
            now as int,
            sid,
        ));
    }
    r
}

} // verus!
