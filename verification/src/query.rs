//! The inbound control protocol: text frames carrying a JSON object with a
//! `query_type` field, parsed here without any help from a JSON library.
use vstd::prelude::*;

use crate::strings::{chars_of, exec_is_ws, is_ws_char};

verus! {

/// What a control frame asks for. `Resume` is accepted for protocol
/// compatibility and has no effect; anything unrecognized is `Unknown`.
#[derive(Debug, Clone, Copy, PartialEq, Eq, Structural)]
pub enum Query {
    Open,
    Close,
    Resume,
    Unknown,
}

/// One parsed inbound frame.
#[derive(Debug, Clone, Copy, PartialEq, Eq, Structural)]
pub struct StartQuery {
    pub query_type: Query,
}

/// The first index at or after `i` holding a non-whitespace character, or
/// the end of `s`.
pub open spec fn ws_end(s: Seq<char>, i: int) -> int
    decreases s.len() - i,
{
    if 0 <= i < s.len() && is_ws_char(s[i]) {
        ws_end(s, i + 1)
    } else {
        i
    }
}

/// The first index at or after `i` holding a double quote, or the end of
/// `s`.
pub open spec fn quote_end(s: Seq<char>, i: int) -> int
    decreases s.len() - i,
{
    if 0 <= i < s.len() && s[i] != '"' {
        quote_end(s, i + 1)
    } else {
        i
    }
}

pub open spec fn has_prefix_at(s: Seq<char>, i: int, lit: Seq<char>) -> bool {
    0 <= i && i + lit.len() <= s.len() && s.subrange(i, i + lit.len() as int) == lit
}

/// The value of the `query_type` field of an inbound frame, when the text
/// has the shape `{ "query_type" : "<value>" }` up to whitespace (the
/// value itself may not contain a quote); `None` for any other text.
pub open spec fn spec_parse_query_value(s: Seq<char>) -> Option<Seq<char>> {
    let key = "\"query_type\""@;
    let i = ws_end(s, 0);
    if !(i < s.len() && s[i] == '{') {
        None
    } else {
        let j = ws_end(s, i + 1);
        if !has_prefix_at(s, j, key) {
            None
        } else {
            let k = ws_end(s, j + key.len());
            if !(k < s.len() && s[k] == ':') {
                None
            } else {
                let l = ws_end(s, k + 1);
                if !(l < s.len() && s[l] == '"') {
                    None
                } else {
                    let e = quote_end(s, l + 1);
                    if !(e < s.len()) {
                        None
                    } else {
                        let m = ws_end(s, e + 1);
                        if m < s.len() && s[m] == '}' && ws_end(s, m + 1) == s.len() {
                            Some(s.subrange(l + 1, e))
                        } else {
                            None
                        }
                    }
                }
            }
        }
    }
}

/// ASCII-case-insensitive character match against a lowercase letter.
pub open spec fn char_eq_ci(a: char, b: char) -> bool {
    a == b || (65 <= a as u32 <= 90 && a as u32 + 32 == b as u32)
}

pub open spec fn eq_ci(s: Seq<char>, lit: Seq<char>) -> bool {
    s.len() == lit.len() && forall|i: int| 0 <= i < s.len() ==> char_eq_ci(#[trigger] s[i], lit[i])
}

/// The query a raw `query_type` value denotes, compared without regard to
/// ASCII case, as the original protocol lowercased the value first.
pub open spec fn spec_query_of(q: Seq<char>) -> Query {
    if eq_ci(q, "open"@) {
        Query::Open
    } else if eq_ci(q, "close"@) {
        Query::Close
    } else if eq_ci(q, "resume"@) {
        Query::Resume
    } else {
        Query::Unknown
    }
}

fn skip_ws(chars: &Vec<char>, from: usize) -> (r: usize)
    requires
        from <= chars@.len(),
    ensures
        r == ws_end(chars@, from as int),
        from <= r <= chars@.len(),
        r < chars@.len() ==> !is_ws_char(chars@[r as int]),
    decreases chars@.len() - from,
{
    if from < chars.len() && exec_is_ws(chars[from]) {
        skip_ws(chars, from + 1)
    } else {
        from
    }
}

fn find_quote(chars: &Vec<char>, from: usize) -> (r: usize)
    requires
        from <= chars@.len(),
    ensures
        r == quote_end(chars@, from as int),
        from <= r <= chars@.len(),
        r < chars@.len() ==> chars@[r as int] == '"',
    decreases chars@.len() - from,
{
    if from < chars.len() && chars[from] != '"' {
        find_quote(chars, from + 1)
    } else {
        from
    }
}

fn prefix_at(chars: &Vec<char>, at: usize, lit: &Vec<char>) -> (r: bool)
    requires
        at <= chars@.len(),
    ensures
        r == has_prefix_at(chars@, at as int, lit@),
{
    let n = lit.len();
    if n > chars.len() - at {
        return false;
    }
    let mut i: usize = 0;
    while i < n
        invariant
            i <= n,
            n == lit@.len(),
            at + n <= chars@.len(),
            at + n <= usize::MAX,
            forall|j: int| 0 <= j < i ==> chars@[at + j] == lit@[j],
        decreases n - i,
    {
        if chars[at + i] != lit[i] {
            return false;
        }
        i = i + 1;
    }
    proof {
        assert(chars@.subrange(at as int, at + lit@.len() as int) =~= lit@);
    }
    true
}

fn exec_char_eq_ci(a: char, b: char) -> (r: bool)
    ensures
        r == char_eq_ci(a, b),
{
    a == b || (a as u32 >= 65 && a as u32 <= 90 && a as u32 + 32 == b as u32)
}

fn chars_eq_ci(s: &Vec<char>, lit: &Vec<char>) -> (r: bool)
    ensures
        r == eq_ci(s@, lit@),
{
    if s.len() != lit.len() {
        return false;
    }
    let n = s.len();
    let mut i: usize = 0;
    while i < n
        invariant
            i <= n,
            n == s@.len(),
            n == lit@.len(),
            forall|j: int| 0 <= j < i ==> char_eq_ci(#[trigger] s@[j], lit@[j]),
        decreases n - i,
    {
        if !exec_char_eq_ci(s[i], lit[i]) {
            return false;
        }
        i = i + 1;
    }
    true
}

/// Parses one inbound control frame: `Some` exactly on texts of the shape
/// `{ "query_type" : "<value>" }`, with the value classified by
/// `spec_query_of`.
pub fn parse_start_query(msg: &str) -> (r: Option<StartQuery>)
    ensures
        match spec_parse_query_value(msg@) {
            Some(q) => r == Some(StartQuery { query_type: spec_query_of(q) }),
            None => r is None,
        },
{
    let chars = chars_of(msg);
    let key = chars_of("\"query_type\"");
    let n = chars.len();
    let i = skip_ws(&chars, 0);
    if !(i < n && chars[i] == '{') {
        return None;
    }
    let j = skip_ws(&chars, i + 1);
    if !prefix_at(&chars, j, &key) {
        return None;
    }
    let k = skip_ws(&chars, j + key.len());
    if !(k < n && chars[k] == ':') {
        return None;
    }
    let l = skip_ws(&chars, k + 1);
    if !(l < n && chars[l] == '"') {
        return None;
    }
    let e = find_quote(&chars, l + 1);
    if !(e < n) {
        return None;
    }
    let m = skip_ws(&chars, e + 1);
    if !(m < n && chars[m] == '}') {
        return None;
    }
    if skip_ws(&chars, m + 1) != n {
        return None;
    }
    let mut value: Vec<char> = Vec::new();
    let mut p: usize = l + 1;
    while p < e
        invariant
            l + 1 <= p <= e,
            e <= chars@.len(),
            value@ == chars@.subrange(l + 1 as int, p as int),
        decreases e - p,
    {
        value.push(chars[p]);
        assert(value@ =~= chars@.subrange(l + 1 as int, p + 1 as int));
        p = p + 1;
    }
    let query_type: Query = if chars_eq_ci(&value, &chars_of("open")) {
        Query::Open
    } else if chars_eq_ci(&value, &chars_of("close")) {
        Query::Close
    } else if chars_eq_ci(&value, &chars_of("resume")) {
        Query::Resume
    } else {
        Query::Unknown
    };
    Some(StartQuery { query_type })
}

} // verus!
