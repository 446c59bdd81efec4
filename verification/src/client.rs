//! The per-session client record: identity, validated public key, billing
//! tier, connection slot and cumulative usage.
use vstd::prelude::*;

use crate::strings::{chars_of, string_from_chars};
use crate::usage::Usage;
use vstd::string::StrSliceExecFns;

verus! {

/// The billing tier of a client, carrying the `(up, down)` byte totals
/// already accrued this billing cycle.
#[derive(Debug, Clone, Copy, PartialEq, Eq, Structural)]
pub enum Maximums {
    Free(i128, i128),
    Supporter(i128, i128),
    Basic(i128, i128),
    Pro(i128, i128),
    Unassigned,
}

impl Maximums {
    /// Bytes remaining this billing cycle: a fixed allowance less the
    /// carried download total; `-1` means no cap; the small `Unassigned`
    /// allowance covers the wait for the asynchronous tier lookup.
    pub open spec fn effective_cap(self) -> int {
        match self {
            Maximums::Free(_up, down) => 5000000000 - down,
            Maximums::Supporter(_up, down) => 50000000000 - down,
            Maximums::Basic(_up, _down) => -1,
            Maximums::Pro(_up, _down) => -1,
            Maximums::Unassigned => 5000000,
        }
    }

    /// Whether the effective cap can be computed without leaving `i128`.
    pub open spec fn cap_in_range(self) -> bool {
        i128::MIN <= self.effective_cap() <= i128::MAX
    }

    /// Whether the tier bounds usage at all.
    pub open spec fn is_quota_bounded(self) -> bool {
        self is Free || self is Supporter
    }

    pub fn to_value(&self) -> (r: i128)
        requires
            self.cap_in_range(),
        ensures
            r as int == self.effective_cap(),
    {
        match self {
            Maximums::Free(_up, down) => 5000000000i128 - *down,
            Maximums::Supporter(_up, down) => 50000000000i128 - *down,
            Maximums::Basic(..) => -1,
            Maximums::Pro(..) => -1,
            Maximums::Unassigned => 5000000,
        }
    }
}

/// One internal tunnel address `10.8.<a>.<b>`, together with the UTC
/// timestamp of its reservation in milliseconds since the epoch.
#[derive(Debug, Clone, Copy, PartialEq, Eq, Structural)]
pub struct Host {
    pub a: u8,
    pub b: u8,
    pub conn_time: i64,
}

/// The outcome of asking the registry for a slot: the caller now owns it,
/// the request bounced (echoing the requested host for diagnostics), or the
/// node has no free slot at all.
#[derive(Debug, Clone, Copy, PartialEq, Eq, Structural)]
pub enum Reservation {
    Held(Host),
    Detached(Host),
    Imissable,
}

/// The outcome of probing for a free slot.
#[derive(Debug, Clone, Copy, PartialEq, Eq, Structural)]
pub enum Slot {
    Open(Host),
    Prospective,
}

/// The connection state of one client.
#[derive(Debug, Clone, Copy, PartialEq, Eq, Structural)]
pub enum Connection {
    Disconnected,
    Connected(Host),
}

/// A public key has the accepted shape when it is exactly 44 characters
/// long and ends in `=`.
pub open spec fn pk_shape_ok(s: Seq<char>) -> bool {
    s.len() == 44 && s[43] == '='
}

/// Canonicalization of an accepted public key: spaces become `+` (undoing
/// URL decoding) and newlines are stripped.
pub open spec fn canon_pk(s: Seq<char>) -> Seq<char>
    decreases s.len(),
{
    if s.len() == 0 {
        Seq::<char>::empty()
    } else {
        canon_pk(s.drop_last()) + (if s.last() == '\n' {
            Seq::<char>::empty()
        } else if s.last() == ' ' {
            seq!['+']
        } else {
            seq![s.last()]
        })
    }
}

/// One control session's record.
#[derive(Debug)]
pub struct Client {
    /// External user identifier, opaque to the node.
    pub author: String,
    /// The client's WireGuard public key, canonicalized once validated.
    pub public_key: String,
    /// Billing tier with carried usage totals.
    pub maximums: Maximums,
    pub limit: i128,
    pub connected: Connection,
    /// Current-session byte counters, written by the meter loop.
    pub usage: Usage,
    /// Whether `public_key` passed validation.
    pub valid_pk: bool,
}

/// Whether a tier marks usage `(up, down)` as over its cap: unlimited
/// tiers never do, an unresolved tier always does, and a quota-bounded
/// tier does exactly when the cap no longer exceeds both counters.
pub open spec fn over_cap(m: Maximums, up: int, down: int) -> bool {
    match m {
        Maximums::Basic(_u, _d) => false,
        Maximums::Pro(_u, _d) => false,
        Maximums::Unassigned => true,
        Maximums::Free(_u, _d) => !(m.effective_cap() > up && m.effective_cap() > down),
        Maximums::Supporter(_u, _d) => !(m.effective_cap() > up && m.effective_cap() > down),
    }
}

impl Client {
    pub fn set_connectivity(&mut self, new_status: Connection) -> (r: &mut Self)
        ensures
            *r == (Client { connected: new_status, ..*old(self) }),
            *final(self) == *final(r),
    {
        self.connected = new_status;
        self
    }

    /// Overwrites everything a returning client carries over from its
    /// previous session, while keeping the current `author`.
    pub fn merge_from(&mut self, client: &Client) -> (r: &mut Self)
        ensures
            *r == (Client {
                public_key: client.public_key,
                maximums: client.maximums,
                connected: client.connected,
                usage: client.usage,
                valid_pk: client.valid_pk,
                ..*old(self)
            }),
            *final(self) == *final(r),
    {
        self.public_key = client.public_key.clone();
        self.maximums = client.maximums;
        self.connected = client.connected;
        self.usage = client.usage;
        self.valid_pk = client.valid_pk;
        self
    }

    /// The current-session counters, download first.
    pub fn get_usage(&self) -> (r: (i128, i128))
        ensures
            r == (self.usage.down, self.usage.up),
    {
        (self.usage.down, self.usage.up)
    }

    pub fn set_limit(&mut self, limit: i128) -> (r: &mut Self)
        ensures
            *r == (Client { limit, ..*old(self) }),
            *final(self) == *final(r),
    {
        self.limit = limit;
        self
    }

    /// Validates and canonicalizes a public key; any string of another
    /// shape leaves the record untouched.
    pub fn set_public_key(self, public_key: String) -> (r: Self)
        ensures
            pk_shape_ok(public_key@) ==> r == (Client {
                public_key: r.public_key,
                valid_pk: true,
                ..self
            }) && r.public_key@ == canon_pk(public_key@),
            !pk_shape_ok(public_key@) ==> r == self,
    {
        let mut this = self;
        let n = public_key.as_str().unicode_len();
        if n == 44 && public_key.as_str().get_char(43) == '=' {
            let chars = chars_of(public_key.as_str());
            let mut out: Vec<char> = Vec::new();
            let mut i: usize = 0;
            while i < 44
                invariant
                    i <= 44,
                    chars@ == public_key@,
                    chars@.len() == 44,
                    out@ == canon_pk(public_key@.subrange(0, i as int)),
                decreases 44 - i,
            {
                let ghost prefix = public_key@.subrange(0, i as int);
                let ghost prefix1 = public_key@.subrange(0, i + 1 as int);
                proof {
                    assert(prefix1.drop_last() =~= prefix);
                }
                let c = chars[i];
                if c == '\n' {
                    assert(out@ =~= canon_pk(prefix1));
                } else if c == ' ' {
                    out.push('+');
                    assert(out@ =~= canon_pk(prefix1));
                } else {
                    out.push(c);
                    assert(out@ =~= canon_pk(prefix1));
                }
                i = i + 1;
            }
            assert(public_key@.subrange(0, 44) =~= public_key@);
            this.public_key = string_from_chars(&out);
            this.valid_pk = true;
        }
        this
    }

    pub fn set_author(self, author_id: String) -> (r: Self)
        ensures
            r == (Client { author: author_id, ..self }),
    {
        let mut this = self;
        this.author = author_id;
        this
    }

    pub fn is_valid(&self) -> (r: bool)
        ensures
            r == self.valid_pk,
    {
        self.valid_pk
    }

    /// Records the sampled counters and reports whether the client is now
    /// over its cap: `false` means under (push an update), `true` means
    /// exceeded (the caller must disconnect). For a quota-bounded tier the
    /// answer is exactly whether the effective cap is at most the larger
    /// counter.
    pub fn set_usage(&mut self, up: &i128, down: &i128) -> (r: bool)
        requires
            old(self).maximums.is_quota_bounded() ==> old(self).maximums.cap_in_range(),
        ensures
            *final(self) == (Client { usage: (Usage { up: *up, down: *down }), ..*old(self) }),
            r == over_cap(old(self).maximums, *up as int, *down as int),
            old(self).maximums.is_quota_bounded() ==> (r <==> old(self).maximums.effective_cap()
                <= (if *up >= *down {
                *up as int
            } else {
                *down as int
            })),
    {
        self.usage.down = *down;
        self.usage.up = *up;

        match self.maximums {
            Maximums::Pro(..) => false,
            Maximums::Basic(..) => false,
            Maximums::Free(..) | Maximums::Supporter(..) => {
                let max: i128 = self.maximums.to_value();
                if max > *up && max > *down {
                    false
                } else {
                    true
                }
            },
            Maximums::Unassigned => true,
        }
    }

    pub fn set_tier(&mut self, tier: Maximums) -> (r: &mut Self)
        ensures
            *r == (Client { maximums: tier, ..*old(self) }),
            *final(self) == *final(r),
    {
        self.maximums = tier;
        self
    }

    /// A fresh record: unvalidated, unassigned tier, disconnected, no
    /// usage yet.
    pub fn new() -> (c: Client)
        ensures
            c.author@ == Seq::<char>::empty(),
            c.public_key@ == Seq::<char>::empty(),
            c.maximums == Maximums::Unassigned,
            c.usage == (Usage { up: 0, down: 0 }),
            c.limit == -1,
            c.connected == Connection::Disconnected,
            !c.valid_pk,
    {
        Client {
            author: String::new(),
            public_key: String::new(),
            maximums: Maximums::Unassigned,
            usage: Usage { up: 0, down: 0 },
            limit: -1,
            connected: Connection::Disconnected,
            valid_pk: false,
        }
    }
}

/// The authoritative roster of admitted peers, keyed by canonicalized
/// public key.
pub struct Clients {
    pub entries: Vec<Client>,
}

impl Clients {
    /// Well-formed: no two records share a public key.
    pub open spec fn wf(self) -> bool {
        forall|i: int, j: int|
            0 <= i < j < self.entries@.len() ==> self.entries@[i].public_key@
                != self.entries@[j].public_key@
    }

    pub open spec fn contains_key(self, k: Seq<char>) -> bool {
        exists|i: int|
            0 <= i < self.entries@.len() && (#[trigger] self.entries@[i]).public_key@ == k
    }

    pub open spec fn spec_index_of(self, k: Seq<char>) -> int {
        choose|i: int|
            0 <= i < self.entries@.len() && (#[trigger] self.entries@[i]).public_key@ == k
    }

    pub open spec fn spec_get(self, k: Seq<char>) -> Client {
        self.entries@[self.spec_index_of(k)]
    }

    /// The table as a map from public key to record.
    pub open spec fn map_view(self) -> Map<Seq<char>, Client> {
        Map::new(|k: Seq<char>| self.contains_key(k), |k: Seq<char>| self.spec_get(k))
    }

    pub fn new() -> (r: Clients)
        ensures
            r.wf(),
            r.entries@.len() == 0,
            r.map_view() == Map::<Seq<char>, Client>::empty(),
    {
        let r = Clients { entries: Vec::new() };
        proof {
            assert(r.map_view() =~= Map::<Seq<char>, Client>::empty());
        }
        r
    }

    pub fn len(&self) -> (r: usize)
        ensures
            r == self.entries@.len(),
    {
        self.entries.len()
    }

    /// When `i` holds key `k`, it is the index `spec_index_of` picks.
    proof fn lemma_index_unique(self, i: int, k: Seq<char>)
        requires
            self.wf(),
            0 <= i < self.entries@.len(),
            self.entries@[i].public_key@ == k,
        ensures
            self.contains_key(k),
            self.spec_index_of(k) == i,
            self.spec_get(k) == self.entries@[i],
    {
        assert(self.contains_key(k));
        let j = self.spec_index_of(k);
        if i < j {
            assert(self.entries@[i].public_key@ != self.entries@[j].public_key@);
        } else if j < i {
            assert(self.entries@[j].public_key@ != self.entries@[i].public_key@);
        }
    }

    fn find_index(&self, key: &str) -> (r: Option<usize>)
        requires
            self.wf(),
        ensures
            match r {
                Some(i) => self.contains_key(key@) && i < self.entries@.len()
                    && self.entries@[i as int].public_key@ == key@ && i == self.spec_index_of(
                    key@,
                ),
                None => !self.contains_key(key@),
            },
    {
        let n = self.entries.len();
        let mut i: usize = 0;
        while i < n
            invariant
                i <= n,
                n == self.entries@.len(),
                self.wf(),
                forall|j: int| 0 <= j < i ==> (#[trigger] self.entries@[j]).public_key@ != key@,
            decreases n - i,
        {
            if crate::strings::str_eq(self.entries[i].public_key.as_str(), key) {
                proof {
                    self.lemma_index_unique(i as int, key@);
                }
                return Some(i);
            }
            i = i + 1;
        }
        None
    }

    pub fn get(&self, key: &str) -> (r: Option<&Client>)
        requires
            self.wf(),
        ensures
            match r {
                Some(c) => self.contains_key(key@) && *c == self.map_view()[key@],
                None => !self.contains_key(key@),
            },
    {
        match self.find_index(key) {
            Some(i) => Some(&self.entries[i]),
            None => None,
        }
    }

    /// Removes the record under `key` and hands it out.
    pub fn take(&mut self, key: &str) -> (r: Option<Client>)
        requires
            old(self).wf(),
        ensures
            final(self).wf(),
            match r {
                Some(c) => old(self).contains_key(key@) && c == old(self).map_view()[key@]
                    && final(self).map_view() == old(self).map_view().remove(key@)
                    && final(self).entries@.len() + 1 == old(self).entries@.len(),
                None => !old(self).contains_key(key@) && *final(self) == *old(self),
            },
    {
        match self.find_index(key) {
            Some(i) => {
                let c = self.entries.remove(i);
                proof {
                    old(self).lemma_index_unique(i as int, key@);
                    self.lemma_after_remove(*old(self), i as int);
                    assert(final(self).map_view() =~= old(self).map_view().remove(key@));
                }
                Some(c)
            },
            None => None,
        }
    }

    /// Relates the table to its old value after removing the entry at `i`.
    proof fn lemma_after_remove(self, prev: Clients, i: int)
        requires
            prev.wf(),
            0 <= i < prev.entries@.len(),
            self.entries@ == prev.entries@.remove(i),
        ensures
            self.wf(),
            forall|k: Seq<char>| #[trigger]
                self.contains_key(k) <==> (prev.contains_key(k) && k
                    != prev.entries@[i].public_key@),
            forall|k: Seq<char>|
                self.contains_key(k) ==> #[trigger] self.spec_get(k) == prev.spec_get(k),
    {
        let n = prev.entries@.len();
        assert(forall|p: int|
            0 <= p < n - 1 ==> #[trigger] self.entries@[p] == (if p < i {
                prev.entries@[p]
            } else {
                prev.entries@[p + 1]
            }));
        assert forall|k: Seq<char>| #[trigger]
            self.contains_key(k) implies (prev.contains_key(k) && k
            != prev.entries@[i].public_key@) by {
            let p = choose|p: int|
                0 <= p < self.entries@.len() && (#[trigger] self.entries@[p]).public_key@ == k;
            let q: int = if p < i {
                p
            } else {
                p + 1
            };
            assert(prev.entries@[q].public_key@ == k);
            if q < i {
                assert(prev.entries@[q].public_key@ != prev.entries@[i].public_key@);
            } else {
                assert(prev.entries@[i].public_key@ != prev.entries@[q].public_key@);
            }
        }
        assert forall|k: Seq<char>|
            (prev.contains_key(k) && k != prev.entries@[i].public_key@) implies #[trigger] self
            .contains_key(k) by {
            let q = prev.spec_index_of(k);
            prev.lemma_index_unique(q, k);
            if q < i {
                assert(self.entries@[q].public_key@ == k);
            } else {
                assert(q != i);
                assert(self.entries@[q - 1].public_key@ == k);
            }
        }
        assert forall|k: Seq<char>| self.contains_key(k) implies #[trigger] self.spec_get(k)
            == prev.spec_get(k) by {
            let p = self.spec_index_of(k);
            assert(0 <= p < self.entries@.len() && self.entries@[p].public_key@ == k);
            let q: int = if p < i {
                p
            } else {
                p + 1
            };
            prev.lemma_index_unique(q, k);
        }
    }

    /// Inserts `c` under its public key, replacing any previous record.
    pub fn put(&mut self, c: Client)
        requires
            old(self).wf(),
        ensures
            final(self).wf(),
            final(self).map_view() == old(self).map_view().insert(c.public_key@, c),
            final(self).contains_key(c.public_key@),
            final(self).entries@.len() == old(self).entries@.len() + (if old(self).contains_key(
                c.public_key@,
            ) {
                0int
            } else {
                1int
            }),
    {
        let ghost k = c.public_key@;
        let key_string = c.public_key.clone();
        match self.find_index(key_string.as_str()) {
            Some(i) => {
                self.entries.set(i, c);
                proof {
                    let prev = *old(self);
                    assert(self.entries@ == prev.entries@.update(i as int, c));
                    assert forall|p: int, q: int|
                        0 <= p < q < self.entries@.len() implies self.entries@[p].public_key@
                        != self.entries@[q].public_key@ by {
                        assert(prev.entries@[p].public_key@ != prev.entries@[q].public_key@);
                    }
                    assert forall|k2: Seq<char>| #[trigger]
                        self.contains_key(k2) implies prev.contains_key(k2) by {
                        let p = choose|p: int|
                            0 <= p < self.entries@.len() && (#[trigger] self.entries@[p]).public_key@
                                == k2;
                        if p == i {
                            assert(prev.entries@[i as int].public_key@ == k2);
                        } else {
                            assert(prev.entries@[p].public_key@ == k2);
                        }
                    }
                    assert forall|k2: Seq<char>| #[trigger]
                        prev.contains_key(k2) implies self.contains_key(k2) by {
                        let p = prev.spec_index_of(k2);
                        prev.lemma_index_unique(p, k2);
                        if p == i {
                            assert(self.entries@[i as int].public_key@ == k);
                            assert(k2 == k);
                        } else {
                            assert(self.entries@[p].public_key@ == k2);
                        }
                    }
                    assert forall|k2: Seq<char>|
                        self.contains_key(k2) && k2 != k implies #[trigger] self.spec_get(k2)
                        == prev.spec_get(k2) by {
                        let p = self.spec_index_of(k2);
                        assert(0 <= p < self.entries@.len() && self.entries@[p].public_key@ == k2);
                        assert(p != i);
                        prev.lemma_index_unique(p, k2);
                        self.lemma_index_unique(p, k2);
                    }
                    self.lemma_index_unique(i as int, k);
                    assert(self.spec_get(k) == c);
                    assert(final(self).map_view() =~= prev.map_view().insert(k, c));
                }
            },
            None => {
                self.entries.push(c);
                proof {
                    let prev = *old(self);
                    let n = prev.entries@.len();
                    assert forall|p: int, q: int|
                        0 <= p < q < self.entries@.len() implies self.entries@[p].public_key@
                        != self.entries@[q].public_key@ by {
                        if q < n {
                            assert(prev.entries@[p].public_key@ != prev.entries@[q].public_key@);
                        } else {
                            assert(self.entries@[q] == c);
                            assert(prev.entries@[p].public_key@ != k) by {
                                if prev.entries@[p].public_key@ == k {
                                    assert(prev.contains_key(k));
                                }
                            }
                        }
                    }
                    assert forall|k2: Seq<char>| #[trigger]
                        self.contains_key(k2) implies (prev.contains_key(k2) || k2 == k) by {
                        let p = choose|p: int|
                            0 <= p < self.entries@.len() && (#[trigger] self.entries@[p]).public_key@
                                == k2;
                        if p < n {
                            assert(prev.entries@[p].public_key@ == k2);
                        }
                    }
                    assert forall|k2: Seq<char>| #[trigger]
                        prev.contains_key(k2) implies self.contains_key(k2) by {
                        let p = prev.spec_index_of(k2);
                        prev.lemma_index_unique(p, k2);
                        assert(self.entries@[p].public_key@ == k2);
                    }
                    assert(self.entries@[n as int].public_key@ == k);
                    assert(self.contains_key(k));
                    assert forall|k2: Seq<char>|
                        self.contains_key(k2) && k2 != k implies #[trigger] self.spec_get(k2)
                        == prev.spec_get(k2) by {
                        let p = self.spec_index_of(k2);
                        assert(0 <= p < self.entries@.len() && self.entries@[p].public_key@ == k2);
                        assert(p != n as int);
                        prev.lemma_index_unique(p, k2);
                        self.lemma_index_unique(p, k2);
                    }
                    self.lemma_index_unique(n as int, k);
                    assert(self.spec_get(k) == c);
                    assert(final(self).map_view() =~= prev.map_view().insert(k, c));
                }
            },
        }
    }
}

impl Clone for Client {
    fn clone(&self) -> (r: Self)
        ensures
            r == *self,
    {
        Client {
            author: self.author.clone(),
            public_key: self.public_key.clone(),
            maximums: self.maximums,
            limit: self.limit,
            connected: self.connected,
            usage: self.usage,
            valid_pk: self.valid_pk,
        }
    }
}

} // verus!
