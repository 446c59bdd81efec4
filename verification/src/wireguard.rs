//! The node's shared state: the slot registry handing out internal tunnel
//! addresses, the WireGuard interface configuration, and the node identity
//! returned by the mesh registry.
use vstd::prelude::*;

use crate::client::{Clients, Host, Reservation, Slot};
use crate::clock::{chrono_millis_in_range, now_timestamp_millis};
use crate::strings::{trim_spec, trim_ws};
use vstd::string::StringExecFns;

verus! {

/// The interface configuration: plain settings the node is booted with.
#[derive(Debug, Clone)]
pub struct WireGuardConfigFile {
    pub address: String,
    pub name: String,
    pub post_up: String,
    pub post_down: String,
    pub listen_port: String,
    pub dns: String,
    pub database_url: String,
    pub access_key: String,
    pub location: String,
    pub country: String,
    pub flag: String,
}

/// The node's WireGuard keypair, as rendered by the `wg` tool.
#[derive(Debug, Clone)]
pub struct KeyState {
    pub private_key: String,
    pub public_key: String,
}

/// Geodata the mesh registry resolves for the node's public address.
/// Latitude and longitude are kept as the decimal text the registry sent.
#[derive(Debug, Clone)]
pub struct IpResponse {
    pub country: String,
    pub region: String,
    pub eu: bool,
    pub city: String,
    pub latitude: String,
    pub longitude: String,
    pub metro: i16,
    pub radius: i16,
    pub timezone: String,
}

/// The registration response: TLS material, the assigned public address
/// and the node's record identifiers.
#[derive(Debug, Clone)]
pub struct RegistryReturn {
    pub key: String,
    pub cert: String,
    pub ip: String,
    pub record_id: String,
    pub cert_id: String,
    pub res: IpResponse,
    pub id: String,
}

/// A dense two-dimensional bitmap of internal-address coordinates: row `a`
/// runs over `[2, 2 + rows)`, column `b` over `[1, 255)`, and the cell
/// holds whether the coordinate is reserved.
pub struct SlotRegistry {
    pub rows: u8,
    pub cells: Vec<bool>,
}

/// One registry operation, for reasoning about call sequences.
pub enum SlotOp {
    Reserve { a: int, b: int },
    Free { a: int, b: int },
}

pub open spec fn slot_op_key(op: SlotOp) -> (int, int) {
    match op {
        SlotOp::Reserve { a, b } => (a, b),
        SlotOp::Free { a, b } => (a, b),
    }
}

/// The effect of one operation on the occupancy map: a reservation marks a
/// known free cell, a free clears a known cell, and anything else leaves
/// the map unchanged.
pub open spec fn apply_slot_op(g: Map<(int, int), bool>, op: SlotOp) -> Map<(int, int), bool> {
    let k = slot_op_key(op);
    if g.contains_key(k) {
        match op {
            SlotOp::Reserve { .. } => if !g[k] {
                g.insert(k, true)
            } else {
                g
            },
            SlotOp::Free { .. } => g.insert(k, false),
        }
    } else {
        g
    }
}

pub open spec fn apply_slot_ops(g: Map<(int, int), bool>, ops: Seq<SlotOp>) -> Map<
    (int, int),
    bool,
>
    decreases ops.len(),
{
    if ops.len() == 0 {
        g
    } else {
        apply_slot_op(apply_slot_ops(g, ops.drop_last()), ops.last())
    }
}

/// Whether a coordinate is reserved-but-not-freed after a call sequence:
/// its occupancy follows the most recent operation touching it, and falls
/// back to the starting map when none does.
pub open spec fn net_claim(g: Map<(int, int), bool>, ops: Seq<SlotOp>, k: (int, int)) -> bool
    decreases ops.len(),
{
    if ops.len() == 0 {
        g[k]
    } else if slot_op_key(ops.last()) == k {
        ops.last() is Reserve
    } else {
        net_claim(g, ops.drop_last(), k)
    }
}

/// A reservation would succeed exactly on a known, currently free cell.
pub open spec fn reserve_would_hold(g: Map<(int, int), bool>, k: (int, int)) -> bool {
    g.contains_key(k) && !g[k]
}

/// For any sequence of reserve and free calls against one registry, a
/// coordinate is occupied afterwards exactly when it is reserved and not
/// freed since: the most recent operation touching it is a reservation
/// (one that bounces off an occupied cell leaves the earlier holder in
/// place). So the held slots are exactly the reserved-but-not-freed
/// coordinates.
pub proof fn lemma_registry_accounting(
    g: Map<(int, int), bool>,
    ops: Seq<SlotOp>,
    k: (int, int),
)
    requires
        g.contains_key(k),
    ensures
        apply_slot_ops(g, ops).contains_key(k),
        apply_slot_ops(g, ops)[k] == net_claim(g, ops, k),
    decreases ops.len(),
{
    if ops.len() > 0 {
        lemma_registry_accounting(g, ops.drop_last(), k);
    }
}

/// Two reservations of the same host can never both be held: once one
/// succeeds, the cell is occupied and any further reservation bounces
/// until the slot is freed. Reservations are serialized by the node's
/// exclusive guard, so this rules out two concurrent holders.
pub proof fn lemma_no_double_hold(g: Map<(int, int), bool>, a: int, b: int)
    ensures
        reserve_would_hold(g, (a, b)) ==> !reserve_would_hold(
            apply_slot_op(g, SlotOp::Reserve { a, b }),
            (a, b),
        ),
{
}

impl SlotRegistry {
    /// Well-formed: one cell per coordinate of the grid.
    pub open spec fn wf(self) -> bool {
        &&& self.cells@.len() == self.rows as int * 254
        &&& self.rows <= 253
    }

    pub open spec fn in_grid(self, a: int, b: int) -> bool {
        2 <= a < 2 + self.rows as int && 1 <= b < 255
    }

    /// The cell of coordinate `(a, b)`, in increasing `(a, b)` order.
    pub open spec fn cell_index(a: int, b: int) -> int {
        (a - 2) * 254 + (b - 1)
    }

    pub open spec fn occupied(self, a: int, b: int) -> bool {
        self.cells@[Self::cell_index(a, b)]
    }

    /// Every cell of the grid is occupied.
    pub open spec fn full(self) -> bool {
        forall|a: int, b: int| self.in_grid(a, b) ==> self.occupied(a, b)
    }

    /// `(a, b)` is the first free coordinate in increasing `(a, b)` order.
    pub open spec fn is_first_free(self, a: int, b: int) -> bool {
        &&& self.in_grid(a, b)
        &&& !self.occupied(a, b)
        &&& forall|x: int, y: int|
            self.in_grid(x, y) && (x < a || (x == a && y < b)) ==> self.occupied(x, y)
    }

    /// The registry as a map from in-grid coordinates to occupancy.
    pub open spec fn grid(self) -> Map<(int, int), bool> {
        Map::new(
            |p: (int, int)| self.in_grid(p.0, p.1),
            |p: (int, int)| self.occupied(p.0, p.1),
        )
    }

    proof fn lemma_index_bounds(self, a: int, b: int)
        requires
            self.wf(),
            self.in_grid(a, b),
        ensures
            0 <= Self::cell_index(a, b) < self.cells@.len(),
    {
    }

    proof fn lemma_index_injective(a: int, b: int, a2: int, b2: int)
        requires
            1 <= b < 255,
            1 <= b2 < 255,
            2 <= a,
            2 <= a2,
            (a, b) != (a2, b2),
        ensures
            Self::cell_index(a, b) != Self::cell_index(a2, b2),
    {
    }

    /// A fresh grid with `rows` rows, all cells free.
    pub fn new_grid(rows: u8) -> (r: SlotRegistry)
        requires
            rows <= 253,
        ensures
            r.wf(),
            r.rows == rows,
            forall|a: int, b: int| r.in_grid(a, b) ==> !r.occupied(a, b),
    {
        let n: usize = rows as usize * 254;
        let cells: Vec<bool> = vec![false; n];
        let r = SlotRegistry { rows, cells };
        proof {
            assert forall|a: int, b: int| r.in_grid(a, b) implies !r.occupied(a, b) by {
                r.lemma_index_bounds(a, b);
            }
        }
        r
    }

    /// Marks `(a, b)` reserved when it is a known free coordinate; any
    /// other request bounces with the registry unchanged.
    pub fn reserve(&mut self, requested_slot: Host) -> (r: Reservation)
        requires
            old(self).wf(),
        ensures
            final(self).wf(),
            final(self).rows == old(self).rows,
            !(r is Imissable),
            r matches Reservation::Held(h) ==> h == requested_slot,
            r matches Reservation::Detached(h) ==> h == requested_slot,
            r is Held <==> reserve_would_hold(
                old(self).grid(),
                (requested_slot.a as int, requested_slot.b as int),
            ),
            r is Detached ==> *final(self) == *old(self),
            final(self).grid() == apply_slot_op(
                old(self).grid(),
                SlotOp::Reserve { a: requested_slot.a as int, b: requested_slot.b as int },
            ),
            r is Held ==> final(self).occupied(requested_slot.a as int, requested_slot.b as int),
            forall|x: int, y: int|
                old(self).in_grid(x, y) && (x, y) != (
                    requested_slot.a as int,
                    requested_slot.b as int,
                ) ==> final(self).occupied(x, y) == old(self).occupied(x, y),
    {
        let a = requested_slot.a;
        let b = requested_slot.b;
        if a < 2 || a >= 2 + self.rows || b < 1 {
            // b < 255 holds for every u8 but 255 itself.
            proof {
                assert(!old(self).grid().contains_key((a as int, b as int)));
            }
            return Reservation::Detached(requested_slot);
        }
        if b == 255 {
            proof {
                assert(!old(self).grid().contains_key((a as int, b as int)));
            }
            return Reservation::Detached(requested_slot);
        }
        let idx: usize = (a - 2) as usize * 254 + (b - 1) as usize;
        proof {
            self.lemma_index_bounds(a as int, b as int);
        }
        if self.cells[idx] {
            proof {
                assert(final(self).grid() =~= apply_slot_op(
                    old(self).grid(),
                    SlotOp::Reserve { a: a as int, b: b as int },
                ));
            }
            Reservation::Detached(requested_slot)
        } else {
            self.cells.set(idx, true);
            proof {
                assert forall|x: int, y: int|
                    old(self).in_grid(x, y) && (x, y) != (a as int, b as int) implies final(self).occupied(x, y)
                    == old(self).occupied(x, y) by {
                    Self::lemma_index_injective(x, y, a as int, b as int);
                    old(self).lemma_index_bounds(x, y);
                }
                assert(final(self).grid() =~= apply_slot_op(
                    old(self).grid(),
                    SlotOp::Reserve { a: a as int, b: b as int },
                ));
            }
            Reservation::Held(requested_slot)
        }
    }

    /// Clears `(a, b)`; freeing an already-free or unknown coordinate is a
    /// no-op.
    pub fn free(&mut self, freeing_slot: &Host)
        requires
            old(self).wf(),
        ensures
            final(self).wf(),
            final(self).rows == old(self).rows,
            final(self).grid() == apply_slot_op(
                old(self).grid(),
                SlotOp::Free { a: freeing_slot.a as int, b: freeing_slot.b as int },
            ),
            old(self).in_grid(freeing_slot.a as int, freeing_slot.b as int)
                ==> !final(self).occupied(freeing_slot.a as int, freeing_slot.b as int),
            !old(self).in_grid(freeing_slot.a as int, freeing_slot.b as int) ==> *final(self)
                == *old(self),
            forall|x: int, y: int|
                old(self).in_grid(x, y) && (x, y) != (
                    freeing_slot.a as int,
                    freeing_slot.b as int,
                ) ==> final(self).occupied(x, y) == old(self).occupied(x, y),
    {
        let a = freeing_slot.a;
        let b = freeing_slot.b;
        if a < 2 || a >= 2 + self.rows || b < 1 || b == 255 {
            proof {
                assert(!old(self).grid().contains_key((a as int, b as int)));
                assert(final(self).grid() =~= apply_slot_op(
                    old(self).grid(),
                    SlotOp::Free { a: a as int, b: b as int },
                ));
            }
            return ;
        }
        let idx: usize = (a - 2) as usize * 254 + (b - 1) as usize;
        proof {
            self.lemma_index_bounds(a as int, b as int);
        }
        self.cells.set(idx, false);
        proof {
            assert forall|x: int, y: int|
                old(self).in_grid(x, y) && (x, y) != (a as int, b as int) implies final(self).occupied(x, y)
                == old(self).occupied(x, y) by {
                Self::lemma_index_injective(x, y, a as int, b as int);
                old(self).lemma_index_bounds(x, y);
            }
            assert(final(self).grid() =~= apply_slot_op(
                old(self).grid(),
                SlotOp::Free { a: a as int, b: b as int },
            ));
        }
    }

    /// Scans the grid in increasing `(a, b)` order for a free coordinate.
    /// `Prospective` comes back exactly when every cell is occupied.
    pub fn find_open(&self, conn_time: i64) -> (r: Slot)
        requires
            self.wf(),
        ensures
            r is Prospective <==> self.full(),
            r matches Slot::Open(h) ==> self.is_first_free(h.a as int, h.b as int)
                && h.conn_time == conn_time,
    {
        let mut a: u8 = 2;
        while a < 2 + self.rows
            invariant
                self.wf(),
                2 <= a <= 2 + self.rows as int,
                forall|x: int, y: int| self.in_grid(x, y) && x < a as int ==> self.occupied(x, y),
            decreases 2 + self.rows as int - a as int,
        {
            let mut b: u8 = 1;
            while b < 255
                invariant
                    self.wf(),
                    2 <= a < 2 + self.rows as int,
                    1 <= b <= 255,
                    forall|x: int, y: int|
                        self.in_grid(x, y) && x < a as int ==> self.occupied(x, y),
                    forall|y: int| 1 <= y < b as int ==> self.occupied(a as int, y),
                decreases 255 - b as int,
            {
                let idx: usize = (a - 2) as usize * 254 + (b - 1) as usize;
                proof {
                    self.lemma_index_bounds(a as int, b as int);
                }
                if !self.cells[idx] {
                    proof {
                        assert(self.in_grid(a as int, b as int));
                        assert(!self.occupied(a as int, b as int));
                    }
                    return Slot::Open(Host { a, b, conn_time });
                }
                b = b + 1;
            }
            a = a + 1;
        }
        Slot::Prospective
    }
}

impl WireGuardConfigFile {
    /// The node's fixed interface settings around the values discovered at
    /// boot: the public address, the database DSN and the mesh access key.
    pub fn defaults(address: String, database_url: String, access_key: String) -> (r: Self)
        ensures
            r.address == address,
            r.database_url == database_url,
            r.access_key == access_key,
            r.name@ == Seq::<char>::empty(),
            r.post_up@ ==
                "iptables -A FORWARD -i reseda -j ACCEPT; iptables -t nat -A POSTROUTING -o eth0 -j MASQUERADE"@,
            r.post_down@ ==
                "iptables -A FORWARD -i reseda -j ACCEPT; iptables -t nat -A POSTROUTING -o eth0 -j MASQUERADE"@,
            r.dns@ == "1.1.1.1"@,
            r.listen_port@ == "8443"@,
            r.location@ == Seq::<char>::empty(),
            r.country@ == Seq::<char>::empty(),
            r.flag@ == Seq::<char>::empty(),
    {
        WireGuardConfigFile {
            name: String::new(),
            address,
            post_up: String::from_str(
                "iptables -A FORWARD -i reseda -j ACCEPT; iptables -t nat -A POSTROUTING -o eth0 -j MASQUERADE",
            ),
            post_down: String::from_str(
                "iptables -A FORWARD -i reseda -j ACCEPT; iptables -t nat -A POSTROUTING -o eth0 -j MASQUERADE",
            ),
            dns: String::from_str("1.1.1.1"),
            listen_port: String::from_str("8443"),
            database_url,
            access_key,
            location: String::new(),
            country: String::new(),
            flag: String::new(),
        }
    }
}

/// The process-wide node state: interface settings, keys, the client
/// roster, the slot registry and the node identity.
pub struct WireGuardConfig {
    pub config: WireGuardConfigFile,
    pub keys: KeyState,
    pub clients: Clients,
    pub registry: SlotRegistry,
    pub internal_addr: String,
    pub information: RegistryReturn,
}

/// The text of `/etc/wireguard/reseda.conf`: one `[Interface]` section;
/// peers are programmed imperatively, never written here.
pub open spec fn spec_config_string(
    internal_addr: Seq<char>,
    private_key: Seq<char>,
    listen_port: Seq<char>,
    dns: Seq<char>,
    post_up: Seq<char>,
    post_down: Seq<char>,
) -> Seq<char> {
    "[Interface]\nAddress = "@ + internal_addr + "/24\nPrivateKey = "@ + trim_spec(private_key)
        + "\nListenPort = "@ + listen_port + "\nDNS = "@ + dns + "\nPostUp = "@ + post_up
        + "\nPostDown = "@ + post_down
}

impl WireGuardConfig {
    /// Well-formed: the registry grid is intact and the client roster has
    /// no duplicate keys.
    pub open spec fn wf(self) -> bool {
        &&& self.registry.wf()
        &&& self.clients.wf()
    }

    /// Assembles the node state from what bootstrap discovered: fresh
    /// registry over rows `[2, A_MAX)`, empty roster, the fixed internal
    /// server address.
    pub fn initialize(
        config: WireGuardConfigFile,
        keys: KeyState,
        information: RegistryReturn,
    ) -> (r: Self)
        ensures
            r.wf(),
            r.config == config,
            r.keys == keys,
            r.information == information,
            r.registry.rows == crate::A_MAX - 2,
            forall|a: int, b: int| r.registry.in_grid(a, b) ==> !r.registry.occupied(a, b),
            r.clients.entries@.len() == 0,
            r.clients.map_view() == Map::<Seq<char>, crate::client::Client>::empty(),
            r.internal_addr@ == "10.8.2.1"@,
    {
        WireGuardConfig {
            config,
            keys,
            clients: Clients::new(),
            registry: Self::init_registry(crate::A_MAX),
            internal_addr: String::from_str("10.8.2.1"),
            information,
        }
    }

    /// A registry over rows `[2, highest)`, every cell free.
    pub fn init_registry(highest: u8) -> (r: SlotRegistry)
        ensures
            r.wf(),
            r.rows == if highest >= 2 {
                highest - 2
            } else {
                0
            },
            forall|a: int, b: int| r.in_grid(a, b) ==> !r.occupied(a, b),
    {
        let rows: u8 = if highest >= 2 {
            highest - 2
        } else {
            0
        };
        SlotRegistry::new_grid(rows)
    }

    /// The configuration file text for the local interface.
    pub fn generate_config_string(&self) -> (r: String)
        ensures
            r@ == spec_config_string(
                self.internal_addr@,
                self.keys.private_key@,
                self.config.listen_port@,
                self.config.dns@,
                self.config.post_up@,
                self.config.post_down@,
            ),
    {
        let mut s = String::from_str("[Interface]\nAddress = ");
        s.append(self.internal_addr.as_str());
        s.append("/24\nPrivateKey = ");
        let trimmed = trim_ws(self.keys.private_key.as_str());
        s.append(trimmed.as_str());
        s.append("\nListenPort = ");
        s.append(self.config.listen_port.as_str());
        s.append("\nDNS = ");
        s.append(self.config.dns.as_str());
        s.append("\nPostUp = ");
        s.append(self.config.post_up.as_str());
        s.append("\nPostDown = ");
        s.append(self.config.post_down.as_str());
        proof {
            assert(s@ =~= spec_config_string(
                self.internal_addr@,
                self.keys.private_key@,
                self.config.listen_port@,
                self.config.dns@,
                self.config.post_up@,
                self.config.post_down@,
            ));
        }
        s
    }

    /// Probes for the first free slot in increasing `(a, b)` order,
    /// stamping it with the current time; `Prospective` exactly when the
    /// node is full.
    pub fn find_open_slot(&self) -> (r: Slot)
        requires
            self.registry.wf(),
        ensures
            r is Prospective <==> self.registry.full(),
            r matches Slot::Open(h) ==> self.registry.is_first_free(h.a as int, h.b as int)
                && chrono_millis_in_range(h.conn_time as int),
    {
        let now = now_timestamp_millis();
        self.registry.find_open(now)
    }

    /// Atomically reserves the requested slot; see `SlotRegistry::reserve`.
    pub fn reserve_slot(&mut self, requested_slot: Host) -> (r: Reservation)
        requires
            old(self).registry.wf(),
        ensures
            final(self).registry.wf(),
            final(self).registry.rows == old(self).registry.rows,
            *final(self) == (WireGuardConfig { registry: final(self).registry, ..*old(self) }),
            !(r is Imissable),
            r matches Reservation::Held(h) ==> h == requested_slot,
            r matches Reservation::Detached(h) ==> h == requested_slot,
            r is Held <==> reserve_would_hold(
                old(self).registry.grid(),
                (requested_slot.a as int, requested_slot.b as int),
            ),
            r is Detached ==> *final(self) == *old(self),
            final(self).registry.grid() == apply_slot_op(
                old(self).registry.grid(),
                SlotOp::Reserve { a: requested_slot.a as int, b: requested_slot.b as int },
            ),
            r is Held ==> final(self).registry.occupied(
                requested_slot.a as int,
                requested_slot.b as int,
            ),
            forall|x: int, y: int|
                old(self).registry.in_grid(x, y) && (x, y) != (
                    requested_slot.a as int,
                    requested_slot.b as int,
                ) ==> final(self).registry.occupied(x, y) == old(self).registry.occupied(x, y),
    {
        self.registry.reserve(requested_slot)
    }

    /// Clears the given slot; see `SlotRegistry::free`.
    pub fn free_slot(&mut self, freeing_slot: &Host)
        requires
            old(self).registry.wf(),
        ensures
            final(self).registry.wf(),
            final(self).registry.rows == old(self).registry.rows,
            *final(self) == (WireGuardConfig { registry: final(self).registry, ..*old(self) }),
            final(self).registry.grid() == apply_slot_op(
                old(self).registry.grid(),
                SlotOp::Free { a: freeing_slot.a as int, b: freeing_slot.b as int },
            ),
            old(self).registry.in_grid(freeing_slot.a as int, freeing_slot.b as int)
                ==> !final(self).registry.occupied(freeing_slot.a as int, freeing_slot.b as int),
            !old(self).registry.in_grid(freeing_slot.a as int, freeing_slot.b as int)
                ==> *final(self) == *old(self),
            forall|x: int, y: int|
                old(self).registry.in_grid(x, y) && (x, y) != (
                    freeing_slot.a as int,
                    freeing_slot.b as int,
                ) ==> final(self).registry.occupied(x, y) == old(self).registry.occupied(x, y),
    {
        self.registry.free(freeing_slot)
    }
}

} // verus!
