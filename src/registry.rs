//! The registry of peers seen on the network, fed by discovery events.
use vstd::prelude::*;
use vstd::string::{StrSliceExecFns, StringExecFns};
use crate::routing::{RouteModel, RouteTable};

verus! {

/// A peer as the contracts see it.
pub struct PeerModel {
    pub id: Seq<char>,
    pub name: Seq<char>,
    pub ip: Seq<char>,
    pub port: u16,
    pub status: Seq<char>,
    pub device_type: Seq<char>,
    pub last_seen: Seq<char>,
    pub hop_count: u8,
    pub next_hop: Option<Seq<char>>,
}

/// Another device on the network.
pub struct Peer {
    pub id: String,
    /// The routing key: unique on a network.
    pub name: String,
    pub ip: String,
    pub port: u16,
    pub status: String,
    pub device_type: String,
    pub last_seen: String,
    pub hop_count: u8,
    pub next_hop: Option<String>,
}

/// The view of an optional name.
pub open spec fn opt_name(o: Option<String>) -> Option<Seq<char>> {
    match o {
        Some(s) => Some(s@),
        None => None,
    }
}

impl View for Peer {
    type V = PeerModel;

    open spec fn view(&self) -> PeerModel {
        PeerModel {
            id: self.id@,
            name: self.name@,
            ip: self.ip@,
            port: self.port,
            status: self.status@,
            device_type: self.device_type@,
            last_seen: self.last_seen@,
            hop_count: self.hop_count,
            next_hop: opt_name(self.next_hop),
        }
    }
}

impl Peer {
    /// A copy of this peer.
    pub fn copy(&self) -> (r: Peer)
        ensures
            r@ == self@,
    {
        Peer {
            id: self.id.clone(),
            name: self.name.clone(),
            ip: self.ip.clone(),
            port: self.port,
            status: self.status.clone(),
            device_type: self.device_type.clone(),
            last_seen: self.last_seen.clone(),
            hop_count: self.hop_count,
            next_hop: match &self.next_hop {
                Some(n) => Some(n.clone()),
                None => None,
            },
        }
    }
}

/// `s` starts with `prefix`.
pub open spec fn starts_with(s: Seq<char>, prefix: Seq<char>) -> bool {
    prefix.len() <= s.len() && s.subrange(0, prefix.len() as int) == prefix
}

/// Whether `s` starts with `prefix`.
pub fn has_prefix(s: &str, prefix: &str) -> (r: bool)
    ensures
        r == starts_with(s@, prefix@),
{
    let n = prefix.unicode_len();
    if n > s.unicode_len() {
        return false;
    }
    let mut i: usize = 0;
    while i < n
        invariant
            0 <= i <= n,
            n == prefix@.len(),
            n <= s@.len(),
            forall|k: int| 0 <= k < i ==> s@[k] == prefix@[k],
        decreases n - i,
    {
        if s.get_char(i) != prefix.get_char(i) {
            assert(s@.subrange(0, n as int)[i as int] != prefix@[i as int]);
            return false;
        }
        i = i + 1;
    }
    assert(s@.subrange(0, n as int) =~= prefix@);
    true
}

/// No two peers share a name.
pub open spec fn unique_names(s: Seq<PeerModel>) -> bool {
    forall|i: int, j: int| 0 <= i < s.len() && 0 <= j < s.len() && i != j ==> s[i].name != s[j].name
}

/// The peer list `s` with `p` in place of the peer of the same name, or added
/// at the end where there is none.
pub open spec fn upserted(s: Seq<PeerModel>, p: PeerModel) -> Seq<PeerModel> {
    if exists|k: int| 0 <= k < s.len() && #[trigger] s[k].name == p.name {
        s.update(choose|k: int| 0 <= k < s.len() && #[trigger] s[k].name == p.name, p)
    } else {
        s.push(p)
    }
}

/// The peer `p` as a listing shows it: with the hop count of the route to it,
/// and the route's next hop where that route has more than one hop.
pub open spec fn with_route(p: PeerModel, table: Map<Seq<char>, RouteModel>) -> PeerModel {
    if table.contains_key(p.name) {
        let r = table[p.name];
        if r.hop_count > 1 {
            PeerModel { hop_count: r.hop_count, next_hop: Some(r.next_hop), ..p }
        } else {
            PeerModel { hop_count: r.hop_count, ..p }
        }
    } else {
        p
    }
}

/// The peer a resolved advertisement describes.
pub open spec fn resolved_peer(
    id: Seq<char>,
    name: Seq<char>,
    ip: Seq<char>,
    port: u16,
    last_seen: Seq<char>,
) -> PeerModel {
    PeerModel {
        id,
        name,
        ip,
        port,
        status: seq!['A', 'v', 'a', 'i', 'l', 'a', 'b', 'l', 'e'],
        device_type: seq!['d', 'e', 's', 'k', 't', 'o', 'p'],
        last_seen,
        hop_count: 1,
        next_hop: None,
    }
}

/// The peers this device knows, one per identifier.
pub struct DeviceRegistry {
    peers: Vec<Peer>,
}

impl View for DeviceRegistry {
    type V = Seq<PeerModel>;

    closed spec fn view(&self) -> Seq<PeerModel> {
        self.peers@.map_values(|p: Peer| p@)
    }
}

impl DeviceRegistry {
    /// No two peers share a name: the name is the routing key.
    pub open spec fn wf(&self) -> bool {
        unique_names(self@)
    }

    /// An empty registry.
    pub fn new() -> (r: DeviceRegistry)
        ensures
            r.wf(),
            r@ == Seq::<PeerModel>::empty(),
    {
        let r = DeviceRegistry { peers: Vec::new() };
        assert(r@ =~= Seq::<PeerModel>::empty());
        r
    }

    /// Adds `peer`, or replaces the peer of its name.
    pub fn upsert_peer(&mut self, peer: Peer)
        requires
            old(self).wf(),
        ensures
            final(self).wf(),
            final(self)@ == upserted(old(self)@, peer@),
            final(self)@.contains(peer@),
    {
        let ghost s = self@;
        let ghost pv = peer@;
        let mut k: usize = 0;
        while k < self.peers.len()
            invariant
                0 <= k <= self.peers@.len(),
                self@ == s,
                s == old(self)@,
                pv == peer@,
                unique_names(s),
                forall|j: int| 0 <= j < k ==> #[trigger] s[j].name != pv.name,
            decreases self.peers@.len() - k,
        {
            if self.peers[k].name == peer.name {
                proof {
                    assert(s[k as int].name == pv.name);
                    let c = choose|c: int| 0 <= c < s.len() && #[trigger] s[c].name == pv.name;
                    if c != k {
                        assert(s[c].name == s[k as int].name);
                    }
                    assert(c == k);
                }
                self.peers.set(k, peer);
                assert(self@ =~= s.update(k as int, pv));
                assert(self@ == upserted(s, pv));
                assert(self@[k as int] == pv);
                assert forall|a: int, b: int|
                    0 <= a < self@.len() && 0 <= b < self@.len() && a != b implies self@[a].name
                        != self@[b].name by {
                    if a != k && b != k {
                        assert(self@[a] == s[a] && self@[b] == s[b]);
                    } else if a == k {
                        assert(self@[b] == s[b]);
                    } else {
                        assert(self@[a] == s[a]);
                    }
                }
                return;
            }
            k = k + 1;
        }
        self.peers.push(peer);
        assert(self@ =~= s.push(pv));
        assert(self@ == upserted(s, pv));
        assert(self@[s.len() as int] == pv);
        assert forall|a: int, b: int|
            0 <= a < self@.len() && 0 <= b < self@.len() && a != b implies self@[a].name
                != self@[b].name by {
            if a < s.len() && b < s.len() {
                assert(self@[a] == s[a] && self@[b] == s[b]);
            } else if a < s.len() {
                assert(self@[a] == s[a]);
            } else {
                assert(self@[b] == s[b]);
            }
        }
    }

    /// Removes the peer named `name`, if there is one.
    pub fn remove_named(&mut self, name: &String)
        requires
            old(self).wf(),
        ensures
            final(self).wf(),
            final(self)@ == old(self)@.filter(|p: PeerModel| p.name != name@),
    {
        let ghost s = self@;
        let ghost keep = |p: PeerModel| p.name != name@;
        let mut out: Vec<Peer> = Vec::new();
        let mut i: usize = 0;
        while i < self.peers.len()
            invariant
                0 <= i <= self.peers@.len(),
                self@ == s,
                unique_names(s),
                keep == (|p: PeerModel| p.name != name@),
                out@.map_values(|p: Peer| p@) == s.subrange(0, i as int).filter(keep),
                unique_names(out@.map_values(|p: Peer| p@)),
                forall|a: int|
                    #![trigger out@[a]]
                    0 <= a < out@.len() ==> exists|b: int|
                        #![trigger s[b]]
                        0 <= b < i && out@[a]@ == s[b],
            decreases self.peers@.len() - i,
        {
            proof {
                assert(s.subrange(0, i + 1) =~= s.subrange(0, i as int).push(s[i as int]));
                s.subrange(0, i as int).lemma_filter_push(s[i as int], keep);
            }
            if self.peers[i].name != *name {
                let ghost ob = out@;
                let ghost before = out@.map_values(|p: Peer| p@);
                out.push(self.peers[i].copy());
                let ghost after = out@.map_values(|p: Peer| p@);
                assert(after =~= before.push(s[i as int]));
                assert forall|a: int, b: int|
                    0 <= a < after.len() && 0 <= b < after.len() && a != b implies after[a].name
                        != after[b].name by {
                    if a < before.len() && b < before.len() {
                        assert(after[a] == before[a] && after[b] == before[b]);
                    } else if a < before.len() {
                        assert(after[a] == ob[a]@);
                        let c = choose|c: int| #![trigger s[c]] 0 <= c < i && ob[a]@ == s[c];
                    } else {
                        assert(after[b] == ob[b]@);
                        let c = choose|c: int| #![trigger s[c]] 0 <= c < i && ob[b]@ == s[c];
                    }
                }
                assert forall|a: int| #![trigger out@[a]] 0 <= a < out@.len() implies exists|b: int|
                    #![trigger s[b]]
                    0 <= b < i + 1 && out@[a]@ == s[b] by {
                    if a < ob.len() {
                        assert(out@[a] == ob[a]);
                        let c = choose|c: int| #![trigger s[c]] 0 <= c < i && ob[a]@ == s[c];
                        assert(out@[a]@ == s[c]);
                    } else {
                        assert(out@[a]@ == s[i as int]);
                    }
                }
            }
            i = i + 1;
        }
        assert(s.subrange(0, s.len() as int) =~= s);
        self.peers = out;
    }

    /// A copy of every peer, in order.
    pub fn snapshot_peers(&self) -> (r: Vec<Peer>)
        ensures
            r@.map_values(|p: Peer| p@) == self@,
    {
        let mut out: Vec<Peer> = Vec::new();
        let mut i: usize = 0;
        while i < self.peers.len()
            invariant
                0 <= i <= self.peers@.len(),
                out@.map_values(|p: Peer| p@) == self@.subrange(0, i as int),
            decreases self.peers@.len() - i,
        {
            let ghost before = out@.map_values(|p: Peer| p@);
            out.push(self.peers[i].copy());
            assert(out@.map_values(|p: Peer| p@) =~= before.push(self@[i as int]));
            assert(self@.subrange(0, i + 1) =~= self@.subrange(0, i as int).push(self@[i as int]));
            i = i + 1;
        }
        assert(self@.subrange(0, self@.len() as int) =~= self@);
        out
    }

    /// The names of the peers, in order.
    pub fn peer_names(&self) -> (r: Vec<String>)
        ensures
            crate::routing::names(r@) == self@.map_values(|p: PeerModel| p.name),
    {
        let mut out: Vec<String> = Vec::new();
        let mut i: usize = 0;
        while i < self.peers.len()
            invariant
                0 <= i <= self.peers@.len(),
                out@.len() == i,
                forall|k: int| 0 <= k < i ==> (#[trigger] out@[k])@ == self@[k].name,
            decreases self.peers@.len() - i,
        {
            out.push(self.peers[i].name.clone());
            i = i + 1;
        }
        assert(crate::routing::names(out@) =~= self@.map_values(|p: PeerModel| p.name));
        out
    }

    /// The address and port of the first peer named `name`.
    pub fn address_of(&self, name: &String) -> (r: Option<(String, u16)>)
        ensures
            match r {
                Some(a) => exists|k: int|
                    0 <= k < self@.len() && #[trigger] self@[k].name == name@ && a.0@ == self@[k].ip
                        && a.1 == self@[k].port && forall|j: int|
                        0 <= j < k ==> #[trigger] self@[j].name != name@,
                None => forall|k: int| 0 <= k < self@.len() ==> #[trigger] self@[k].name != name@,
            },
    {
        let mut k: usize = 0;
        while k < self.peers.len()
            invariant
                0 <= k <= self.peers@.len(),
                forall|j: int| 0 <= j < k ==> #[trigger] self@[j].name != name@,
            decreases self.peers@.len() - k,
        {
            if self.peers[k].name == *name {
                let r = (self.peers[k].ip.clone(), self.peers[k].port);
                assert(self@[k as int].name == name@);
                return Some(r);
            }
            k = k + 1;
        }
        None
    }

    /// Takes a resolved advertisement with its identifier and time. An
    /// advertisement whose name starts with this device's own name is this
    /// device's own and is ignored; any other adds or refreshes its peer.
    /// Tells whether the registry took it.
    pub fn on_peer_resolved(
        &mut self,
        own_name: &String,
        hostname: String,
        ip: String,
        port: u16,
        id: String,
        last_seen: String,
    ) -> (taken: bool)
        requires
            old(self).wf(),
        ensures
            final(self).wf(),
            taken == !starts_with(hostname@, own_name@),
            taken ==> final(self)@.contains(resolved_peer(id@, hostname@, ip@, port, last_seen@)),
            taken ==> final(self)@ == upserted(
                old(self)@,
                resolved_peer(id@, hostname@, ip@, port, last_seen@),
            ),
            !taken ==> final(self)@ == old(self)@,
    {
        if has_prefix(hostname.as_str(), own_name.as_str()) {
            return false;
        }
        proof {
            reveal_strlit("Available");
            reveal_strlit("desktop");
            assert("Available"@ =~= seq!['A', 'v', 'a', 'i', 'l', 'a', 'b', 'l', 'e']);
            assert("desktop"@ =~= seq!['d', 'e', 's', 'k', 't', 'o', 'p']);
        }
        let peer = Peer {
            id,
            name: hostname,
            ip,
            port,
            status: String::from_str("Available"),
            device_type: String::from_str("desktop"),
            last_seen,
            hop_count: 1,
            next_hop: None,
        };
        self.upsert_peer(peer);
        true
    }

    /// Takes a resolved advertisement, under a fresh identifier and the
    /// current time.
    pub fn handle_resolved(&mut self, own_name: &String, hostname: String, ip: String, port: u16) -> (taken: bool)
        requires
            old(self).wf(),
        ensures
            final(self).wf(),
            taken == !starts_with(hostname@, own_name@),
            taken ==> exists|id: Seq<char>, t: Seq<char>|
                final(self)@ == upserted(old(self)@, resolved_peer(id, hostname@, ip@, port, t)),
            taken ==> exists|k: int|
                0 <= k < final(self)@.len() && #[trigger] final(self)@[k].name == hostname@
                    && final(self)@[k].ip == ip@ && final(self)@[k].port == port
                    && final(self)@[k].hop_count == 1 && (final(self)@[k].next_hop is None),
            !taken ==> final(self)@ == old(self)@,
    {
        let id = crate::sources::new_id();
        let last_seen = crate::sources::clock_text();
        let ghost (i, t) = (id@, last_seen@);
        let taken = self.on_peer_resolved(own_name, hostname, ip, port, id, last_seen);
        if taken {
            assert(final(self)@ == upserted(old(self)@, resolved_peer(i, hostname@, ip@, port, t)));
            let ghost p = resolved_peer(i, hostname@, ip@, port, t);
            assert(self@.contains(p));
            let ghost k = choose|k: int| 0 <= k < self@.len() && self@[k] == p;
            assert(self@[k].name == hostname@);
        }
        taken
    }

    /// Every peer, with the hop count and next hop of its route.
    pub fn devices_with_routes(&self, routes: &RouteTable) -> (r: Vec<Peer>)
        requires
            routes.wf(),
        ensures
            r@.map_values(|p: Peer| p@) == self@.map_values(|p: PeerModel| with_route(p, routes@)),
    {
        let mut out: Vec<Peer> = Vec::new();
        let mut i: usize = 0;
        let ghost target = self@.map_values(|p: PeerModel| with_route(p, routes@));
        while i < self.peers.len()
            invariant
                0 <= i <= self.peers@.len(),
                routes.wf(),
                target == self@.map_values(|p: PeerModel| with_route(p, routes@)),
                out@.map_values(|p: Peer| p@) == target.subrange(0, i as int),
            decreases self.peers@.len() - i,
        {
            let mut p = self.peers[i].copy();
            match routes.lookup_route(&p.name) {
                Some(route) => {
                    p.hop_count = route.hop_count;
                    if route.hop_count > 1 {
                        p.next_hop = Some(route.next_hop);
                    }
                },
                None => {},
            }
            let ghost before = out@.map_values(|p: Peer| p@);
            out.push(p);
            assert(out@.map_values(|p: Peer| p@) =~= before.push(target[i as int]));
            assert(target.subrange(0, i + 1) =~= target.subrange(0, i as int).push(target[i as int]));
            i = i + 1;
        }
        assert(target.subrange(0, target.len() as int) =~= target);
        out
    }
}

} // verus!
