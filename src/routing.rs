//! The route table and the periodic route computation over the visible peers.
use vstd::prelude::*;

verus! {

/// A route as the contracts see it: names are character sequences.
pub struct RouteModel {
    pub destination: Seq<char>,
    pub next_hop: Seq<char>,
    pub hop_count: u8,
    pub path: Seq<Seq<char>>,
}

impl RouteModel {
    /// A route from `me`: at least one hop, a path from `me` to the
    /// destination with one more name than hops, entered through its second
    /// name.
    pub open spec fn well_formed_for(self, me: Seq<char>) -> bool {
        &&& self.hop_count >= 1
        &&& self.path.len() == self.hop_count + 1
        &&& self.path[0] == me
        &&& self.path.last() == self.destination
        &&& self.next_hop == self.path[1]
    }
}

/// The one-hop route from `me` to `dest`.
pub open spec fn direct_route(me: Seq<char>, dest: Seq<char>) -> RouteModel {
    RouteModel { destination: dest, next_hop: dest, hop_count: 1, path: seq![me, dest] }
}

/// The two-hop route from `me` to `dest` through `via`.
pub open spec fn two_hop_route(me: Seq<char>, via: Seq<char>, dest: Seq<char>) -> RouteModel {
    RouteModel { destination: dest, next_hop: via, hop_count: 2, path: seq![me, via, dest] }
}

/// The names held by a list of strings.
pub open spec fn names(v: Seq<String>) -> Seq<Seq<char>> {
    v.map_values(|s: String| s@)
}

/// The direct route from `me` to each of `peers`.
pub open spec fn direct_routes(me: Seq<char>, peers: Seq<Seq<char>>) -> Map<Seq<char>, RouteModel> {
    Map::new(|d: Seq<char>| peers.contains(d), |d: Seq<char>| direct_route(me, d))
}

/// The table after one tick over `peers`: every visible peer gets its direct
/// route, every other destination keeps the route it had.
pub open spec fn after_tick(
    table: Map<Seq<char>, RouteModel>,
    me: Seq<char>,
    peers: Seq<Seq<char>>,
) -> Map<Seq<char>, RouteModel> {
    table.union_prefer_right(direct_routes(me, peers))
}

/// After one tick with peers `a` and `b` visible, both have their direct route
/// of one hop. A destination `c` that is not visible keeps exactly the route
/// it had, or stays without one: a tick adds routes to visible peers only.
pub proof fn lemma_tick_routes(
    table: Map<Seq<char>, RouteModel>,
    me: Seq<char>,
    peers: Seq<Seq<char>>,
    a: Seq<char>,
    b: Seq<char>,
    c: Seq<char>,
)
    requires
        peers.contains(a),
        peers.contains(b),
        !peers.contains(c),
    ensures
        after_tick(table, me, peers).contains_key(a),
        after_tick(table, me, peers)[a] == direct_route(me, a),
        after_tick(table, me, peers)[a].hop_count == 1,
        after_tick(table, me, peers).contains_key(b),
        after_tick(table, me, peers)[b] == direct_route(me, b),
        after_tick(table, me, peers)[b].hop_count == 1,
        after_tick(table, me, peers).contains_key(c) == table.contains_key(c),
        table.contains_key(c) ==> after_tick(table, me, peers)[c] == table[c],
{
    assert(direct_routes(me, peers).contains_key(a));
    assert(direct_routes(me, peers).contains_key(b));
    assert(!direct_routes(me, peers).contains_key(c));
}

/// A route: where a packet for `destination` goes next, and the whole path.
pub struct Route {
    pub destination: String,
    pub next_hop: String,
    pub hop_count: u8,
    pub path: Vec<String>,
}

impl View for Route {
    type V = RouteModel;

    open spec fn view(&self) -> RouteModel {
        RouteModel {
            destination: self.destination@,
            next_hop: self.next_hop@,
            hop_count: self.hop_count,
            path: names(self.path@),
        }
    }
}

/// Copies a list of names.
pub fn copy_names(v: &Vec<String>) -> (r: Vec<String>)
    ensures
        names(r@) == names(v@),
{
    let mut out: Vec<String> = Vec::new();
    let mut i: usize = 0;
    while i < v.len()
        invariant
            0 <= i <= v@.len(),
            out@.len() == i,
            forall|k: int| 0 <= k < i ==> out@[k]@ == v@[k]@,
        decreases v@.len() - i,
    {
        out.push(v[i].clone());
        i = i + 1;
    }
    assert(names(out@) =~= names(v@));
    out
}

impl Route {
    /// A copy of this route.
    pub fn copy(&self) -> (r: Route)
        ensures
            r@ == self@,
    {
        Route {
            destination: self.destination.clone(),
            next_hop: self.next_hop.clone(),
            hop_count: self.hop_count,
            path: copy_names(&self.path),
        }
    }

    /// The one-hop route from `me` to `dest`.
    pub fn direct(me: &String, dest: &String) -> (r: Route)
        ensures
            r@ == direct_route(me@, dest@),
    {
        let path = vec![me.clone(), dest.clone()];
        let r = Route { destination: dest.clone(), next_hop: dest.clone(), hop_count: 1, path };
        assert(r@.path =~= seq![me@, dest@]);
        r
    }

    /// The two-hop route from `me` to `dest` through `via`.
    pub fn through(me: &String, via: &String, dest: &String) -> (r: Route)
        ensures
            r@ == two_hop_route(me@, via@, dest@),
    {
        let path = vec![me.clone(), via.clone(), dest.clone()];
        let r = Route { destination: dest.clone(), next_hop: via.clone(), hop_count: 2, path };
        assert(r@.path =~= seq![me@, via@, dest@]);
        r
    }
}

/// The map from destination to route that a list of routes stands for, a later
/// entry overriding an earlier one.
pub open spec fn routes_map(rs: Seq<Route>) -> Map<Seq<char>, RouteModel>
    decreases rs.len(),
{
    if rs.len() == 0 {
        Map::empty()
    } else {
        routes_map(rs.drop_last()).insert(rs.last().destination@, rs.last()@)
    }
}

/// No two entries share a destination.
pub open spec fn unique_destinations(rs: Seq<Route>) -> bool {
    forall|i: int, j: int|
        0 <= i < rs.len() && 0 <= j < rs.len() && i != j ==> rs[i].destination@
            != rs[j].destination@
}

proof fn lemma_routes_map_dom(rs: Seq<Route>, d: Seq<char>)
    ensures
        routes_map(rs).contains_key(d) <==> exists|i: int|
            0 <= i < rs.len() && #[trigger] rs[i].destination@ == d,
    decreases rs.len(),
{
    if rs.len() > 0 {
        lemma_routes_map_dom(rs.drop_last(), d);
        if routes_map(rs.drop_last()).contains_key(d) {
            let i = choose|i: int| 0 <= i < rs.drop_last().len() && #[trigger] rs.drop_last()[i].destination@ == d;
            assert(rs[i].destination@ == d);
        }
        if exists|i: int| 0 <= i < rs.len() && #[trigger] rs[i].destination@ == d {
            let i = choose|i: int| 0 <= i < rs.len() && #[trigger] rs[i].destination@ == d;
            if i < rs.len() - 1 {
                assert(rs.drop_last()[i].destination@ == d);
            }
        }
    }
}

proof fn lemma_routes_map_at(rs: Seq<Route>, i: int)
    requires
        unique_destinations(rs),
        0 <= i < rs.len(),
    ensures
        routes_map(rs).contains_key(rs[i].destination@),
        routes_map(rs)[rs[i].destination@] == rs[i]@,
    decreases rs.len(),
{
    if i < rs.len() - 1 {
        let p = rs.drop_last();
        assert(p[i] == rs[i]);
        assert(unique_destinations(p)) by {
            assert forall|a: int, b: int|
                0 <= a < p.len() && 0 <= b < p.len() && a != b implies p[a].destination@
                    != p[b].destination@ by {
                assert(p[a] == rs[a] && p[b] == rs[b]);
            }
        }
        lemma_routes_map_at(p, i);
        assert(rs.last().destination@ != rs[i].destination@);
    }
}

proof fn lemma_routes_map_update(rs: Seq<Route>, i: int, r: Route)
    requires
        unique_destinations(rs),
        0 <= i < rs.len(),
        rs[i].destination@ == r.destination@,
    ensures
        routes_map(rs.update(i, r)) == routes_map(rs).insert(r.destination@, r@),
        unique_destinations(rs.update(i, r)),
    decreases rs.len(),
{
    let u = rs.update(i, r);
    if i == rs.len() - 1 {
        assert(u.drop_last() =~= rs.drop_last());
        assert(routes_map(u) =~= routes_map(rs).insert(r.destination@, r@));
    } else {
        let p = rs.drop_last();
        assert(u.drop_last() =~= p.update(i, r));
        assert(unique_destinations(p)) by {
            assert forall|a: int, b: int|
                0 <= a < p.len() && 0 <= b < p.len() && a != b implies p[a].destination@
                    != p[b].destination@ by {
                assert(p[a] == rs[a] && p[b] == rs[b]);
            }
        }
        lemma_routes_map_update(p, i, r);
        assert(rs.last().destination@ != r.destination@);
        assert(routes_map(u) =~= routes_map(rs).insert(r.destination@, r@));
    }
    assert(unique_destinations(u)) by {
        assert forall|a: int, b: int|
            0 <= a < u.len() && 0 <= b < u.len() && a != b implies u[a].destination@
                != u[b].destination@ by {
            if a != i && b != i {
                assert(u[a] == rs[a] && u[b] == rs[b]);
            } else if a == i {
                assert(u[b] == rs[b]);
            } else {
                assert(u[a] == rs[a]);
            }
        }
    }
}

proof fn lemma_routes_map_push(rs: Seq<Route>, r: Route)
    requires
        unique_destinations(rs),
        !routes_map(rs).contains_key(r.destination@),
    ensures
        routes_map(rs.push(r)) == routes_map(rs).insert(r.destination@, r@),
        unique_destinations(rs.push(r)),
{
    let u = rs.push(r);
    assert(u.drop_last() =~= rs);
    assert forall|a: int, b: int|
        0 <= a < u.len() && 0 <= b < u.len() && a != b implies u[a].destination@
            != u[b].destination@ by {
        if a < rs.len() && b < rs.len() {
            assert(u[a] == rs[a] && u[b] == rs[b]);
        } else if a < rs.len() {
            assert(u[a] == rs[a]);
            lemma_routes_map_dom(rs, r.destination@);
        } else {
            assert(u[b] == rs[b]);
            lemma_routes_map_dom(rs, r.destination@);
        }
    }
}

proof fn lemma_routes_map_views(a: Seq<Route>, b: Seq<Route>)
    requires
        a.len() == b.len(),
        forall|k: int| 0 <= k < a.len() ==> a[k]@ == b[k]@,
    ensures
        routes_map(a) == routes_map(b),
    decreases a.len(),
{
    if a.len() > 0 {
        lemma_routes_map_views(a.drop_last(), b.drop_last());
    }
}

/// The routes this device knows, at most one per destination.
pub struct RouteTable {
    self_name: String,
    routes: Vec<Route>,
}

impl View for RouteTable {
    type V = Map<Seq<char>, RouteModel>;

    closed spec fn view(&self) -> Map<Seq<char>, RouteModel> {
        routes_map(self.routes@)
    }
}

impl RouteTable {
    /// The name of the device that owns the table.
    pub closed spec fn owner(&self) -> Seq<char> {
        self.self_name@
    }

    /// One entry per destination, each a well-formed route from the owner to
    /// the destination it is filed under.
    pub closed spec fn wf(&self) -> bool {
        &&& unique_destinations(self.routes@)
        &&& forall|k: int|
            0 <= k < self.routes@.len() ==> (#[trigger] self.routes@[k])@.well_formed_for(
                self.self_name@,
            )
    }

    /// An empty table owned by `self_name`.
    pub fn new(self_name: String) -> (r: RouteTable)
        ensures
            r.wf(),
            r.owner() == self_name@,
            r@ == Map::<Seq<char>, RouteModel>::empty(),
    {
        RouteTable { self_name, routes: Vec::new() }
    }

    /// The name of the device that owns the table.
    pub fn self_name(&self) -> (r: &String)
        ensures
            r@ == self.owner(),
    {
        &self.self_name
    }

    fn find(&self, dest: &String) -> (r: Option<usize>)
        ensures
            match r {
                Some(k) => k < self.routes@.len() && self.routes@[k as int].destination@ == dest@,
                None => forall|k: int|
                    0 <= k < self.routes@.len() ==> #[trigger] self.routes@[k].destination@
                        != dest@,
            },
    {
        let mut k: usize = 0;
        while k < self.routes.len()
            invariant
                0 <= k <= self.routes@.len(),
                forall|j: int| 0 <= j < k ==> #[trigger] self.routes@[j].destination@ != dest@,
            decreases self.routes@.len() - k,
        {
            if self.routes[k].destination == *dest {
                return Some(k);
            }
            k = k + 1;
        }
        None
    }

    /// The route to `dest`, if one is known.
    pub fn lookup_route(&self, dest: &String) -> (r: Option<Route>)
        requires
            self.wf(),
        ensures
            match r {
                Some(x) => self@.contains_key(dest@) && x@ == self@[dest@],
                None => !self@.contains_key(dest@),
            },
    {
        proof {
            lemma_routes_map_dom(self.routes@, dest@);
        }
        match self.find(dest) {
            Some(k) => {
                proof {
                    lemma_routes_map_at(self.routes@, k as int);
                }
                Some(self.routes[k].copy())
            },
            None => None,
        }
    }

    /// Installs `route` for its destination, replacing any route there.
    pub fn upsert_route(&mut self, route: Route)
        requires
            old(self).wf(),
            route@.well_formed_for(old(self).owner()),
        ensures
            final(self).wf(),
            final(self).owner() == old(self).owner(),
            final(self)@ == old(self)@.insert(route@.destination, route@),
    {
        proof {
            lemma_routes_map_dom(self.routes@, route.destination@);
        }
        match self.find(&route.destination) {
            Some(k) => {
                proof {
                    lemma_routes_map_update(self.routes@, k as int, route);
                }
                let ghost before = self.routes@;
                self.routes.set(k, route);
                assert(self.routes@ == before.update(k as int, route));
                assert forall|j: int| 0 <= j < self.routes@.len() implies (
                #[trigger] self.routes@[j])@.well_formed_for(self.self_name@) by {
                    if j != k {
                        assert(self.routes@[j] == before[j]);
                    }
                }
            },
            None => {
                proof {
                    lemma_routes_map_push(self.routes@, route);
                }
                self.routes.push(route);
            },
        }
    }

    /// A copy of every route, one per destination.
    pub fn snapshot_routes(&self) -> (r: Vec<Route>)
        requires
            self.wf(),
        ensures
            routes_map(r@) == self@,
            unique_destinations(r@),
    {
        let mut out: Vec<Route> = Vec::new();
        let mut i: usize = 0;
        while i < self.routes.len()
            invariant
                0 <= i <= self.routes@.len(),
                out@.len() == i,
                forall|k: int| 0 <= k < i ==> (#[trigger] out@[k])@ == self.routes@[k]@,
            decreases self.routes@.len() - i,
        {
            out.push(self.routes[i].copy());
            i = i + 1;
        }
        proof {
            lemma_routes_map_views(out@, self.routes@);
        }
        out
    }

    /// One tick of the route computation over the names of the visible peers.
    /// First every peer gets its direct route. Then, for every ordered pair of
    /// distinct peers, the destination would get a two-hop route through the
    /// intermediate where it has no route, or one of more than two hops, and
    /// the intermediate has a route. After the first step every visible peer
    /// has a one-hop route, so the second step never changes the table: the
    /// result is the old table with the direct routes laid over it. Routes to
    /// destinations that are not visible are kept as they were.
    pub fn compute_routes(&mut self, peers: &Vec<String>)
        requires
            old(self).wf(),
        ensures
            final(self).wf(),
            final(self).owner() == old(self).owner(),
            final(self)@ == after_tick(old(self)@, old(self).owner(), names(peers@)),
    {
        let ghost start = self@;
        let ghost me = self.self_name@;
        let ghost ps = names(peers@);
        let mut i: usize = 0;
        while i < peers.len()
            invariant
                0 <= i <= peers@.len(),
                self.wf(),
                self.owner() == me,
                ps == names(peers@),
                self@ == after_tick(start, me, ps.subrange(0, i as int)),
            decreases peers@.len() - i,
        {
            let route = Route::direct(&self.self_name, &peers[i]);
            assert(route@.path[1] == route@.path.last());
            let ghost before = self@;
            self.upsert_route(route);
            assert(ps[i as int] == peers@[i as int]@);
            assert(self@ == before.insert(peers@[i as int]@, direct_route(me, peers@[i as int]@)));
            assert forall|d: Seq<char>|
                ps.subrange(0, i + 1).contains(d) <==> (ps.subrange(0, i as int).contains(d) || d
                    == peers@[i as int]@) by {
                if ps.subrange(0, i + 1).contains(d) {
                    let k = choose|k: int| 0 <= k < i + 1 && #[trigger] ps.subrange(0, i + 1)[k] == d;
                    if k < i {
                        assert(ps.subrange(0, i as int)[k] == d);
                    }
                }
                if ps.subrange(0, i as int).contains(d) {
                    let k = choose|k: int| 0 <= k < i && #[trigger] ps.subrange(0, i as int)[k] == d;
                    assert(ps.subrange(0, i + 1)[k] == d);
                }
                if d == peers@[i as int]@ {
                    assert(ps.subrange(0, i + 1)[i as int] == d);
                }
            }
            let ghost p = peers@[i as int]@;
            let ghost prev = after_tick(start, me, ps.subrange(0, i as int));
            let ghost target = after_tick(start, me, ps.subrange(0, i + 1));
            assert forall|d: Seq<char>| #[trigger] target.contains_key(d) implies prev.insert(p, direct_route(me, p)).contains_key(d) && target[d] == prev.insert(p, direct_route(me, p))[d] by {
                let s1 = ps.subrange(0, i as int);
                let s2 = ps.subrange(0, i + 1);
                assert(direct_routes(me, s1).contains_key(d) == s1.contains(d));
                assert(direct_routes(me, s2).contains_key(d) == s2.contains(d));
                if s2.contains(d) {
                    assert(direct_routes(me, s2)[d] == direct_route(me, d));
                    if d != p {
                        assert(s1.contains(d));
                        assert(direct_routes(me, s1)[d] == direct_route(me, d));
                    }
                } else {
                    assert(!s1.contains(d));
                }
            }
            assert forall|d: Seq<char>| #[trigger] prev.insert(p, direct_route(me, p)).contains_key(d) implies target.contains_key(d) by {
                let s1 = ps.subrange(0, i as int);
                let s2 = ps.subrange(0, i + 1);
                assert(direct_routes(me, s1).contains_key(d) == s1.contains(d));
                assert(direct_routes(me, s2).contains_key(d) == s2.contains(d));
            }
            assert(target =~= prev.insert(p, direct_route(me, p)));
            i = i + 1;
        }
        assert(ps.subrange(0, peers@.len() as int) =~= ps);
        let ghost direct = self@;
        let n = peers.len();
        let mut a: usize = 0;
        while a < n
            invariant
                0 <= a <= n,
                n == peers@.len(),
                self.wf(),
                self.owner() == me,
                ps == names(peers@),
                self@ == direct,
                direct == after_tick(start, me, ps),
            decreases n - a,
        {
            let mut b: usize = 0;
            while b < n
                invariant
                    0 <= b <= n,
                    0 <= a < n,
                    n == peers@.len(),
                    self.wf(),
                    self.owner() == me,
                    ps == names(peers@),
                    self@ == direct,
                    direct == after_tick(start, me, ps),
                decreases n - b,
            {
                if a != b {
                    let intermediate = &peers[a];
                    let destination = &peers[b];
                    assert(ps[b as int] == destination@);
                    let needs_multihop = match self.lookup_route(destination) {
                        None => true,
                        Some(r) => r.hop_count > 2,
                    };
                    if needs_multihop && self.lookup_route(intermediate).is_some() {
                        let route = Route::through(&self.self_name, intermediate, destination);
                        self.upsert_route(route);
                    }
                }
                b = b + 1;
            }
            a = a + 1;
        }
    }
}

} // verus!
