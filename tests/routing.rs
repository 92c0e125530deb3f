use fileshare_core::routing::{Route, RouteTable};

fn s(x: &str) -> String {
    x.to_string()
}

#[test]
fn one_tick_installs_direct_routes() {
    let mut t = RouteTable::new(s("me"));
    t.compute_routes(&vec![s("A"), s("B")]);
    for p in ["A", "B"] {
        let r = t.lookup_route(&s(p)).unwrap();
        assert_eq!(r.destination, p);
        assert_eq!(r.next_hop, p);
        assert_eq!(r.hop_count, 1);
        assert_eq!(r.path, vec![s("me"), s(p)]);
    }
    assert!(t.lookup_route(&s("C")).is_none());
    assert_eq!(t.snapshot_routes().len(), 2);
}

#[test]
fn tick_keeps_routes_to_peers_no_longer_visible() {
    let mut t = RouteTable::new(s("me"));
    t.upsert_route(Route::through(&s("me"), &s("A"), &s("C")));
    t.compute_routes(&vec![s("A"), s("B")]);
    let c = t.lookup_route(&s("C")).unwrap();
    assert_eq!(c.hop_count, 2);
    assert_eq!(c.next_hop, "A");
    assert_eq!(c.path, vec![s("me"), s("A"), s("C")]);
    t.compute_routes(&vec![]);
    assert_eq!(t.lookup_route(&s("A")).unwrap().hop_count, 1);
    assert_eq!(t.snapshot_routes().len(), 3);
}

#[test]
fn tick_replaces_a_longer_route_with_the_direct_one() {
    let mut t = RouteTable::new(s("me"));
    t.upsert_route(Route::through(&s("me"), &s("B"), &s("A")));
    t.compute_routes(&vec![s("A"), s("B")]);
    let a = t.lookup_route(&s("A")).unwrap();
    assert_eq!(a.hop_count, 1);
    assert_eq!(a.next_hop, "A");
}

#[test]
fn upsert_overwrites_by_destination() {
    let mut t = RouteTable::new(s("me"));
    t.upsert_route(Route::direct(&s("me"), &s("Z")));
    t.upsert_route(Route::through(&s("me"), &s("Y"), &s("Z")));
    let all = t.snapshot_routes();
    assert_eq!(all.len(), 1);
    assert_eq!(all[0].next_hop, "Y");
    assert_eq!(t.self_name(), "me");
}

#[test]
fn repeated_names_in_a_tick_give_one_route() {
    let mut t = RouteTable::new(s("me"));
    t.compute_routes(&vec![s("A"), s("A"), s("B"), s("A")]);
    assert_eq!(t.snapshot_routes().len(), 2);
}
