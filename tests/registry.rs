use fileshare_core::registry::{has_prefix, DeviceRegistry};
use fileshare_core::routing::{Route, RouteTable};

fn s(x: &str) -> String {
    x.to_string()
}

#[test]
fn own_advertisements_are_ignored() {
    let mut r = DeviceRegistry::new();
    assert!(!r.on_peer_resolved(&s("laptop"), s("laptop.local."), s("10.0.0.2"), 8888, s("i1"), s("10:00:00")));
    assert!(r.snapshot_peers().is_empty());
    assert!(r.on_peer_resolved(&s("laptop"), s("desk.local."), s("10.0.0.3"), 8888, s("i2"), s("10:00:01")));
    let peers = r.snapshot_peers();
    assert_eq!(peers.len(), 1);
    assert_eq!(peers[0].name, "desk.local.");
    assert_eq!(peers[0].status, "Available");
    assert_eq!(peers[0].device_type, "desktop");
    assert_eq!(peers[0].hop_count, 1);
    assert_eq!(peers[0].next_hop, None);
    assert!(!r.handle_resolved(&s("laptop"), s("laptop-2"), s("10.0.0.9"), 1));
    assert!(r.handle_resolved(&s("laptop"), s("phone"), s("10.0.0.9"), 1));
    assert_eq!(r.snapshot_peers().len(), 2);
}

#[test]
fn same_name_refreshes_the_peer() {
    let mut r = DeviceRegistry::new();
    r.on_peer_resolved(&s("me"), s("a"), s("1.1.1.1"), 1, s("id1"), s("t1"));
    r.on_peer_resolved(&s("me"), s("a"), s("2.2.2.2"), 2, s("id2"), s("t2"));
    let peers = r.snapshot_peers();
    assert_eq!(peers.len(), 1);
    assert_eq!(peers[0].ip, "2.2.2.2");
    assert_eq!(peers[0].last_seen, "t2");
}

#[test]
fn removal_is_by_name() {
    let mut r = DeviceRegistry::new();
    r.on_peer_resolved(&s("me"), s("a"), s("1"), 1, s("1"), s("t"));
    r.on_peer_resolved(&s("me"), s("b"), s("2"), 2, s("2"), s("t"));
    r.on_peer_resolved(&s("me"), s("a"), s("3"), 3, s("3"), s("t"));
    r.remove_named(&s("a"));
    assert_eq!(r.peer_names(), vec![s("b")]);
    r.remove_named(&s("zzz"));
    assert_eq!(r.peer_names(), vec![s("b")]);
}

#[test]
fn listing_shows_route_hops() {
    let mut r = DeviceRegistry::new();
    r.on_peer_resolved(&s("me"), s("a"), s("1"), 1, s("1"), s("t"));
    r.on_peer_resolved(&s("me"), s("c"), s("3"), 3, s("3"), s("t"));
    r.on_peer_resolved(&s("me"), s("d"), s("4"), 4, s("4"), s("t"));
    let mut t = RouteTable::new(s("me"));
    t.upsert_route(Route::direct(&s("me"), &s("a")));
    t.upsert_route(Route::through(&s("me"), &s("a"), &s("c")));
    let list = r.devices_with_routes(&t);
    assert_eq!((list[0].hop_count, list[0].next_hop.clone()), (1, None));
    assert_eq!((list[1].hop_count, list[1].next_hop.clone()), (2, Some(s("a"))));
    assert_eq!((list[2].hop_count, list[2].next_hop.clone()), (1, None));
}

#[test]
fn address_lookup_by_name() {
    let mut r = DeviceRegistry::new();
    r.on_peer_resolved(&s("me"), s("w"), s("10.0.0.7"), 9000, s("1"), s("t"));
    assert_eq!(r.address_of(&s("w")), Some((s("10.0.0.7"), 9000)));
    assert_eq!(r.address_of(&s("q")), None);
}

#[test]
fn prefix_check() {
    assert!(has_prefix("laptop.local.", "laptop"));
    assert!(has_prefix("abc", ""));
    assert!(!has_prefix("lap", "laptop"));
    assert!(!has_prefix("desk", "laptop"));
    assert!(has_prefix("héllo", "hé"));
}

#[test]
fn re_advertised_name_keeps_one_peer() {
    let mut r = DeviceRegistry::new();
    assert!(r.handle_resolved(&s("me"), s("desk"), s("10.0.0.3"), 1));
    assert!(r.handle_resolved(&s("me"), s("desk"), s("10.0.0.4"), 2));
    assert!(r.handle_resolved(&s("me"), s("phone"), s("10.0.0.5"), 3));
    let peers = r.snapshot_peers();
    assert_eq!(peers.len(), 2);
    assert_eq!(r.address_of(&s("desk")), Some((s("10.0.0.4"), 2)));
}
