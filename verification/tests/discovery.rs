use dray::discovery::{
    list_contains, window_closed, window_wait, ServerDirectory, DISCOVERY_CAP_MS,
    DISCOVERY_QUIET_MS,
};
use dray::error::FabricError;
use dray::messages::{Endpoint, ServerDiscoveryMessage, ServerType};

fn announce(role: ServerType, port: u16) -> ServerDiscoveryMessage {
    ServerDiscoveryMessage { server_type: role, socket_addr: Endpoint { host: 0x7f00_0001, port } }
}

#[test]
fn two_workers_announcing_together_are_listed_once_each() {
    let a = announce(ServerType::Object, 8000);
    let b = announce(ServerType::Object, 8001);
    let orders = [vec![a, b, a, b], vec![a, a, b, b], vec![b, a, b, a, a]];
    for order in orders.iter() {
        let mut directory = ServerDirectory::new();
        let mut added = 0;
        for msg in order.iter() {
            if directory.observe(*msg) {
                added += 1;
            }
        }
        assert_eq!(added, 2);
        let objects = directory.servers(ServerType::Object);
        assert_eq!(objects.len(), 2);
        assert_eq!(objects.iter().filter(|e| **e == a.socket_addr).count(), 1);
        assert_eq!(objects.iter().filter(|e| **e == b.socket_addr).count(), 1);
        assert!(directory.servers(ServerType::Ray).is_empty());
    }
}

#[test]
fn workers_are_listed_in_the_order_they_were_first_heard() {
    let mut directory = ServerDirectory::new();
    assert!(directory.observe(announce(ServerType::Ray, 8002)));
    assert!(directory.observe(announce(ServerType::Object, 8001)));
    assert!(directory.observe(announce(ServerType::Ray, 8000)));
    assert!(!directory.observe(announce(ServerType::Ray, 8002)));
    let rays: Vec<u16> = directory.servers(ServerType::Ray).iter().map(|e| e.port).collect();
    assert_eq!(rays, vec![8002, 8000]);
    let objects: Vec<u16> = directory.servers(ServerType::Object).iter().map(|e| e.port).collect();
    assert_eq!(objects, vec![8001]);
}

#[test]
fn one_endpoint_may_serve_in_both_roles() {
    let mut directory = ServerDirectory::new();
    assert!(directory.observe(announce(ServerType::Ray, 8000)));
    assert!(directory.observe(announce(ServerType::Object, 8000)));
    assert_eq!(directory.servers(ServerType::Ray).len(), 1);
    assert_eq!(directory.servers(ServerType::Object).len(), 1);
}

#[test]
fn a_frozen_roster_drops_late_announcements() {
    let mut directory = ServerDirectory::new();
    assert!(directory.observe(announce(ServerType::Ray, 8000)));
    assert!(directory.observe(announce(ServerType::Object, 8001)));
    assert!(!directory.is_frozen());
    assert_eq!(directory.freeze(), Ok(()));
    assert!(directory.is_frozen());
    assert!(!directory.observe(announce(ServerType::Object, 8002)));
    assert!(!directory.observe(announce(ServerType::Ray, 8003)));
    assert_eq!(directory.servers(ServerType::Object).len(), 1);
    assert_eq!(directory.servers(ServerType::Ray).len(), 1);
}

#[test]
fn a_roster_without_a_role_fails_with_no_workers() {
    let mut none = ServerDirectory::new();
    assert_eq!(none.freeze(), Err(FabricError::NoWorkers));
    assert!(none.is_frozen());

    let mut rays_only = ServerDirectory::new();
    rays_only.observe(announce(ServerType::Ray, 8000));
    assert_eq!(rays_only.freeze(), Err(FabricError::NoWorkers));

    let mut objects_only = ServerDirectory::new();
    objects_only.observe(announce(ServerType::Object, 8000));
    assert_eq!(objects_only.freeze(), Err(FabricError::NoWorkers));
}

#[test]
fn the_window_closes_after_five_quiet_seconds_or_ten_in_all() {
    assert_eq!(DISCOVERY_QUIET_MS, 5000);
    assert_eq!(DISCOVERY_CAP_MS, 10000);
    assert!(!window_closed(0, 0));
    assert!(!window_closed(4999, 4999));
    assert!(window_closed(5000, 5000));
    assert!(!window_closed(9999, 10));
    assert!(window_closed(10000, 10));
    assert!(window_closed(3, 5000));
    assert!(window_closed(u64::MAX, 0));
    assert!(window_closed(0, u64::MAX));
}

#[test]
fn the_wait_is_the_shorter_of_what_is_left() {
    assert_eq!(window_wait(0, 0), 5000);
    assert_eq!(window_wait(1000, 1000), 4000);
    assert_eq!(window_wait(7000, 1000), 3000);
    assert_eq!(window_wait(7000, 4000), 1000);
    assert_eq!(window_wait(9999, 0), 1);
    assert_eq!(window_wait(6000, 4999), 1);
    assert_eq!(window_wait(10000, 0), 0);
    assert_eq!(window_wait(0, 5000), 0);
    assert_eq!(window_wait(u64::MAX, u64::MAX), 0);
}

#[test]
fn list_contains_finds_what_is_there() {
    let list = vec![Endpoint { host: 1, port: 1 }, Endpoint { host: 2, port: 2 }];
    assert!(list_contains(&list, Endpoint { host: 2, port: 2 }));
    assert!(!list_contains(&list, Endpoint { host: 2, port: 1 }));
    assert!(!list_contains(&Vec::new(), Endpoint { host: 2, port: 1 }));
}
