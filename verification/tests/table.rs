use packet_balancer::addr::{Endpoint, Ipv4Address};
use packet_balancer::selector::BackendSelector;
use packet_balancer::table::{Connection, FlowTable};

fn ip(a: u8, b: u8, c: u8, d: u8) -> Ipv4Address {
    Ipv4Address::new(a, b, c, d)
}

fn flow(backend: u8, client: u8, client_port: u16) -> Connection {
    Connection {
        backend: ip(10, 0, 0, backend),
        client: ip(10, 0, 1, client),
        lb: ip(10, 0, 0, 1),
        port_mapper: (client_port, 9000),
    }
}

#[test]
fn an_empty_table_finds_nothing() {
    let table = FlowTable::new();
    assert_eq!(table.len(), 0);
    assert_eq!(table.find_by_backend(ip(10, 0, 0, 2)), None);
    assert_eq!(table.find_by_client_port(51000), None);
    assert!(!table.contains_flow(&flow(2, 9, 51000)));
    assert!(table.records().is_empty());
}

#[test]
fn insert_then_find() {
    let mut table = FlowTable::new();
    table.insert(flow(2, 9, 51000));
    table.insert(flow(3, 10, 51001));
    assert_eq!(table.len(), 2);
    assert_eq!(table.find_by_backend(ip(10, 0, 0, 3)), Some(flow(3, 10, 51001)));
    assert_eq!(table.find_by_backend(ip(10, 0, 0, 2)), Some(flow(2, 9, 51000)));
    assert_eq!(table.find_by_backend(ip(10, 0, 0, 4)), None);
    assert_eq!(table.find_by_client_port(51001), Some(flow(3, 10, 51001)));
    assert_eq!(table.find_by_client_port(51000), Some(flow(2, 9, 51000)));
    assert_eq!(table.find_by_client_port(9000), None);
}

#[test]
fn lookups_return_the_first_inserted() {
    let mut table = FlowTable::new();
    table.insert(flow(2, 9, 51000));
    table.insert(flow(2, 10, 51001));
    table.insert(flow(3, 11, 51000));
    assert_eq!(table.len(), 3);
    assert_eq!(table.find_by_backend(ip(10, 0, 0, 2)), Some(flow(2, 9, 51000)));
    assert_eq!(table.find_by_client_port(51000), Some(flow(2, 9, 51000)));
}

#[test]
fn insert_of_a_tracked_flow_changes_nothing() {
    let mut table = FlowTable::new();
    table.insert(flow(2, 9, 51000));
    table.insert(flow(2, 9, 51000));
    assert_eq!(table.len(), 1);
    // the same client and port with another backend is the same flow
    table.insert(flow(3, 9, 51000));
    assert_eq!(table.records(), vec![flow(2, 9, 51000)]);
    assert!(table.contains_flow(&flow(7, 9, 51000)));
}

#[test]
fn a_flow_is_a_client_and_its_port() {
    let mut table = FlowTable::new();
    table.insert(flow(2, 9, 51000));
    table.insert(flow(2, 9, 51001));
    table.insert(flow(2, 10, 51000));
    assert_eq!(table.records(), vec![flow(2, 9, 51000), flow(2, 9, 51001), flow(2, 10, 51000)]);
    assert!(!table.contains_flow(&flow(2, 10, 51001)));
}

#[test]
fn records_compare_by_all_fields() {
    assert_eq!(flow(2, 9, 51000), flow(2, 9, 51000));
    assert_ne!(flow(2, 9, 51000), flow(3, 9, 51000));
    assert_ne!(flow(2, 9, 51000), flow(2, 8, 51000));
    assert_ne!(flow(2, 9, 51000), flow(2, 9, 51001));
    let mut other = flow(2, 9, 51000);
    other.port_mapper.1 = 9001;
    assert_ne!(flow(2, 9, 51000), other);
    other = flow(2, 9, 51000);
    other.lb = ip(10, 0, 0, 99);
    assert_ne!(flow(2, 9, 51000), other);
}

#[test]
fn a_selector_needs_a_backend() {
    assert!(BackendSelector::new(Vec::new()).is_none());
}

#[test]
fn the_selector_goes_round() {
    let backends = vec![
        Endpoint::new(ip(10, 0, 0, 2), 9000),
        Endpoint::new(ip(10, 0, 0, 3), 9001),
        Endpoint::new(ip(10, 0, 0, 4), 9002),
    ];
    let mut selector = BackendSelector::new(backends.clone()).unwrap();
    assert_eq!(selector.len(), 3);
    for i in 0..10 {
        assert_eq!(selector.next(), backends[i % 3]);
    }
}

#[test]
fn a_single_backend_is_always_next() {
    let only = Endpoint::new(ip(10, 0, 0, 2), 9000);
    let mut selector = BackendSelector::new(vec![only]).unwrap();
    assert_eq!(selector.next(), only);
    assert_eq!(selector.next(), only);
    assert_eq!(selector.next(), only);
}

#[test]
fn the_selector_knows_its_addresses() {
    let selector = BackendSelector::new(vec![
        Endpoint::new(ip(10, 0, 0, 2), 9000),
        Endpoint::new(ip(10, 0, 0, 3), 9001),
    ])
    .unwrap();
    assert!(selector.has_address(ip(10, 0, 0, 2)));
    assert!(selector.has_address(ip(10, 0, 0, 3)));
    assert!(!selector.has_address(ip(10, 0, 0, 4)));
    assert!(!selector.has_address(ip(10, 0, 0, 1)));
}
