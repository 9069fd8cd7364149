use packet_balancer::addr::{Addressing, Endpoint, Ipv4Address};
use packet_balancer::balancer::{Action, LoadBalancer};
use packet_balancer::table::Connection;

fn ip(a: u8, b: u8, c: u8, d: u8) -> Ipv4Address {
    Ipv4Address::new(a, b, c, d)
}

fn two_backends() -> LoadBalancer {
    LoadBalancer::new(
        vec![Endpoint::new(ip(10, 0, 0, 2), 9000), Endpoint::new(ip(10, 0, 0, 3), 9000)],
        8080,
    )
    .unwrap()
}

fn addressed(
    source: Ipv4Address,
    source_port: u16,
    destination: Ipv4Address,
    destination_port: u16,
) -> Addressing {
    Addressing { source, destination, source_port, destination_port }
}

/// The folded one's complement sum of the 16-bit words of `data`, starting
/// from `start`.
fn folded_sum(data: &[u8], start: u32) -> u32 {
    let mut sum = start;
    let mut i = 0;
    while i + 1 < data.len() {
        sum += (data[i] as u32) * 256 + data[i + 1] as u32;
        i += 2;
    }
    if i < data.len() {
        sum += (data[i] as u32) * 256;
    }
    while sum > 0xFFFF {
        sum = (sum >> 16) + (sum & 0xFFFF);
    }
    sum
}

fn checksums_validate(datagram: &[u8]) -> bool {
    let header = (datagram[0] & 0x0F) as usize * 4;
    let total = datagram[2] as usize * 256 + datagram[3] as usize;
    let segment = &datagram[header..total];
    let pseudo = folded_sum(&datagram[12..20], 6 + segment.len() as u32);
    folded_sum(&datagram[..header], 0) == 0xFFFF && folded_sum(segment, pseudo) == 0xFFFF
}

/// A datagram without options that carries `data`, with both checksums set.
fn datagram(to: Addressing, data: &[u8]) -> Vec<u8> {
    let total = 40 + data.len();
    let mut bytes = vec![
        0x45, 0x00, (total / 256) as u8, (total % 256) as u8, 0x1c, 0x46, 0x40, 0x00,
        0x40, 0x06, 0, 0,
        to.source.a, to.source.b, to.source.c, to.source.d,
        to.destination.a, to.destination.b, to.destination.c, to.destination.d,
        (to.source_port / 256) as u8, (to.source_port % 256) as u8,
        (to.destination_port / 256) as u8, (to.destination_port % 256) as u8,
        0, 0, 0, 1, 0, 0, 0, 0, 0x50, 0x18, 0x72, 0x10, 0, 0, 0, 0,
    ];
    bytes.extend_from_slice(data);
    let pseudo = folded_sum(&bytes[12..20], 6 + (total as u32 - 20));
    let tcp = 0xFFFF - folded_sum(&bytes[20..], pseudo);
    bytes[36] = (tcp / 256) as u8;
    bytes[37] = (tcp % 256) as u8;
    let header = 0xFFFF - folded_sum(&bytes[..20], 0);
    bytes[10] = (header / 256) as u8;
    bytes[11] = (header % 256) as u8;
    bytes
}

fn addressing_in(bytes: &[u8]) -> Addressing {
    Addressing {
        source: ip(bytes[12], bytes[13], bytes[14], bytes[15]),
        destination: ip(bytes[16], bytes[17], bytes[18], bytes[19]),
        source_port: bytes[20] as u16 * 256 + bytes[21] as u16,
        destination_port: bytes[22] as u16 * 256 + bytes[23] as u16,
    }
}

#[test]
fn test_datagrams_validate() {
    let bytes = datagram(addressed(ip(10, 0, 0, 9), 51000, ip(10, 0, 0, 1), 8080), b"hello");
    assert_eq!(
        bytes,
        vec![
            0x45, 0x00, 0x00, 0x2d, 0x1c, 0x46, 0x40, 0x00, 0x40, 0x06, 0x0a, 0x7c,
            0x0a, 0x00, 0x00, 0x09, 0x0a, 0x00, 0x00, 0x01, 0xc7, 0x38, 0x1f, 0x90,
            0x00, 0x00, 0x00, 0x01, 0x00, 0x00, 0x00, 0x00, 0x50, 0x18, 0x72, 0x10,
            0xff, 0x11, 0x00, 0x00, 0x68, 0x65, 0x6c, 0x6c, 0x6f,
        ]
    );
    assert!(checksums_validate(&bytes));
}

#[test]
fn no_backends_is_refused() {
    assert!(LoadBalancer::new(Vec::new(), 8080).is_none());
}

#[test]
fn a_new_balancer_tracks_nothing() {
    let lb = two_backends();
    assert_eq!(lb.service_port(), 8080);
    assert!(lb.flows().is_empty());
}

#[test]
fn scenario_two_clients_and_a_reply() {
    let mut lb = two_backends();

    let mut first = datagram(addressed(ip(10, 0, 0, 9), 51000, ip(10, 0, 0, 1), 8080), b"one");
    let to_first = addressed(ip(10, 0, 0, 1), 8080, ip(10, 0, 0, 2), 9000);
    assert_eq!(lb.dispatch(&mut first), Action::ToBackend(to_first));
    assert_eq!(addressing_in(&first), to_first);
    assert!(checksums_validate(&first));

    let mut second = datagram(addressed(ip(10, 0, 0, 10), 51001, ip(10, 0, 0, 1), 8080), b"two");
    let to_second = addressed(ip(10, 0, 0, 1), 8080, ip(10, 0, 0, 3), 9000);
    assert_eq!(lb.dispatch(&mut second), Action::ToBackend(to_second));
    assert_eq!(addressing_in(&second), to_second);
    assert!(checksums_validate(&second));

    let mut reply = datagram(addressed(ip(10, 0, 0, 2), 9000, ip(10, 0, 0, 1), 8080), b"three");
    let to_client = addressed(ip(10, 0, 0, 1), 8080, ip(10, 0, 0, 9), 51000);
    assert_eq!(lb.dispatch(&mut reply), Action::ToClient(to_client));
    assert_eq!(addressing_in(&reply), to_client);
    assert!(checksums_validate(&reply));

    assert_eq!(
        lb.flows(),
        vec![
            Connection {
                backend: ip(10, 0, 0, 2),
                client: ip(10, 0, 0, 9),
                lb: ip(10, 0, 0, 1),
                port_mapper: (51000, 9000),
            },
            Connection {
                backend: ip(10, 0, 0, 3),
                client: ip(10, 0, 0, 10),
                lb: ip(10, 0, 0, 1),
                port_mapper: (51001, 9000),
            },
        ]
    );
}

#[test]
fn scenario_as_decisions() {
    let mut lb = two_backends();
    assert_eq!(
        lb.decide(addressed(ip(10, 0, 0, 9), 51000, ip(10, 0, 0, 1), 8080)),
        Action::ToBackend(addressed(ip(10, 0, 0, 1), 8080, ip(10, 0, 0, 2), 9000))
    );
    assert_eq!(
        lb.decide(addressed(ip(10, 0, 0, 10), 51001, ip(10, 0, 0, 1), 8080)),
        Action::ToBackend(addressed(ip(10, 0, 0, 1), 8080, ip(10, 0, 0, 3), 9000))
    );
    assert_eq!(
        lb.decide(addressed(ip(10, 0, 0, 2), 9000, ip(10, 0, 0, 1), 8080)),
        Action::ToClient(addressed(ip(10, 0, 0, 1), 8080, ip(10, 0, 0, 9), 51000))
    );
}

#[test]
fn dispatch_rewrites_to_the_expected_bytes() {
    let mut lb = two_backends();
    let mut bytes = datagram(addressed(ip(10, 0, 0, 9), 51000, ip(10, 0, 0, 1), 8080), b"hello");
    lb.dispatch(&mut bytes);
    assert_eq!(bytes, datagram(addressed(ip(10, 0, 0, 1), 8080, ip(10, 0, 0, 2), 9000), b"hello"));
}

#[test]
fn round_trip_restores_the_client_facing_addressing() {
    let mut lb = LoadBalancer::new(vec![Endpoint::new(ip(172, 16, 0, 5), 9001)], 443).unwrap();
    let client = ip(203, 0, 113, 7);
    let balancer = ip(198, 51, 100, 1);

    let mut forward = datagram(addressed(client, 40123, balancer, 443), b"request");
    let action = lb.dispatch(&mut forward);
    assert_eq!(action, Action::ToBackend(addressed(balancer, 443, ip(172, 16, 0, 5), 9001)));

    // the backend answers what it received, with source and destination swapped
    // in the address; the balancer tells replies by the service port
    let mut back = datagram(addressed(ip(172, 16, 0, 5), 9001, balancer, 443), b"response");
    let action = lb.dispatch(&mut back);
    assert_eq!(action, Action::ToClient(addressed(balancer, 443, client, 40123)));
    assert_eq!(addressing_in(&back), addressed(balancer, 443, client, 40123));
    assert_eq!(&back[40..], b"response");
}

#[test]
fn a_flow_keeps_its_backend() {
    let mut lb = two_backends();
    let ours = addressed(ip(10, 0, 0, 9), 51000, ip(10, 0, 0, 1), 8080);
    let first = lb.decide(ours);
    assert_eq!(first, Action::ToBackend(addressed(ip(10, 0, 0, 1), 8080, ip(10, 0, 0, 2), 9000)));
    for port in 52000..52005 {
        lb.decide(addressed(ip(10, 0, 0, 77), port, ip(10, 0, 0, 1), 8080));
        assert_eq!(lb.decide(ours), first);
    }
    lb.decide(addressed(ip(10, 0, 0, 2), 9000, ip(10, 0, 0, 1), 8080));
    lb.decide(addressed(ip(10, 0, 0, 9), 51000, ip(10, 0, 0, 1), 22));
    assert_eq!(lb.decide(ours), first);
    assert_eq!(lb.flows().len(), 6);
}

#[test]
fn a_continuing_flow_draws_no_backend() {
    let mut lb = two_backends();
    let ours = addressed(ip(10, 0, 0, 9), 51000, ip(10, 0, 0, 1), 8080);
    lb.decide(ours);
    lb.decide(ours);
    lb.decide(ours);
    // the next new flow gets the second backend, not the fourth choice
    assert_eq!(
        lb.decide(addressed(ip(10, 0, 0, 10), 51001, ip(10, 0, 0, 1), 8080)),
        Action::ToBackend(addressed(ip(10, 0, 0, 1), 8080, ip(10, 0, 0, 3), 9000))
    );
    assert_eq!(lb.flows().len(), 2);
}

#[test]
fn new_flows_take_the_backends_in_turn() {
    let backends = vec![
        Endpoint::new(ip(10, 0, 0, 2), 9000),
        Endpoint::new(ip(10, 0, 0, 3), 9001),
        Endpoint::new(ip(10, 0, 0, 4), 9002),
    ];
    let mut lb = LoadBalancer::new(backends.clone(), 8080).unwrap();
    for i in 0..7u16 {
        let action = lb.decide(addressed(ip(10, 0, 1, i as u8), 50000 + i, ip(10, 0, 0, 1), 8080));
        let expected = backends[i as usize % 3];
        assert_eq!(
            action,
            Action::ToBackend(addressed(ip(10, 0, 0, 1), 8080, expected.ip, expected.port))
        );
    }
    let flows = lb.flows();
    assert_eq!(flows.len(), 7);
    for (i, flow) in flows.iter().enumerate() {
        assert_eq!(flow.backend, backends[i % 3].ip);
        assert_eq!(flow.port_mapper, (50000 + i as u16, backends[i % 3].port));
    }
}

#[test]
fn new_flows_take_turns_whatever_comes_between() {
    let mut lb = two_backends();
    let balancer = ip(10, 0, 0, 1);
    lb.decide(addressed(ip(10, 0, 0, 9), 51000, balancer, 8080));
    lb.decide(addressed(ip(10, 0, 0, 9), 51000, balancer, 8080));
    lb.decide(addressed(ip(10, 0, 0, 2), 9000, balancer, 8080));
    lb.decide(addressed(ip(10, 0, 0, 50), 1234, balancer, 25));
    lb.decide(addressed(ip(10, 0, 0, 10), 51001, balancer, 8080));
    lb.decide(addressed(ip(10, 0, 0, 3), 9000, balancer, 8080));
    lb.decide(addressed(ip(10, 0, 0, 11), 51002, balancer, 8080));
    let backends: Vec<Ipv4Address> = lb.flows().iter().map(|c| c.backend).collect();
    assert_eq!(backends, vec![ip(10, 0, 0, 2), ip(10, 0, 0, 3), ip(10, 0, 0, 2)]);
}

#[test]
fn other_ports_are_left_alone() {
    let mut lb = two_backends();
    lb.decide(addressed(ip(10, 0, 0, 9), 51000, ip(10, 0, 0, 1), 8080));
    let flows = lb.flows();
    for port in [0u16, 22, 8079, 8081, 9000, 65535] {
        let before = datagram(addressed(ip(10, 0, 0, 9), 51000, ip(10, 0, 0, 1), port), b"data");
        let mut bytes = before.clone();
        assert_eq!(lb.dispatch(&mut bytes), Action::Ignore);
        assert_eq!(bytes, before);
        // not from a backend either
        let before = datagram(addressed(ip(10, 0, 0, 2), 9000, ip(10, 0, 0, 1), port), b"data");
        let mut bytes = before.clone();
        assert_eq!(lb.dispatch(&mut bytes), Action::Ignore);
        assert_eq!(bytes, before);
    }
    assert_eq!(lb.flows(), flows);
    // the cursor did not move: the next new flow gets the second backend
    assert_eq!(
        lb.decide(addressed(ip(10, 0, 0, 10), 51001, ip(10, 0, 0, 1), 8080)),
        Action::ToBackend(addressed(ip(10, 0, 0, 1), 8080, ip(10, 0, 0, 3), 9000))
    );
}

#[test]
fn malformed_datagrams_are_ignored() {
    let mut lb = two_backends();
    let good = datagram(addressed(ip(10, 0, 0, 9), 51000, ip(10, 0, 0, 1), 8080), b"data");

    let mut empty: Vec<u8> = Vec::new();
    assert_eq!(lb.dispatch(&mut empty), Action::Ignore);
    assert!(empty.is_empty());

    let mut short = good[..30].to_vec();
    assert_eq!(lb.dispatch(&mut short), Action::Ignore);
    assert_eq!(short, good[..30].to_vec());

    let mut v6 = good.clone();
    v6[0] = 0x65;
    let before = v6.clone();
    assert_eq!(lb.dispatch(&mut v6), Action::Ignore);
    assert_eq!(v6, before);

    let mut udp = good.clone();
    udp[9] = 17;
    let before = udp.clone();
    assert_eq!(lb.dispatch(&mut udp), Action::Ignore);
    assert_eq!(udp, before);

    assert!(lb.flows().is_empty());
}

#[test]
fn a_reply_without_a_flow_is_untracked() {
    let mut lb = two_backends();
    let before = datagram(addressed(ip(10, 0, 0, 3), 9000, ip(10, 0, 0, 1), 8080), b"stray");
    let mut bytes = before.clone();
    assert_eq!(lb.dispatch(&mut bytes), Action::Untracked);
    assert_eq!(bytes, before);
    assert!(lb.flows().is_empty());

    // a flow on the other backend does not help
    lb.decide(addressed(ip(10, 0, 0, 9), 51000, ip(10, 0, 0, 1), 8080));
    assert_eq!(
        lb.decide(addressed(ip(10, 0, 0, 3), 9000, ip(10, 0, 0, 1), 8080)),
        Action::Untracked
    );
}

#[test]
fn a_backend_is_told_by_its_address_alone() {
    let mut lb = two_backends();
    lb.decide(addressed(ip(10, 0, 0, 9), 51000, ip(10, 0, 0, 1), 8080));
    // from the backend's address, but from another port than the configured one
    assert_eq!(
        lb.decide(addressed(ip(10, 0, 0, 2), 12345, ip(10, 0, 0, 1), 8080)),
        Action::ToClient(addressed(ip(10, 0, 0, 1), 8080, ip(10, 0, 0, 9), 51000))
    );
}

#[test]
fn a_reply_goes_to_the_first_flow_of_its_backend() {
    let mut lb = LoadBalancer::new(vec![Endpoint::new(ip(10, 0, 0, 2), 9000)], 8080).unwrap();
    lb.decide(addressed(ip(10, 0, 0, 9), 51000, ip(10, 0, 0, 1), 8080));
    lb.decide(addressed(ip(10, 0, 0, 10), 51001, ip(10, 0, 0, 1), 8080));
    assert_eq!(
        lb.decide(addressed(ip(10, 0, 0, 2), 9000, ip(10, 0, 0, 1), 8080)),
        Action::ToClient(addressed(ip(10, 0, 0, 1), 8080, ip(10, 0, 0, 9), 51000))
    );
}

#[test]
fn a_source_port_in_use_resolves_to_its_first_flow() {
    let mut lb = two_backends();
    lb.decide(addressed(ip(10, 0, 0, 9), 51000, ip(10, 0, 0, 1), 8080));
    // another client, the same source port: the record of the first is used
    assert_eq!(
        lb.decide(addressed(ip(10, 0, 0, 10), 51000, ip(10, 0, 0, 1), 8080)),
        Action::ToBackend(addressed(ip(10, 0, 0, 1), 8080, ip(10, 0, 0, 2), 9000))
    );
    assert_eq!(lb.flows().len(), 1);
}

#[test]
fn the_balancer_address_is_taken_from_the_packet() {
    let mut lb = two_backends();
    assert_eq!(
        lb.decide(addressed(ip(10, 0, 0, 9), 51000, ip(192, 0, 2, 44), 8080)),
        Action::ToBackend(addressed(ip(192, 0, 2, 44), 8080, ip(10, 0, 0, 2), 9000))
    );
    assert_eq!(lb.flows()[0].lb, ip(192, 0, 2, 44));
    assert_eq!(
        lb.decide(addressed(ip(10, 0, 0, 2), 9000, ip(10, 0, 0, 1), 8080)),
        Action::ToClient(addressed(ip(192, 0, 2, 44), 8080, ip(10, 0, 0, 9), 51000))
    );
}
