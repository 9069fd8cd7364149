//! Addresses, endpoints and the addressing of a TCP-over-IPv4 packet.

use vstd::prelude::*;

verus! {

/// An IPv4 address, held as its four octets in network order.
#[derive(Clone, Copy, Debug, PartialEq, Eq, Structural, Hash)]
pub struct Ipv4Address {
    pub a: u8,
    pub b: u8,
    pub c: u8,
    pub d: u8,
}

impl Ipv4Address {
    /// The address `a.b.c.d`.
    pub fn new(a: u8, b: u8, c: u8, d: u8) -> (addr: Ipv4Address)
        ensures
            addr == (Ipv4Address { a, b, c, d }),
    {
        Ipv4Address { a, b, c, d }
    }

    /// The four octets as they stand on the wire.
    pub open spec fn octets(self) -> Seq<u8> {
        seq![self.a, self.b, self.c, self.d]
    }
}

/// A backend: the address and TCP port that traffic is redirected to.
#[derive(Clone, Copy, Debug, PartialEq, Eq, Structural, Hash)]
pub struct Endpoint {
    pub ip: Ipv4Address,
    pub port: u16,
}

impl Endpoint {
    pub fn new(ip: Ipv4Address, port: u16) -> (e: Endpoint)
        ensures
            e == (Endpoint { ip, port }),
    {
        Endpoint { ip, port }
    }
}

/// The addressing of one packet: who sent it and to whom.
#[derive(Clone, Copy, Debug, PartialEq, Eq, Structural, Hash)]
pub struct Addressing {
    pub source: Ipv4Address,
    pub destination: Ipv4Address,
    pub source_port: u16,
    pub destination_port: u16,
}

} // verus!
