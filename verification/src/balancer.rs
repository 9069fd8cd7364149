//! The dispatch logic: what the balancer does with each datagram.
//!
//! A datagram is classified, in this order, as not for the service, as the
//! reply of a backend, or as the packet of a client. The decision is a
//! function from the balancer's state and the addressing of the packet to the
//! next state and an action; `dispatch` takes it on the bytes of a datagram
//! and rewrites them accordingly. Receiving and injecting is the caller's.

use vstd::prelude::*;
use crate::addr::{Addressing, Endpoint};
use crate::packet::{
    addressing_of, header_verifies, in_rewritten_field, rewritten, segment_verifies, well_formed,
    Packet,
};
use crate::selector::{is_backend, position, BackendSelector};
use crate::table::{
    first_by_backend, first_by_client_port, lemma_first_where, unique_flows, Connection,
    FlowTable, Lookup,
};

verus! {

/// What is to be done with a datagram.
#[derive(Clone, Copy, Debug, PartialEq, Eq, Structural)]
pub enum Action {
    /// Not for this service, or not TCP over IPv4: nothing is to be done.
    Ignore,
    /// A reply from a backend address for which no flow is recorded: it
    /// cannot be forwarded anywhere.
    Untracked,
    /// A client's packet: inject it, rewritten to this addressing, toward the
    /// backend that is its new destination.
    ToBackend(Addressing),
    /// A backend's reply: inject it, rewritten to this addressing, toward the
    /// client that is its new destination.
    ToClient(Addressing),
}

/// The balancer as a value: the configuration, the selector's cursor and the
/// flow records.
pub struct State {
    pub service_port: u16,
    pub backends: Seq<Endpoint>,
    pub cursor: int,
    pub flows: Seq<Connection>,
}

impl State {
    /// There is a backend, the cursor stands on one, and no two records
    /// stand for the same flow.
    pub open spec fn wf(self) -> bool {
        &&& 0 <= self.cursor < self.backends.len()
        &&& unique_flows(self.flows)
    }
}

/// The record made for a new flow that the packet `t` opens: the backend
/// under the cursor, the client that sent the packet, and the address that
/// the client sent it to as the balancer's own.
pub open spec fn new_flow(s: State, t: Addressing) -> Connection {
    Connection {
        backend: s.backends[s.cursor].ip,
        client: t.source,
        lb: t.destination,
        port_mapper: (t.source_port, s.backends[s.cursor].port),
    }
}

/// The addressing of a client's packet on its way to the backend of `c`.
pub open spec fn toward_backend(service_port: u16, c: Connection) -> Addressing {
    Addressing {
        source: c.lb,
        destination: c.backend,
        source_port: service_port,
        destination_port: c.port_mapper.1,
    }
}

/// The addressing of a backend's reply on its way to the client of `c`.
pub open spec fn toward_client(service_port: u16, c: Connection) -> Addressing {
    Addressing {
        source: c.lb,
        destination: c.client,
        source_port: service_port,
        destination_port: c.port_mapper.0,
    }
}

/// One decision: the state after a packet addressed as `t`, and what is to
/// be done with the packet.
pub open spec fn step(s: State, t: Addressing) -> (State, Action) {
    if t.destination_port != s.service_port {
        (s, Action::Ignore)
    } else if is_backend(s.backends, t.source) {
        match first_by_backend(s.flows, t.source) {
            Some(c) => (s, Action::ToClient(toward_client(s.service_port, c))),
            None => (s, Action::Untracked),
        }
    } else {
        match first_by_client_port(s.flows, t.source_port) {
            Some(c) => (s, Action::ToBackend(toward_backend(s.service_port, c))),
            None => (
                State {
                    cursor: position(s.backends.len() as int, s.cursor, 1),
                    flows: s.flows.push(new_flow(s, t)),
                    ..s
                },
                Action::ToBackend(toward_backend(s.service_port, new_flow(s, t))),
            ),
        }
    }
}

/// The balancer: the service port, the selector over the configured backends
/// and the flow table.
pub struct LoadBalancer {
    service_port: u16,
    selector: BackendSelector,
    table: FlowTable,
}

impl View for LoadBalancer {
    type V = State;

    closed spec fn view(&self) -> State {
        State {
            service_port: self.service_port,
            backends: self.selector.backends(),
            cursor: self.selector.cursor(),
            flows: self.table@,
        }
    }
}

impl LoadBalancer {
    /// The state is well formed.
    pub open spec fn wf(&self) -> bool {
        self@.wf()
    }

    /// A balancer for `service_port` over `backends`, with no flow recorded
    /// and the first backend next; none for an empty list of backends.
    pub fn new(backends: Vec<Endpoint>, service_port: u16) -> (made: Option<LoadBalancer>)
        ensures
            made is Some <==> backends@.len() > 0,
            made matches Some(lb) ==> lb.wf() && lb@ == (State {
                service_port,
                backends: backends@,
                cursor: 0,
                flows: Seq::empty(),
            }),
    {
        match BackendSelector::new(backends) {
            Some(selector) => Some(
                LoadBalancer { service_port, selector, table: FlowTable::new() },
            ),
            None => None,
        }
    }

    /// The port that the service is offered on.
    pub fn service_port(&self) -> (port: u16)
        ensures
            port == self@.service_port,
    {
        self.service_port
    }

    /// The flow records, oldest first.
    pub fn flows(&self) -> (all: Vec<Connection>)
        ensures
            all@ == self@.flows,
    {
        self.table.records()
    }

    /// Decides on a packet addressed as `t`, and records the flow that it
    /// opens, if it opens one.
    pub fn decide(&mut self, t: Addressing) -> (action: Action)
        requires
            old(self).wf(),
        ensures
            final(self).wf(),
            (final(self)@, action) == step(old(self)@, t),
    {
        if t.destination_port != self.service_port {
            return Action::Ignore;
        }
        if self.selector.has_address(t.source) {
            return match self.table.find_by_backend(t.source) {
                Some(c) => Action::ToClient(
                    Addressing {
                        source: c.lb,
                        destination: c.client,
                        source_port: self.service_port,
                        destination_port: c.port_mapper.0,
                    },
                ),
                None => Action::Untracked,
            };
        }
        let c = match self.table.find_by_client_port(t.source_port) {
            Some(c) => c,
            None => {
                let backend = self.selector.next();
                Connection {
                    backend: backend.ip,
                    client: t.source,
                    lb: t.destination,
                    port_mapper: (t.source_port, backend.port),
                }
            },
        };
        proof {
            // a record that was found is tracked; a new one is not, as no
            // record has its client port
            lemma_first_where(old(self).table@, Lookup::ClientPort(t.source_port));
        }
        self.table.insert(c);
        Action::ToBackend(
            Addressing {
                source: c.lb,
                destination: c.backend,
                source_port: self.service_port,
                destination_port: c.port_mapper.1,
            },
        )
    }

    /// Takes one received datagram through the balancer. A datagram that is
    /// to be injected is rewritten in place; any other is left as it is.
    pub fn dispatch(&mut self, datagram: &mut Vec<u8>) -> (action: Action)
        requires
            old(self).wf(),
        ensures
            final(self).wf(),
            !well_formed(old(datagram)@) ==> action == Action::Ignore && final(self)@ == old(self)@,
            well_formed(old(datagram)@) ==> (final(self)@, action) == step(
                old(self)@,
                addressing_of(old(datagram)@),
            ),
            match action {
                Action::ToBackend(to) | Action::ToClient(to) => {
                    &&& final(datagram)@ == rewritten(old(datagram)@, to)
                    &&& well_formed(final(datagram)@)
                    &&& addressing_of(final(datagram)@) == to
                    &&& header_verifies(final(datagram)@)
                    &&& segment_verifies(final(datagram)@)
                    &&& forall|i: int|
                        0 <= i < old(datagram)@.len() && !in_rewritten_field(old(datagram)@, i)
                            ==> final(datagram)@[i] == old(datagram)@[i]
                },
                _ => final(datagram)@ == old(datagram)@,
            },
            well_formed(old(datagram)@) && addressing_of(old(datagram)@).destination_port != old(
                self,
            )@.service_port ==> action == Action::Ignore && final(self)@ == old(self)@
                && final(datagram)@ == old(datagram)@,
    {
        let copy = datagram.clone();
        assert(copy@ == datagram@);
        match Packet::parse(copy) {
            None => Action::Ignore,
            Some(mut packet) => {
                let action = self.decide(packet.addressing());
                match action {
                    Action::ToBackend(to) | Action::ToClient(to) => {
                        packet.rewrite(
                            to.source,
                            to.destination,
                            to.source_port,
                            to.destination_port,
                        );
                        *datagram = packet.into_bytes();
                    },
                    _ => {},
                }
                action
            },
        }
    }
}

} // verus!
