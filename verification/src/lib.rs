//! A transparent layer-3 TCP load balancer core.
//!
//! The balancer sees raw IPv4 datagrams. A datagram addressed to the service
//! port is redirected to one of the configured backends, chosen round robin
//! when its flow is first seen, and the mapping is remembered so that the
//! backend's replies can be sent back to the client. Only headers are touched:
//! addresses, ports and the two checksums that cover them.
//!
//! Receiving and injecting datagrams is left to the caller, who hands each
//! datagram to [`balancer::LoadBalancer::dispatch`] and does what the returned
//! [`balancer::Action`] says. Header fields and checksums are read, written
//! and computed by `pnet`.

pub mod addr;
pub mod balancer;
pub mod checksum;
pub mod headers;
pub mod laws;
pub mod packet;
pub mod selector;
pub mod table;
