//! The header fields of IPv4 and TCP that the balancer reads and writes.
//!
//! The layout is stated once, as spec functions on the bytes of a packet. The
//! executable functions of this module hand the bytes to `pnet`, which reads
//! and writes the fields and computes the checksums; their contracts say over
//! the layout what each call does, and are taken on trust.

use vstd::prelude::*;
use crate::addr::Ipv4Address;
use crate::checksum::{complement, pseudo_header_sum, with_word, word, word_sum};
use pnet::packet::Packet;
use pnet::packet::ipv4::{Ipv4Packet, MutableIpv4Packet};
use pnet::packet::tcp::{MutableTcpPacket, TcpPacket};

verus! {

/// Bytes in an IPv4 header without options, and in a TCP header without options.
pub const MIN_HEADER: usize = 20;

/// The IP protocol number of TCP.
pub const PROTOCOL_TCP: u8 = 6;

/// Byte offset of the header checksum in an IPv4 header.
pub const IPV4_CHECKSUM: usize = 10;

/// Byte offset of the source address in an IPv4 header.
pub const IPV4_SOURCE: usize = 12;

/// Byte offset of the destination address in an IPv4 header.
pub const IPV4_DESTINATION: usize = 16;

/// Byte offset of the source port in a TCP header.
pub const TCP_SOURCE: usize = 0;

/// Byte offset of the destination port in a TCP header.
pub const TCP_DESTINATION: usize = 2;

/// Byte offset of the checksum in a TCP header.
pub const TCP_CHECKSUM: usize = 16;

/// The address held in the four bytes of `p` from `at` on.
pub open spec fn address_at(p: Seq<u8>, at: int) -> Ipv4Address {
    Ipv4Address { a: p[at], b: p[at + 1], c: p[at + 2], d: p[at + 3] }
}

/// `p` with the four bytes from `at` on replaced by `addr`.
pub open spec fn with_address(p: Seq<u8>, at: int, addr: Ipv4Address) -> Seq<u8> {
    p.update(at, addr.a).update(at + 1, addr.b).update(at + 2, addr.c).update(at + 3, addr.d)
}

/// The big-endian 16-bit number held in the two bytes of `p` from `at` on.
pub open spec fn word_at(p: Seq<u8>, at: int) -> u16 {
    word(p[at], p[at + 1]) as u16
}

/// The IP version: the high half of the first byte.
pub open spec fn version(p: Seq<u8>) -> int {
    p[0] as int / 16
}

/// The length of the IPv4 header in bytes: the low half of the first byte
/// counts 32-bit words.
pub open spec fn header_len(p: Seq<u8>) -> int {
    (p[0] as int % 16) * 4
}

/// The length of the whole datagram, as its header gives it.
pub open spec fn total_len(p: Seq<u8>) -> int {
    word(p[2], p[3])
}

/// The header lies within the datagram, and the datagram within the buffer.
pub open spec fn framed(p: Seq<u8>) -> bool {
    MIN_HEADER <= header_len(p) <= total_len(p) <= p.len()
}

/// The IPv4 header of a framed datagram.
pub open spec fn header_of(p: Seq<u8>) -> Seq<u8> {
    p.subrange(0, header_len(p))
}

/// What a framed datagram carries behind its header.
pub open spec fn payload_of(p: Seq<u8>) -> Seq<u8> {
    p.subrange(header_len(p), total_len(p))
}

/// `p` with `data` written over the start of its payload.
pub open spec fn with_payload(p: Seq<u8>, data: Seq<u8>) -> Seq<u8> {
    p.subrange(0, header_len(p)) + data + p.subrange(header_len(p) + data.len(), p.len() as int)
}

/// The header checksum that belongs in a framed datagram: computed over the
/// header with the checksum field taken as zero.
pub open spec fn header_checksum(p: Seq<u8>) -> u16 {
    complement(word_sum(with_word(header_of(p), IPV4_CHECKSUM as int, 0)))
}

/// The checksum that belongs in a TCP segment sent from `source` to
/// `destination`: computed over the pseudo-header and the segment, with the
/// checksum field taken as zero.
pub open spec fn segment_checksum(
    segment: Seq<u8>,
    source: Ipv4Address,
    destination: Ipv4Address,
) -> u16 {
    complement(
        pseudo_header_sum(source, destination, PROTOCOL_TCP as int, segment.len() as int)
            + word_sum(with_word(segment, TCP_CHECKSUM as int, 0)),
    )
}

/// `Ipv4Packet::get_source` of pnet: the address in bytes 12 to 15 of the
/// header.
#[verifier::external_body]
pub(crate) fn ipv4_get_source(packet: &Vec<u8>) -> (addr: Ipv4Address)
    requires
        packet@.len() >= MIN_HEADER,
    ensures
        addr == address_at(packet@, IPV4_SOURCE as int),
{
    let o = Ipv4Packet::new(packet.as_slice()).unwrap().get_source().octets();
    Ipv4Address { a: o[0], b: o[1], c: o[2], d: o[3] }
}

/// `Ipv4Packet::get_destination` of pnet: the address in bytes 16 to 19 of
/// the header.
#[verifier::external_body]
pub(crate) fn ipv4_get_destination(packet: &Vec<u8>) -> (addr: Ipv4Address)
    requires
        packet@.len() >= MIN_HEADER,
    ensures
        addr == address_at(packet@, IPV4_DESTINATION as int),
{
    let o = Ipv4Packet::new(packet.as_slice()).unwrap().get_destination().octets();
    Ipv4Address { a: o[0], b: o[1], c: o[2], d: o[3] }
}

/// `MutableIpv4Packet::set_source` of pnet: writes the address into bytes 12
/// to 15 and nothing else.
#[verifier::external_body]
pub(crate) fn ipv4_set_source(packet: &mut Vec<u8>, addr: Ipv4Address)
    requires
        old(packet)@.len() >= MIN_HEADER,
    ensures
        final(packet)@ == with_address(old(packet)@, IPV4_SOURCE as int, addr),
{
    let mut view = MutableIpv4Packet::new(packet.as_mut_slice()).unwrap();
    view.set_source([addr.a, addr.b, addr.c, addr.d].into());
}

/// `MutableIpv4Packet::set_destination` of pnet: writes the address into
/// bytes 16 to 19 and nothing else.
#[verifier::external_body]
pub(crate) fn ipv4_set_destination(packet: &mut Vec<u8>, addr: Ipv4Address)
    requires
        old(packet)@.len() >= MIN_HEADER,
    ensures
        final(packet)@ == with_address(old(packet)@, IPV4_DESTINATION as int, addr),
{
    let mut view = MutableIpv4Packet::new(packet.as_mut_slice()).unwrap();
    view.set_destination([addr.a, addr.b, addr.c, addr.d].into());
}

/// `MutableIpv4Packet::set_checksum` of pnet: writes the number big-endian
/// into bytes 10 and 11 and nothing else.
#[verifier::external_body]
pub(crate) fn ipv4_set_checksum(packet: &mut Vec<u8>, sum: u16)
    requires
        old(packet)@.len() >= MIN_HEADER,
    ensures
        final(packet)@ == with_word(old(packet)@, IPV4_CHECKSUM as int, sum),
{
    MutableIpv4Packet::new(packet.as_mut_slice()).unwrap().set_checksum(sum);
}

/// `Packet::payload` of pnet on an `Ipv4Packet`: a copy of the bytes between
/// the end of the header and the end of the datagram. pnet clamps both ends
/// to the buffer; on a framed datagram nothing is clamped.
#[verifier::external_body]
pub(crate) fn ipv4_payload(packet: &Vec<u8>) -> (payload: Vec<u8>)
    requires
        framed(packet@),
    ensures
        payload@ == payload_of(packet@),
{
    Ipv4Packet::new(packet.as_slice()).unwrap().payload().to_vec()
}

/// `MutableIpv4Packet::set_payload` of pnet: copies `data` into the buffer
/// from the end of the header on and leaves the rest. pnet panics on data
/// longer than the payload that the header announces.
#[verifier::external_body]
pub(crate) fn ipv4_set_payload(packet: &mut Vec<u8>, data: &Vec<u8>)
    requires
        framed(old(packet)@),
        data@.len() <= total_len(old(packet)@) - header_len(old(packet)@),
    ensures
        final(packet)@ == with_payload(old(packet)@, data@),
{
    MutableIpv4Packet::new(packet.as_mut_slice()).unwrap().set_payload(data.as_slice());
}

/// `ipv4::checksum` of pnet: the Internet checksum of the header, the
/// checksum field regarded as zero. pnet clamps the header length to the
/// buffer; on a framed datagram nothing is clamped.
#[verifier::external_body]
pub(crate) fn ipv4_checksum(packet: &Vec<u8>) -> (sum: u16)
    requires
        framed(packet@),
    ensures
        sum == header_checksum(packet@),
{
    pnet::packet::ipv4::checksum(&Ipv4Packet::new(packet.as_slice()).unwrap())
}

/// `TcpPacket::get_source` of pnet: the big-endian number in bytes 0 and 1.
#[verifier::external_body]
pub(crate) fn tcp_get_source(segment: &Vec<u8>) -> (port: u16)
    requires
        segment@.len() >= MIN_HEADER,
    ensures
        port == word_at(segment@, TCP_SOURCE as int),
{
    TcpPacket::new(segment.as_slice()).unwrap().get_source()
}

/// `TcpPacket::get_destination` of pnet: the big-endian number in bytes 2
/// and 3.
#[verifier::external_body]
pub(crate) fn tcp_get_destination(segment: &Vec<u8>) -> (port: u16)
    requires
        segment@.len() >= MIN_HEADER,
    ensures
        port == word_at(segment@, TCP_DESTINATION as int),
{
    TcpPacket::new(segment.as_slice()).unwrap().get_destination()
}

/// `MutableTcpPacket::set_source` of pnet: writes the number big-endian into
/// bytes 0 and 1 and nothing else.
#[verifier::external_body]
pub(crate) fn tcp_set_source(segment: &mut Vec<u8>, port: u16)
    requires
        old(segment)@.len() >= MIN_HEADER,
    ensures
        final(segment)@ == with_word(old(segment)@, TCP_SOURCE as int, port),
{
    MutableTcpPacket::new(segment.as_mut_slice()).unwrap().set_source(port);
}

/// `MutableTcpPacket::set_destination` of pnet: writes the number big-endian
/// into bytes 2 and 3 and nothing else.
#[verifier::external_body]
pub(crate) fn tcp_set_destination(segment: &mut Vec<u8>, port: u16)
    requires
        old(segment)@.len() >= MIN_HEADER,
    ensures
        final(segment)@ == with_word(old(segment)@, TCP_DESTINATION as int, port),
{
    MutableTcpPacket::new(segment.as_mut_slice()).unwrap().set_destination(port);
}

/// `MutableTcpPacket::set_checksum` of pnet: writes the number big-endian
/// into bytes 16 and 17 and nothing else.
#[verifier::external_body]
pub(crate) fn tcp_set_checksum(segment: &mut Vec<u8>, sum: u16)
    requires
        old(segment)@.len() >= MIN_HEADER,
    ensures
        final(segment)@ == with_word(old(segment)@, TCP_CHECKSUM as int, sum),
{
    MutableTcpPacket::new(segment.as_mut_slice()).unwrap().set_checksum(sum);
}

/// `tcp::ipv4_checksum` of pnet: the Internet checksum of the pseudo-header
/// of the two addresses and of the whole segment, the checksum field regarded
/// as zero. pnet adds up in 32 bits, which a segment of at most `0xFFFF`
/// bytes cannot overflow.
#[verifier::external_body]
pub(crate) fn tcp_checksum(
    segment: &Vec<u8>,
    source: Ipv4Address,
    destination: Ipv4Address,
) -> (sum: u16)
    requires
        MIN_HEADER <= segment@.len() <= 0xFFFF,
    ensures
        sum == segment_checksum(segment@, source, destination),
{
    let view = TcpPacket::new(segment.as_slice()).unwrap();
    pnet::packet::tcp::ipv4_checksum(
        &view,
        &[source.a, source.b, source.c, source.d].into(),
        &[destination.a, destination.b, destination.c, destination.d].into(),
    )
}

} // verus!
