//! A received datagram, and the header rewriter.
//!
//! A packet is held as two owned buffers, as the balancer works on it: the
//! IPv4 datagram and the TCP segment carved from its payload. Rewriting
//! changes addresses and ports, recomputes both checksums and puts the
//! segment back into the datagram.

use vstd::prelude::*;
use crate::addr::{Addressing, Ipv4Address};
use crate::checksum::{
    lemma_sealed_verifies, pseudo_header_sum, verifies, with_word, word, word_sum,
};
use crate::headers::{
    address_at, framed, header_checksum, header_len, header_of, ipv4_checksum,
    ipv4_get_destination, ipv4_get_source, ipv4_payload, ipv4_set_checksum,
    ipv4_set_destination, ipv4_set_payload, ipv4_set_source, payload_of, segment_checksum,
    tcp_checksum, tcp_get_destination, tcp_get_source, tcp_set_checksum, tcp_set_destination,
    tcp_set_source, total_len, version, with_address, with_payload, word_at, IPV4_CHECKSUM,
    IPV4_DESTINATION, IPV4_SOURCE, MIN_HEADER, PROTOCOL_TCP, TCP_CHECKSUM, TCP_DESTINATION,
    TCP_SOURCE,
};

verus! {

/// The bytes parse as TCP over IPv4: version 4, protocol TCP, a header of at
/// least five words that lies within the datagram, the datagram within the
/// buffer, and room behind the header for a TCP header without options.
pub open spec fn well_formed(p: Seq<u8>) -> bool {
    &&& p.len() >= MIN_HEADER
    &&& version(p) == 4
    &&& p[9] == PROTOCOL_TCP
    &&& framed(p)
    &&& total_len(p) - header_len(p) >= MIN_HEADER
}

/// Who sent a well-formed datagram and to whom: the addresses of its IPv4
/// header and the ports of its TCP header.
pub open spec fn addressing_of(p: Seq<u8>) -> Addressing {
    Addressing {
        source: address_at(p, IPV4_SOURCE as int),
        destination: address_at(p, IPV4_DESTINATION as int),
        source_port: word_at(payload_of(p), TCP_SOURCE as int),
        destination_port: word_at(payload_of(p), TCP_DESTINATION as int),
    }
}

/// The header checksum of a datagram validates: the words of the header, the
/// checksum among them, fold to all ones.
pub open spec fn header_verifies(p: Seq<u8>) -> bool {
    verifies(word_sum(header_of(p)))
}

/// The TCP checksum of a datagram validates against the addresses that the
/// datagram itself carries: the words of pseudo-header and segment, the
/// checksum among them, fold to all ones.
pub open spec fn segment_verifies(p: Seq<u8>) -> bool {
    verifies(
        pseudo_header_sum(
            address_at(p, IPV4_SOURCE as int),
            address_at(p, IPV4_DESTINATION as int),
            PROTOCOL_TCP as int,
            payload_of(p).len() as int,
        ) + word_sum(payload_of(p)),
    )
}

/// The segment of a rewritten packet: both ports replaced, then the checksum
/// for the new addresses written into its field.
pub open spec fn readdressed_segment(segment: Seq<u8>, to: Addressing) -> Seq<u8> {
    let ported = with_word(
        with_word(segment, TCP_SOURCE as int, to.source_port),
        TCP_DESTINATION as int,
        to.destination_port,
    );
    with_word(ported, TCP_CHECKSUM as int, segment_checksum(ported, to.source, to.destination))
}

/// The datagram of a rewritten packet: both addresses replaced, the
/// readdressed segment as payload, then the header checksum written into
/// its field.
pub open spec fn rewritten(p: Seq<u8>, to: Addressing) -> Seq<u8> {
    let addressed = with_address(
        with_address(p, IPV4_SOURCE as int, to.source),
        IPV4_DESTINATION as int,
        to.destination,
    );
    let embedded = with_payload(addressed, readdressed_segment(payload_of(p), to));
    with_word(embedded, IPV4_CHECKSUM as int, header_checksum(embedded))
}

/// Whether rewriting may change the byte at `i`: the header checksum and the
/// addresses of the IPv4 header, the ports and the checksum of the TCP header.
pub open spec fn in_rewritten_field(p: Seq<u8>, i: int) -> bool {
    let tcp = header_len(p);
    ||| IPV4_CHECKSUM <= i < IPV4_CHECKSUM + 2
    ||| IPV4_SOURCE <= i < IPV4_DESTINATION + 4
    ||| tcp + TCP_SOURCE <= i < tcp + TCP_DESTINATION + 2
    ||| tcp + TCP_CHECKSUM <= i < tcp + TCP_CHECKSUM + 2
}

/// Rewriting gives a well-formed datagram that carries the new addressing,
/// whose two checksums validate, and that differs from the old one in the
/// rewritten fields only.
pub proof fn lemma_rewritten(p: Seq<u8>, to: Addressing)
    requires
        well_formed(p),
    ensures
        well_formed(rewritten(p, to)),
        rewritten(p, to).len() == p.len(),
        addressing_of(rewritten(p, to)) == to,
        payload_of(rewritten(p, to)) == readdressed_segment(payload_of(p), to),
        header_verifies(rewritten(p, to)),
        segment_verifies(rewritten(p, to)),
        forall|i: int|
            0 <= i < p.len() && !in_rewritten_field(p, i) ==> rewritten(p, to)[i] == p[i],
{
    let hl = header_len(p);
    let tl = total_len(p);
    let addressed = with_address(
        with_address(p, IPV4_SOURCE as int, to.source),
        IPV4_DESTINATION as int,
        to.destination,
    );
    let old_segment = payload_of(p);
    let ported = with_word(
        with_word(old_segment, TCP_SOURCE as int, to.source_port),
        TCP_DESTINATION as int,
        to.destination_port,
    );
    let sum = segment_checksum(ported, to.source, to.destination);
    let segment = with_word(ported, TCP_CHECKSUM as int, sum);
    assert(segment == readdressed_segment(old_segment, to));
    assert(segment.len() == tl - hl);
    let embedded = with_payload(addressed, segment);
    assert(embedded.len() == p.len());
    assert(forall|i: int| 0 <= i < hl ==> embedded[i] == addressed[i]);
    assert(forall|i: int| hl <= i < tl ==> embedded[i] == segment[i - hl]);
    assert(forall|i: int| tl <= i < p.len() ==> embedded[i] == p[i]);
    let out = with_word(embedded, IPV4_CHECKSUM as int, header_checksum(embedded));
    assert(out == rewritten(p, to));
    assert(header_len(out) == hl && total_len(out) == tl);
    assert(payload_of(out) =~= segment);
    assert(well_formed(out));

    // the addressing
    lemma_word_of_bytes(to.source_port);
    lemma_word_of_bytes(to.destination_port);
    assert(addressing_of(out) == to);

    // the header checksum
    let header = header_of(embedded);
    assert(header_of(out) =~= with_word(
        header,
        IPV4_CHECKSUM as int,
        header_checksum(embedded),
    ));
    lemma_sealed_verifies(header, IPV4_CHECKSUM as int, 0);

    // the TCP checksum
    let pseudo = pseudo_header_sum(
        to.source,
        to.destination,
        PROTOCOL_TCP as int,
        ported.len() as int,
    );
    lemma_sealed_verifies(ported, TCP_CHECKSUM as int, pseudo);
    assert(address_at(out, IPV4_SOURCE as int) == to.source);
    assert(address_at(out, IPV4_DESTINATION as int) == to.destination);

    // the bytes left alone
    assert forall|i: int| 0 <= i < p.len() && !in_rewritten_field(p, i) implies out[i] == p[i] by {
        if hl <= i < tl {
            assert(out[i] == segment[i - hl]);
            assert(old_segment[i - hl] == p[i]);
        }
    }
}

/// A 16-bit number is the word of its high and low byte.
pub proof fn lemma_word_of_bytes(w: u16)
    ensures
        word((w / 256) as u8, (w % 256) as u8) == w,
{
}

/// One datagram in the balancer's hands: the IPv4 datagram and the TCP
/// segment that it carries, each in a buffer of its own.
pub struct Packet {
    ip: Vec<u8>,
    tcp: Vec<u8>,
}

impl View for Packet {
    type V = Seq<u8>;

    /// The bytes of the datagram.
    closed spec fn view(&self) -> Seq<u8> {
        self.ip@
    }
}

impl Packet {
    /// The datagram is well formed, and the segment is its payload.
    pub closed spec fn wf(&self) -> bool {
        &&& well_formed(self.ip@)
        &&& self.tcp@ == payload_of(self.ip@)
    }

    /// Takes the bytes of a datagram as a packet, if they parse as TCP over
    /// IPv4, and carves the TCP segment from its payload.
    pub fn parse(bytes: Vec<u8>) -> (parsed: Option<Packet>)
        ensures
            parsed is Some <==> well_formed(bytes@),
            parsed matches Some(packet) ==> packet.wf() && packet@ == bytes@,
    {
        if !is_well_formed(&bytes) {
            return None;
        }
        let tcp = ipv4_payload(&bytes);
        Some(Packet { ip: bytes, tcp })
    }

    /// Who sent the packet and to whom.
    pub fn addressing(&self) -> (a: Addressing)
        requires
            self.wf(),
        ensures
            a == addressing_of(self@),
    {
        Addressing {
            source: ipv4_get_source(&self.ip),
            destination: ipv4_get_destination(&self.ip),
            source_port: tcp_get_source(&self.tcp),
            destination_port: tcp_get_destination(&self.tcp),
        }
    }

    /// The header rewriter. Sets the addresses of the datagram and the ports
    /// of the segment, recomputes the TCP checksum over the new addresses,
    /// puts the segment back as the payload of the datagram and recomputes
    /// the header checksum.
    pub fn rewrite(
        &mut self,
        new_src_ip: Ipv4Address,
        new_dst_ip: Ipv4Address,
        new_src_port: u16,
        new_dst_port: u16,
    )
        requires
            old(self).wf(),
        ensures
            final(self).wf(),
            final(self)@ == rewritten(
                old(self)@,
                (Addressing {
                    source: new_src_ip,
                    destination: new_dst_ip,
                    source_port: new_src_port,
                    destination_port: new_dst_port,
                }),
            ),
            addressing_of(final(self)@) == (Addressing {
                source: new_src_ip,
                destination: new_dst_ip,
                source_port: new_src_port,
                destination_port: new_dst_port,
            }),
            header_verifies(final(self)@),
            segment_verifies(final(self)@),
            final(self)@.len() == old(self)@.len(),
            forall|i: int|
                0 <= i < old(self)@.len() && !in_rewritten_field(old(self)@, i) ==> final(self)@[i]
                    == old(self)@[i],
    {
        let ghost to = Addressing {
            source: new_src_ip,
            destination: new_dst_ip,
            source_port: new_src_port,
            destination_port: new_dst_port,
        };
        let ghost before = self.ip@;
        ipv4_set_source(&mut self.ip, new_src_ip);
        ipv4_set_destination(&mut self.ip, new_dst_ip);
        let ghost addressed = self.ip@;
        assert(addressed[0] == before[0] && addressed[2] == before[2] && addressed[3]
            == before[3]);
        tcp_set_source(&mut self.tcp, new_src_port);
        tcp_set_destination(&mut self.tcp, new_dst_port);
        let sum: u16 = tcp_checksum(&self.tcp, new_src_ip, new_dst_ip);
        tcp_set_checksum(&mut self.tcp, sum);
        assert(self.tcp@ == readdressed_segment(payload_of(before), to));
        ipv4_set_payload(&mut self.ip, &self.tcp);
        let ghost embedded = self.ip@;
        assert(embedded[0] == before[0] && embedded[2] == before[2] && embedded[3] == before[3]);
        let header_sum: u16 = ipv4_checksum(&self.ip);
        ipv4_set_checksum(&mut self.ip, header_sum);
        assert(self.ip@ == rewritten(before, to));
        proof {
            lemma_rewritten(before, to);
        }
    }

    /// The bytes of the datagram.
    pub fn as_bytes(&self) -> (bytes: &Vec<u8>)
        ensures
            bytes@ == self@,
    {
        &self.ip
    }

    /// Gives the datagram back as bytes.
    pub fn into_bytes(self) -> (bytes: Vec<u8>)
        ensures
            bytes@ == self@,
    {
        self.ip
    }
}

/// Whether the bytes parse as TCP over IPv4.
pub fn is_well_formed(bytes: &Vec<u8>) -> (ok: bool)
    ensures
        ok == well_formed(bytes@),
{
    if bytes.len() < MIN_HEADER {
        return false;
    }
    let first: u8 = bytes[0];
    let header: usize = (first % 16) as usize * 4;
    let total: usize = bytes[2] as usize * 256 + bytes[3] as usize;
    first / 16 == 4 && bytes[9] == PROTOCOL_TCP && header >= MIN_HEADER && total >= header
        + MIN_HEADER && total <= bytes.len()
}

} // verus!
