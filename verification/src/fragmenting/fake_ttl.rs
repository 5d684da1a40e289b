//! Building the IPv4 packet that carries a fake TCP segment.
//!
//! The segment has the ACK and PSH flags, a window of 64240 and no options;
//! the IPv4 header has no options, identification 0x1234, no fragmentation
//! and the time to live the caller chooses, so that the segment can expire
//! on its way before it reaches the server. Both checksums come from `pnet`.
use vstd::prelude::*;
use crate::fragmenting::sni_parser::be16_at;
use crate::tcp_ip::{
    SocketV4, TcpHeader, be16_bytes, be32_bytes, push_be16, push_be32, push_bytes,
    ipv4_addresses_of, ipv4_payload_of, tcp_header_of, tcp_payload_of, lemma_be16_read_back,
    lemma_be32_read_back,
};

verus! {

/// The TCP checksum that `pnet::packet::tcp::ipv4_checksum` computes for a
/// segment sent from address `source` to address `destination`.
pub uninterp spec fn tcp_checksum_ipv4(segment: Seq<u8>, source: u32, destination: u32) -> u16;

/// The IPv4 header checksum that `pnet::packet::ipv4::checksum` computes for
/// a packet.
pub uninterp spec fn ipv4_header_checksum(packet: Seq<u8>) -> u16;

/// Calls `pnet::packet::tcp::ipv4_checksum` on the segment, read as a
/// `TcpPacket`, with the two addresses. Claimed: the result is a function of
/// the segment's bytes and the two addresses alone. `TcpPacket::new` needs
/// the 20 header bytes; pnet adds the 16-bit words into a `u32`, which stays
/// clear of overflow for segments of at most 131060 bytes.
#[verifier::external_body]
fn tcp_segment_checksum(segment: &[u8], source: u32, destination: u32) -> (r: u16)
    requires
        20 <= segment@.len() <= 131060,
    ensures
        r == tcp_checksum_ipv4(segment@, source, destination),
{
    let packet = pnet::packet::tcp::TcpPacket::new(segment).unwrap();
    pnet::packet::tcp::ipv4_checksum(
        &packet,
        &pnet::util::core_net::Ipv4Addr::from(source),
        &pnet::util::core_net::Ipv4Addr::from(destination),
    )
}

/// Calls `pnet::packet::ipv4::checksum` on the packet, read as an
/// `Ipv4Packet`. Claimed: the result is a function of the packet's bytes
/// alone. `Ipv4Packet::new` needs the 20 header bytes.
#[verifier::external_body]
fn ipv4_packet_checksum(packet: &[u8]) -> (r: u16)
    requires
        packet@.len() >= 20,
    ensures
        r == ipv4_header_checksum(packet@),
{
    let ip = pnet::packet::ipv4::Ipv4Packet::new(packet).unwrap();
    pnet::packet::ipv4::checksum(&ip)
}

/// Window size announced by the fake segment.
pub const FAKE_WINDOW: u16 = 64240;

/// The fake TCP segment with the given checksum field.
pub open spec fn fake_tcp_segment(
    source: SocketV4,
    destination: SocketV4,
    seq: u32,
    ack: u32,
    checksum: u16,
    payload: Seq<u8>,
) -> Seq<u8> {
    be16_bytes(source.port) + be16_bytes(destination.port) + be32_bytes(seq) + be32_bytes(ack)
        + seq![0x50u8, 0x18u8] + be16_bytes(FAKE_WINDOW) + be16_bytes(checksum) + seq![0u8, 0u8]
        + payload
}

/// The IPv4 packet around `segment`, with the given checksum field.
pub open spec fn fake_ipv4_packet(
    source: SocketV4,
    destination: SocketV4,
    ttl: u8,
    checksum: u16,
    segment: Seq<u8>,
) -> Seq<u8> {
    seq![0x45u8, 0u8] + be16_bytes((20 + segment.len()) as u16) + seq![
        0x12u8,
        0x34u8,
        0u8,
        0u8,
        ttl,
        6u8,
    ] + be16_bytes(checksum) + be32_bytes(source.ip) + be32_bytes(destination.ip) + segment
}

/// The fake segment with its checksum filled in.
pub open spec fn checksummed_segment(
    source: SocketV4,
    destination: SocketV4,
    seq: u32,
    ack: u32,
    payload: Seq<u8>,
) -> Seq<u8> {
    fake_tcp_segment(
        source,
        destination,
        seq,
        ack,
        tcp_checksum_ipv4(
            fake_tcp_segment(source, destination, seq, ack, 0, payload),
            source.ip,
            destination.ip,
        ),
        payload,
    )
}

/// The whole fake packet: the checksummed segment inside an IPv4 header
/// whose checksum is filled in as well.
pub open spec fn fake_packet(
    source: SocketV4,
    destination: SocketV4,
    seq: u32,
    ack: u32,
    ttl: u8,
    payload: Seq<u8>,
) -> Seq<u8> {
    let segment = checksummed_segment(source, destination, seq, ack, payload);
    fake_ipv4_packet(
        source,
        destination,
        ttl,
        ipv4_header_checksum(fake_ipv4_packet(source, destination, ttl, 0, segment)),
        segment,
    )
}

/// Largest payload that a fake packet is built with: the whole packet's
/// length, 40 header bytes more, must fit the 16-bit total length field.
/// Beyond it the header would name a shorter packet than the segment it
/// carries, and the segment would no longer fit the payload that the total
/// length leaves.
pub const MAX_FAKE_PAYLOAD: usize = 65495;

fn tcp_segment_bytes(
    source: SocketV4,
    destination: SocketV4,
    seq: u32,
    ack: u32,
    checksum: u16,
    payload: &[u8],
) -> (r: Vec<u8>)
    ensures
        r@ == fake_tcp_segment(source, destination, seq, ack, checksum, payload@),
{
    let mut v: Vec<u8> = Vec::new();
    push_be16(&mut v, source.port);
    push_be16(&mut v, destination.port);
    push_be32(&mut v, seq);
    push_be32(&mut v, ack);
    v.push(0x50);
    v.push(0x18);
    push_be16(&mut v, FAKE_WINDOW);
    push_be16(&mut v, checksum);
    v.push(0);
    v.push(0);
    push_bytes(&mut v, payload);
    assert(v@ =~= fake_tcp_segment(source, destination, seq, ack, checksum, payload@));
    v
}

fn ipv4_packet_bytes(
    source: SocketV4,
    destination: SocketV4,
    ttl: u8,
    checksum: u16,
    segment: &[u8],
) -> (r: Vec<u8>)
    requires
        segment@.len() <= 65515,
    ensures
        r@ == fake_ipv4_packet(source, destination, ttl, checksum, segment@),
{
    let mut v: Vec<u8> = Vec::new();
    v.push(0x45);
    v.push(0);
    push_be16(&mut v, (20 + segment.len()) as u16);
    v.push(0x12);
    v.push(0x34);
    v.push(0);
    v.push(0);
    v.push(ttl);
    v.push(6);
    push_be16(&mut v, checksum);
    push_be32(&mut v, source.ip);
    push_be32(&mut v, destination.ip);
    push_bytes(&mut v, segment);
    assert(v@ =~= fake_ipv4_packet(source, destination, ttl, checksum, segment@));
    v
}

/// Builds the IPv4 packet that carries a TCP segment from `source` to
/// `destination` with the given sequence and acknowledgement numbers, the
/// ACK and PSH flags and `payload`, and whose time to live is `ttl`.
pub fn build_fake_packet(
    source: SocketV4,
    destination: SocketV4,
    seq: u32,
    ack: u32,
    ttl: u8,
    payload: &[u8],
) -> (r: Vec<u8>)
    requires
        payload@.len() <= MAX_FAKE_PAYLOAD,
    ensures
        r@ == fake_packet(source, destination, seq, ack, ttl, payload@),
{
    let blank = tcp_segment_bytes(source, destination, seq, ack, 0, payload);
    let tcp_checksum = tcp_segment_checksum(blank.as_slice(), source.ip, destination.ip);
    let segment = tcp_segment_bytes(source, destination, seq, ack, tcp_checksum, payload);
    let blank_ip = ipv4_packet_bytes(source, destination, ttl, 0, segment.as_slice());
    let ip_checksum = ipv4_packet_checksum(blank_ip.as_slice());
    ipv4_packet_bytes(source, destination, ttl, ip_checksum, segment.as_slice())
}

/// Reading a fake segment back with the TCP readers gives its fields and
/// payload, whatever its checksum field holds.
proof fn lemma_segment_reads_back(
    source: SocketV4,
    destination: SocketV4,
    seq: u32,
    ack: u32,
    checksum: u16,
    payload: Seq<u8>,
)
    ensures
        tcp_header_of(fake_tcp_segment(source, destination, seq, ack, checksum, payload)) == Some(
            TcpHeader {
                source: source.port,
                destination: destination.port,
                sequence: seq,
                acknowledgement: ack,
                flags: 0x18,
            },
        ),
        tcp_payload_of(fake_tcp_segment(source, destination, seq, ack, checksum, payload))
            == Some(payload),
        fake_tcp_segment(source, destination, seq, ack, checksum, payload).len() == 20
            + payload.len(),
{
    let seg = fake_tcp_segment(source, destination, seq, ack, checksum, payload);
    assert(seg.len() == 20 + payload.len());
    assert(seg.subrange(0, 2) =~= be16_bytes(source.port));
    assert(seg.subrange(2, 4) =~= be16_bytes(destination.port));
    assert(seg.subrange(4, 8) =~= be32_bytes(seq));
    assert(seg.subrange(8, 12) =~= be32_bytes(ack));
    lemma_be16_read_back(seg, 0, source.port);
    lemma_be16_read_back(seg, 2, destination.port);
    lemma_be32_read_back(seg, 4, seq);
    lemma_be32_read_back(seg, 8, ack);
    assert(seg[12] == 0x50u8);
    assert(seg[13] == 0x18u8);
    if payload.len() > 0 {
        assert(seg.subrange(20, seg.len() as int) =~= payload);
    } else {
        assert(payload =~= Seq::<u8>::empty());
    }
}

/// Reading an IPv4 packet built around `segment` back gives its addresses
/// and the segment, whatever its checksum field holds.
proof fn lemma_ipv4_reads_back(
    source: SocketV4,
    destination: SocketV4,
    ttl: u8,
    checksum: u16,
    segment: Seq<u8>,
)
    requires
        20 <= segment.len(),
        20 + segment.len() <= 65535,
    ensures
        ipv4_addresses_of(fake_ipv4_packet(source, destination, ttl, checksum, segment)) == Some(
            (source.ip, destination.ip),
        ),
        ipv4_payload_of(fake_ipv4_packet(source, destination, ttl, checksum, segment)) == Some(
            segment,
        ),
        fake_ipv4_packet(source, destination, ttl, checksum, segment)[8] == ttl,
{
    let p = fake_ipv4_packet(source, destination, ttl, checksum, segment);
    assert(p.len() == 20 + segment.len());
    assert(p.subrange(2, 4) =~= be16_bytes((20 + segment.len()) as u16));
    assert(p.subrange(12, 16) =~= be32_bytes(source.ip));
    assert(p.subrange(16, 20) =~= be32_bytes(destination.ip));
    lemma_be16_read_back(p, 2, (20 + segment.len()) as u16);
    lemma_be32_read_back(p, 12, source.ip);
    lemma_be32_read_back(p, 16, destination.ip);
    assert(p[0] == 0x45u8);
    assert(p[8] == ttl);
    assert(p.subrange(20, p.len() as int) =~= segment);
}

/// Reading a fake packet back with the tool's IPv4 and TCP readers gives the
/// addresses, ports, sequence and acknowledgement numbers, flags (ACK and
/// PSH) and payload that it was built from, and its time to live sits in
/// the header's ninth byte.
pub proof fn lemma_fake_packet_reads_back(
    source: SocketV4,
    destination: SocketV4,
    seq: u32,
    ack: u32,
    ttl: u8,
    payload: Seq<u8>,
)
    requires
        payload.len() <= MAX_FAKE_PAYLOAD,
    ensures
        ipv4_addresses_of(fake_packet(source, destination, seq, ack, ttl, payload)) == Some(
            (source.ip, destination.ip),
        ),
        fake_packet(source, destination, seq, ack, ttl, payload)[8] == ttl,
        ipv4_payload_of(fake_packet(source, destination, seq, ack, ttl, payload)) == Some(
            checksummed_segment(source, destination, seq, ack, payload),
        ),
        tcp_header_of(checksummed_segment(source, destination, seq, ack, payload)) == Some(
            TcpHeader {
                source: source.port,
                destination: destination.port,
                sequence: seq,
                acknowledgement: ack,
                flags: 0x18,
            },
        ),
        tcp_payload_of(checksummed_segment(source, destination, seq, ack, payload)) == Some(
            payload,
        ),
{
    let tcp_sum = tcp_checksum_ipv4(
        fake_tcp_segment(source, destination, seq, ack, 0, payload),
        source.ip,
        destination.ip,
    );
    lemma_segment_reads_back(source, destination, seq, ack, tcp_sum, payload);
    let seg = checksummed_segment(source, destination, seq, ack, payload);
    let ip_sum = ipv4_header_checksum(fake_ipv4_packet(source, destination, ttl, 0, seg));
    lemma_ipv4_reads_back(source, destination, ttl, ip_sum, seg);
}

/// The time to live touches the IPv4 header only: two fake packets that
/// differ in it alone have the same length and the same segment, checksum
/// included, and differ at most in the time to live byte and the two header
/// checksum bytes.
pub proof fn lemma_ttl_changes_header_only(
    source: SocketV4,
    destination: SocketV4,
    seq: u32,
    ack: u32,
    ttl1: u8,
    ttl2: u8,
    payload: Seq<u8>,
)
    requires
        payload.len() <= MAX_FAKE_PAYLOAD,
    ensures
        fake_packet(source, destination, seq, ack, ttl1, payload).len() == fake_packet(
            source,
            destination,
            seq,
            ack,
            ttl2,
            payload,
        ).len(),
        fake_packet(source, destination, seq, ack, ttl1, payload).subrange(
            20,
            fake_packet(source, destination, seq, ack, ttl1, payload).len() as int,
        ) == checksummed_segment(source, destination, seq, ack, payload),
        fake_packet(source, destination, seq, ack, ttl2, payload).subrange(
            20,
            fake_packet(source, destination, seq, ack, ttl2, payload).len() as int,
        ) == checksummed_segment(source, destination, seq, ack, payload),
        forall|i: int|
            0 <= i < 20 && i != 8 && i != 10 && i != 11 ==> #[trigger] fake_packet(
                source,
                destination,
                seq,
                ack,
                ttl1,
                payload,
            )[i] == fake_packet(source, destination, seq, ack, ttl2, payload)[i],
{
    let seg = checksummed_segment(source, destination, seq, ack, payload);
    let tcp_sum = tcp_checksum_ipv4(
        fake_tcp_segment(source, destination, seq, ack, 0, payload),
        source.ip,
        destination.ip,
    );
    lemma_segment_reads_back(source, destination, seq, ack, tcp_sum, payload);
    let c1 = ipv4_header_checksum(fake_ipv4_packet(source, destination, ttl1, 0, seg));
    let c2 = ipv4_header_checksum(fake_ipv4_packet(source, destination, ttl2, 0, seg));
    let p1 = fake_ipv4_packet(source, destination, ttl1, c1, seg);
    let p2 = fake_ipv4_packet(source, destination, ttl2, c2, seg);
    assert(p1 == fake_packet(source, destination, seq, ack, ttl1, payload));
    assert(p2 == fake_packet(source, destination, seq, ack, ttl2, payload));
    assert(p1.subrange(20, p1.len() as int) =~= seg);
    assert(p2.subrange(20, p2.len() as int) =~= seg);
    assert forall|i: int| 0 <= i < 20 && i != 8 && i != 10 && i != 11 implies p1[i] == p2[i] by {
        assert(p1.subrange(0, 8) =~= p2.subrange(0, 8));
        assert(p1.subrange(12, 20) =~= p2.subrange(12, 20));
        if i < 8 {
            assert(p1[i] == p1.subrange(0, 8)[i]);
            assert(p2[i] == p2.subrange(0, 8)[i]);
        } else if i >= 12 {
            assert(p1[i] == p1.subrange(12, 20)[i - 12]);
            assert(p2[i] == p2.subrange(12, 20)[i - 12]);
        }
    }
}

/// Both checksums of a fake packet cover what the receiver checks: the TCP
/// checksum field (bytes 36-37) holds pnet's TCP checksum of the whole
/// segment behind the 20-byte IPv4 header, every payload byte included and
/// the checksum field read as zero; the header checksum field (bytes 10-11)
/// holds pnet's IPv4 checksum of the packet with that field read as zero.
pub proof fn lemma_fake_packet_checksums(
    source: SocketV4,
    destination: SocketV4,
    seq: u32,
    ack: u32,
    ttl: u8,
    payload: Seq<u8>,
)
    requires
        payload.len() <= MAX_FAKE_PAYLOAD,
    ensures
        fake_packet(source, destination, seq, ack, ttl, payload).len() == 40 + payload.len(),
        be16_at(fake_packet(source, destination, seq, ack, ttl, payload), 36) == tcp_checksum_ipv4(
            fake_packet(source, destination, seq, ack, ttl, payload).subrange(
                20,
                40 + payload.len() as int,
            ).update(16, 0u8).update(17, 0u8),
            source.ip,
            destination.ip,
        ),
        be16_at(fake_packet(source, destination, seq, ack, ttl, payload), 10)
            == ipv4_header_checksum(
            fake_packet(source, destination, seq, ack, ttl, payload).update(10, 0u8).update(
                11,
                0u8,
            ),
        ),
{
    let blank = fake_tcp_segment(source, destination, seq, ack, 0, payload);
    let tcp_sum = tcp_checksum_ipv4(blank, source.ip, destination.ip);
    lemma_segment_reads_back(source, destination, seq, ack, tcp_sum, payload);
    let seg = checksummed_segment(source, destination, seq, ack, payload);
    assert(seg.update(16, 0u8).update(17, 0u8) =~= blank);
    assert(seg.subrange(16, 18) =~= be16_bytes(tcp_sum));
    lemma_be16_read_back(seg, 16, tcp_sum);
    let c = ipv4_header_checksum(fake_ipv4_packet(source, destination, ttl, 0, seg));
    let p = fake_ipv4_packet(source, destination, ttl, c, seg);
    assert(p == fake_packet(source, destination, seq, ack, ttl, payload));
    assert(p.subrange(20, 40 + payload.len() as int) =~= seg);
    assert(p[36] == seg[16] && p[37] == seg[17]);
    assert(p.update(10, 0u8).update(11, 0u8) =~= fake_ipv4_packet(source, destination, ttl, 0, seg));
    assert(p.subrange(10, 12) =~= be16_bytes(c));
    lemma_be16_read_back(p, 10, c);
}

} // verus!
