//! Reading and writing the IPv4 and TCP header fields that the tool uses.
//!
//! The readers follow the layout that `pnet`'s `Ipv4Packet` and `TcpPacket`
//! give these headers: a packet is accepted once it holds the 20 bytes of the
//! fixed header, and its payload is cut out as those types cut it.
use vstd::prelude::*;
use crate::fragmenting::sni_parser::be16_at;

verus! {

/// An IPv4 address and a port: the address as the 32-bit number whose
/// big-endian bytes are the address's four octets.
#[derive(Clone, Copy, Debug, PartialEq, Eq, Structural)]
pub struct SocketV4 {
    pub ip: u32,
    pub port: u16,
}

/// The big-endian 32-bit number stored at `s[i] .. s[i + 3]`.
pub open spec fn be32_at(s: Seq<u8>, i: int) -> int {
    s[i] as int * 16777216 + s[i + 1] as int * 65536 + s[i + 2] as int * 256 + s[i + 3] as int
}

/// The two big-endian bytes of `v`.
pub open spec fn be16_bytes(v: u16) -> Seq<u8> {
    seq![(v / 256) as u8, (v % 256) as u8]
}

/// The four big-endian bytes of `v`.
pub open spec fn be32_bytes(v: u32) -> Seq<u8> {
    seq![(v / 16777216) as u8, ((v / 65536) % 256) as u8, ((v / 256) % 256) as u8, (v % 256) as u8]
}

/// The fields of a TCP header that the tool reads.
#[derive(Clone, Copy, Debug, PartialEq, Eq, Structural)]
pub struct TcpHeader {
    pub source: u16,
    pub destination: u16,
    pub sequence: u32,
    pub acknowledgement: u32,
    pub flags: u8,
}

/// The header fields of a TCP segment: `None` when it is shorter than the
/// 20-byte fixed header.
pub open spec fn tcp_header_of(seg: Seq<u8>) -> Option<TcpHeader> {
    if seg.len() < 20 {
        None
    } else {
        Some(TcpHeader {
            source: be16_at(seg, 0) as u16,
            destination: be16_at(seg, 2) as u16,
            sequence: be32_at(seg, 4) as u32,
            acknowledgement: be32_at(seg, 8) as u32,
            flags: seg[13],
        })
    }
}

/// Offset of a TCP segment's payload: 20 bytes, or the data offset field's
/// count of 32-bit words when it names more than 5.
pub open spec fn tcp_payload_start(seg: Seq<u8>) -> int {
    let data_offset = seg[12] as int / 16;
    if data_offset > 5 {
        data_offset * 4
    } else {
        20
    }
}

/// The payload of a TCP segment: `None` when it is shorter than 20 bytes,
/// empty when it ends before the payload offset, else the bytes from that
/// offset to the end.
pub open spec fn tcp_payload_of(seg: Seq<u8>) -> Option<Seq<u8>> {
    if seg.len() < 20 {
        None
    } else if seg.len() <= tcp_payload_start(seg) {
        Some(Seq::empty())
    } else {
        Some(seg.subrange(tcp_payload_start(seg), seg.len() as int))
    }
}

/// Header length in bytes named by an IPv4 header's header length field.
pub open spec fn ipv4_header_bytes(p: Seq<u8>) -> int {
    (p[0] as int % 16) * 4
}

/// Offset of an IPv4 packet's payload: the header length, but at least 20.
pub open spec fn ipv4_payload_start(p: Seq<u8>) -> int {
    if ipv4_header_bytes(p) > 20 {
        ipv4_header_bytes(p)
    } else {
        20
    }
}

/// End of an IPv4 packet's payload: the payload offset plus what the total
/// length field leaves after the header, cut at the end of the buffer.
pub open spec fn ipv4_payload_end(p: Seq<u8>) -> int {
    let total = be16_at(p, 2);
    let payload_len = if total > ipv4_header_bytes(p) {
        total - ipv4_header_bytes(p)
    } else {
        0
    };
    if ipv4_payload_start(p) + payload_len < p.len() {
        ipv4_payload_start(p) + payload_len
    } else {
        p.len() as int
    }
}

/// The payload of an IPv4 packet: `None` when it is shorter than 20 bytes,
/// empty when it ends before the payload offset.
pub open spec fn ipv4_payload_of(p: Seq<u8>) -> Option<Seq<u8>> {
    if p.len() < 20 {
        None
    } else if p.len() <= ipv4_payload_start(p) {
        Some(Seq::empty())
    } else {
        Some(p.subrange(ipv4_payload_start(p), ipv4_payload_end(p)))
    }
}

/// Source and destination addresses of an IPv4 packet, `None` when it is
/// shorter than 20 bytes.
pub open spec fn ipv4_addresses_of(p: Seq<u8>) -> Option<(u32, u32)> {
    if p.len() < 20 {
        None
    } else {
        Some((be32_at(p, 12) as u32, be32_at(p, 16) as u32))
    }
}

fn read_be16(buf: &[u8], i: usize) -> (r: u16)
    requires
        i + 1 < buf@.len(),
    ensures
        r == be16_at(buf@, i as int),
{
    (buf[i] as u16) * 256 + (buf[i + 1] as u16)
}

fn read_be32(buf: &[u8], i: usize) -> (r: u32)
    requires
        i + 3 < buf@.len(),
    ensures
        r == be32_at(buf@, i as int),
{
    (buf[i] as u32) * 16777216 + (buf[i + 1] as u32) * 65536 + (buf[i + 2] as u32) * 256 + (
    buf[i + 3] as u32)
}

/// Reads the header fields of a TCP segment.
pub fn read_tcp_header(seg: &[u8]) -> (r: Option<TcpHeader>)
    ensures
        r == tcp_header_of(seg@),
{
    if seg.len() < 20 {
        return None;
    }
    Some(
        TcpHeader {
            source: read_be16(seg, 0),
            destination: read_be16(seg, 2),
            sequence: read_be32(seg, 4),
            acknowledgement: read_be32(seg, 8),
            flags: seg[13],
        },
    )
}

/// The payload of a TCP segment, as `tcp_payload_of` states.
pub fn tcp_payload(seg: &[u8]) -> (r: Option<&[u8]>)
    ensures
        match r {
            Some(p) => tcp_payload_of(seg@) == Some(p@),
            None => tcp_payload_of(seg@) is None,
        },
{
    let len = seg.len();
    if len < 20 {
        return None;
    }
    let data_offset = (seg[12] / 16) as usize;
    let start: usize = if data_offset > 5 {
        data_offset * 4
    } else {
        20
    };
    if len <= start {
        let empty: &[u8] = vstd::slice::slice_subrange(seg, len, len);
        assert(empty@ =~= Seq::<u8>::empty());
        return Some(empty);
    }
    Some(vstd::slice::slice_subrange(seg, start, len))
}

/// The payload of an IPv4 packet, as `ipv4_payload_of` states.
pub fn ipv4_payload(p: &[u8]) -> (r: Option<&[u8]>)
    ensures
        match r {
            Some(q) => ipv4_payload_of(p@) == Some(q@),
            None => ipv4_payload_of(p@) is None,
        },
{
    let len = p.len();
    if len < 20 {
        return None;
    }
    let header = ((p[0] % 16) as usize) * 4;
    let start: usize = if header > 20 {
        header
    } else {
        20
    };
    if len <= start {
        let empty: &[u8] = vstd::slice::slice_subrange(p, len, len);
        assert(empty@ =~= Seq::<u8>::empty());
        return Some(empty);
    }
    let total = read_be16(p, 2) as usize;
    let payload_len: usize = if total > header {
        total - header
    } else {
        0
    };
    let end: usize = if payload_len < len - start {
        start + payload_len
    } else {
        len
    };
    Some(vstd::slice::slice_subrange(p, start, end))
}

/// Source and destination addresses of an IPv4 packet.
pub fn ipv4_addresses(p: &[u8]) -> (r: Option<(u32, u32)>)
    ensures
        r == ipv4_addresses_of(p@),
{
    if p.len() < 20 {
        return None;
    }
    Some((read_be32(p, 12), read_be32(p, 16)))
}

/// Reading two big-endian bytes back gives the number they were written from.
pub proof fn lemma_be16_read_back(s: Seq<u8>, i: int, x: u16)
    requires
        0 <= i,
        i + 2 <= s.len(),
        s.subrange(i, i + 2) == be16_bytes(x),
    ensures
        be16_at(s, i) == x,
{
    assert(s[i] == s.subrange(i, i + 2)[0]);
    assert(s[i + 1] == s.subrange(i, i + 2)[1]);
}

/// Reading four big-endian bytes back gives the number they were written from.
pub proof fn lemma_be32_read_back(s: Seq<u8>, i: int, x: u32)
    requires
        0 <= i,
        i + 4 <= s.len(),
        s.subrange(i, i + 4) == be32_bytes(x),
    ensures
        be32_at(s, i) == x,
{
    assert(s[i] == s.subrange(i, i + 4)[0]);
    assert(s[i + 1] == s.subrange(i, i + 4)[1]);
    assert(s[i + 2] == s.subrange(i, i + 4)[2]);
    assert(s[i + 3] == s.subrange(i, i + 4)[3]);
    assert((x / 16777216) * 16777216 + ((x / 65536) % 256) * 65536 + ((x / 256) % 256) * 256 + x
        % 256 == x) by (bit_vector);
}

/// Appends the two big-endian bytes of `x`.
pub fn push_be16(v: &mut Vec<u8>, x: u16)
    ensures
        final(v)@ == old(v)@ + be16_bytes(x),
{
    v.push((x / 256) as u8);
    v.push((x % 256) as u8);
    assert(final(v)@ =~= old(v)@ + be16_bytes(x));
}

/// Appends the four big-endian bytes of `x`.
pub fn push_be32(v: &mut Vec<u8>, x: u32)
    ensures
        final(v)@ == old(v)@ + be32_bytes(x),
{
    v.push((x / 16777216) as u8);
    v.push(((x / 65536) % 256) as u8);
    v.push(((x / 256) % 256) as u8);
    v.push((x % 256) as u8);
    assert(final(v)@ =~= old(v)@ + be32_bytes(x));
}

/// Appends the bytes of `s`.
pub fn push_bytes(v: &mut Vec<u8>, s: &[u8])
    ensures
        final(v)@ == old(v)@ + s@,
{
    let ghost start = v@;
    let mut i: usize = 0;
    while i < s.len()
        invariant
            i <= s@.len(),
            v@ == start + s@.subrange(0, i as int),
            start == old(v)@,
        decreases s@.len() - i,
    {
        v.push(s[i]);
        i = i + 1;
        assert(v@ =~= start + s@.subrange(0, i as int));
    }
    assert(s@.subrange(0, s@.len() as int) =~= s@);
}

} // verus!
