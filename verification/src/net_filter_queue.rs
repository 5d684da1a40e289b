//! What to do with a packet that the netfilter queue hands over.
//!
//! A TCP segment whose payload starts like a TLS handshake record and holds a
//! server name is dropped and replaced by two segments: the first carries
//! junk in front of the part of the payload before the split, with its
//! sequence number moved back by the junk's length so that the junk is
//! taken as data already received; the second carries the rest of the
//! payload. Every other packet is let through.
use vstd::prelude::*;
use crate::tcp_ip::{
    SocketV4, ipv4_payload, ipv4_payload_of, ipv4_addresses, ipv4_addresses_of,
    read_tcp_header, tcp_header_of, tcp_payload, tcp_payload_of, push_bytes,
};
use crate::fragmenting::sni_parser::{find_sni, sni_split};
use crate::random::random_in_range;
use crate::fragmenting::fake_ttl::{MAX_FAKE_PAYLOAD, build_fake_packet, fake_packet};

verus! {

/// Byte the junk is made of: `A`.
pub const JUNK_BYTE: u8 = 0x41;

/// Time to live of the two replacement segments.
pub const REPLACEMENT_TTL: u8 = 64;

/// Fewest and most junk bytes put in front of the first part.
pub const JUNK_MIN: u8 = 10;
pub const JUNK_MAX: u8 = 30;

/// The two segments that replace a dropped ClientHello segment.
#[derive(Debug)]
pub struct SplitPlan {
    pub source: SocketV4,
    pub destination: SocketV4,
    pub ack: u32,
    pub ttl: u8,
    /// Sequence number of the intercepted segment and where its payload is
    /// split.
    pub intercepted_seq: u32,
    pub split: usize,
    pub first_seq: u32,
    pub first_payload: Vec<u8>,
    pub second_seq: u32,
    pub second_payload: Vec<u8>,
}

/// The verdict on a queued packet.
#[derive(Debug)]
pub enum QueueDecision {
    /// Let the packet through.
    Accept,
    /// Drop the packet and send the two segments of the plan instead.
    Split(SplitPlan),
}

/// Whether a TCP payload looks like a TLS handshake record: more than five
/// bytes, the first of them 0x16.
pub open spec fn looks_like_tls_handshake(payload: Seq<u8>) -> bool {
    payload.len() > 5 && payload[0] == 0x16
}

/// The TCP segment inside an IPv4 packet, when the packet holds a 20-byte
/// IPv4 header and its payload a 20-byte TCP header.
pub open spec fn queued_segment(packet: Seq<u8>) -> Option<Seq<u8>> {
    match ipv4_payload_of(packet) {
        Some(seg) => if seg.len() >= 20 {
            Some(seg)
        } else {
            None
        },
        None => None,
    }
}

/// The TCP payload of a queued packet and where it is split, when the packet
/// is a TCP segment carrying a TLS handshake record with a server name.
pub open spec fn hello_split(packet: Seq<u8>) -> Option<(Seq<u8>, int)> {
    match queued_segment(packet) {
        Some(seg) => {
            let payload = tcp_payload_of(seg)->0;
            if looks_like_tls_handshake(payload) {
                match sni_split(payload) {
                    Some(p) => Some((payload, p)),
                    None => None,
                }
            } else {
                None
            }
        },
        None => None,
    }
}

/// Whether handling the packet would fault: its split lies past the end of
/// the payload, or the second segment's sequence number, the intercepted
/// one plus the split, passes `u32::MAX`.
pub open spec fn queue_fault(packet: Seq<u8>) -> bool {
    match hello_split(packet) {
        Some((payload, p)) => p > payload.len() || tcp_header_of(queued_segment(packet)->0)->0.sequence
            + p > u32::MAX,
        None => false,
    }
}

/// `seq - n` modulo 2^32.
pub open spec fn seq_minus(seq: u32, n: u32) -> u32 {
    if seq >= n {
        (seq - n) as u32
    } else {
        (seq - n + 0x1_0000_0000) as u32
    }
}

/// `n` junk bytes.
pub open spec fn junk(n: int) -> Seq<u8> {
    Seq::new(n as nat, |i: int| JUNK_BYTE)
}

/// Whether `plan` is the replacement of the queued `packet` with `junk_len`
/// junk bytes: the segments go the packet's way with its acknowledgement
/// number and time to live 64; the first holds the junk and the payload up
/// to the split, numbered `junk_len` before the packet's sequence number;
/// the second holds the rest, numbered at the split.
pub open spec fn is_split_plan(plan: SplitPlan, packet: Seq<u8>, junk_len: u8) -> bool {
    let seg = queued_segment(packet)->0;
    let header = tcp_header_of(seg)->0;
    let (payload, p) = hello_split(packet)->0;
    let (src_ip, dst_ip) = ipv4_addresses_of(packet)->0;
    &&& plan.source == (SocketV4 { ip: src_ip, port: header.source })
    &&& plan.destination == (SocketV4 { ip: dst_ip, port: header.destination })
    &&& plan.ack == header.acknowledgement
    &&& plan.ttl == REPLACEMENT_TTL
    &&& plan.intercepted_seq == header.sequence
    &&& plan.split == p
    &&& plan.first_seq == seq_minus(header.sequence, junk_len as u32)
    &&& plan.first_payload@ == junk(junk_len as int) + payload.subrange(0, p)
    &&& plan.second_seq == header.sequence + p
    &&& plan.second_payload@ == payload.subrange(p, payload.len() as int)
}

/// Whether `d` is the decision on `packet` with `junk_len` junk bytes.
pub open spec fn is_decision(d: QueueDecision, packet: Seq<u8>, junk_len: u8) -> bool {
    match d {
        QueueDecision::Accept => hello_split(packet) is None,
        QueueDecision::Split(plan) => hello_split(packet) is Some && is_split_plan(
            plan,
            packet,
            junk_len,
        ),
    }
}

/// Whether a TCP payload looks like a TLS handshake record.
pub fn looks_like_tls(payload: &[u8]) -> (r: bool)
    ensures
        r == looks_like_tls_handshake(payload@),
{
    payload.len() > 5 && payload[0] == 0x16
}

fn segment_of(packet: &[u8]) -> (r: Option<&[u8]>)
    ensures
        match r {
            Some(s) => queued_segment(packet@) == Some(s@),
            None => queued_segment(packet@) is None,
        },
{
    match ipv4_payload(packet) {
        Some(seg) => if seg.len() >= 20 {
            Some(seg)
        } else {
            None
        },
        None => None,
    }
}

/// Whether handling the queued packet would fault, as `queue_fault` states.
pub fn queue_would_fault(packet: &[u8]) -> (r: bool)
    requires
        packet@.len() <= isize::MAX,
    ensures
        r == queue_fault(packet@),
{
    let seg = match segment_of(packet) {
        Some(s) => s,
        None => return false,
    };
    let header = match read_tcp_header(seg) {
        Some(h) => h,
        None => return false,
    };
    let payload = match tcp_payload(seg) {
        Some(p) => p,
        None => return false,
    };
    if !looks_like_tls(payload) {
        return false;
    }
    match find_sni(payload) {
        Some(p) => p > payload.len() || p as u64 + header.sequence as u64 > 0xffff_ffff,
        None => false,
    }
}

/// Decides on a queued packet, with `junk_len` junk bytes in front of the
/// first replacement segment.
pub fn plan_queued_packet(packet: &[u8], junk_len: u8) -> (r: QueueDecision)
    requires
        packet@.len() <= isize::MAX,
        !queue_fault(packet@),
    ensures
        is_decision(r, packet@, junk_len),
{
    let seg = match segment_of(packet) {
        Some(s) => s,
        None => return QueueDecision::Accept,
    };
    let header = read_tcp_header(seg).unwrap();
    let payload = tcp_payload(seg).unwrap();
    if !looks_like_tls(payload) {
        return QueueDecision::Accept;
    }
    let split = match find_sni(payload) {
        Some(p) => p,
        None => return QueueDecision::Accept,
    };
    let (src_ip, dst_ip) = ipv4_addresses(packet).unwrap();
    let mut first_payload: Vec<u8> = Vec::new();
    let mut i: u8 = 0;
    while i < junk_len
        invariant
            i <= junk_len,
            first_payload@ == junk(i as int),
        decreases junk_len - i,
    {
        first_payload.push(JUNK_BYTE);
        i = i + 1;
        assert(first_payload@ =~= junk(i as int));
    }
    let head = vstd::slice::slice_subrange(payload, 0, split);
    push_bytes(&mut first_payload, head);
    let tail = vstd::slice::slice_subrange(payload, split, payload.len());
    let mut second_payload: Vec<u8> = Vec::new();
    push_bytes(&mut second_payload, tail);
    let first_seq = header.sequence.wrapping_sub(junk_len as u32);
    let second_seq = header.sequence + split as u32;
    QueueDecision::Split(
        SplitPlan {
            source: SocketV4 { ip: src_ip, port: header.source },
            destination: SocketV4 { ip: dst_ip, port: header.destination },
            ack: header.acknowledgement,
            ttl: REPLACEMENT_TTL,
            intercepted_seq: header.sequence,
            split,
            first_seq,
            first_payload,
            second_seq,
            second_payload,
        },
    )
}

/// Decides on a queued packet as the sniffing loop does, with a random
/// number of junk bytes between 10 and 30: the decision is
/// `plan_queued_packet`'s for some such number.
pub fn handle_queued_packet(packet: &[u8]) -> (r: QueueDecision)
    requires
        packet@.len() <= isize::MAX,
        !queue_fault(packet@),
    ensures
        exists|n: u8| JUNK_MIN <= n <= JUNK_MAX && is_decision(r, packet@, n),
{
    let n = random_in_range(JUNK_MIN as usize, JUNK_MAX as usize + 1) as u8;
    plan_queued_packet(packet, n)
}

/// The two replacement packets of a plan, built as `build_fake_packet`
/// builds them.
pub fn replacement_packets(plan: &SplitPlan) -> (r: (Vec<u8>, Vec<u8>))
    requires
        plan.first_payload@.len() <= MAX_FAKE_PAYLOAD,
        plan.second_payload@.len() <= MAX_FAKE_PAYLOAD,
    ensures
        r.0@ == fake_packet(
            plan.source,
            plan.destination,
            plan.first_seq,
            plan.ack,
            plan.ttl,
            plan.first_payload@,
        ),
        r.1@ == fake_packet(
            plan.source,
            plan.destination,
            plan.second_seq,
            plan.ack,
            plan.ttl,
            plan.second_payload@,
        ),
{
    let first = build_fake_packet(
        plan.source,
        plan.destination,
        plan.first_seq,
        plan.ack,
        plan.ttl,
        plan.first_payload.as_slice(),
    );
    let second = build_fake_packet(
        plan.source,
        plan.destination,
        plan.second_seq,
        plan.ack,
        plan.ttl,
        plan.second_payload.as_slice(),
    );
    (first, second)
}

/// The two replacement segments carry the intercepted payload in order and
/// number it as the intercepted segment did: the junk takes the `junk_len`
/// sequence numbers before the intercepted one, so the first segment's own
/// bytes start at the intercepted number, and the second segment starts where
/// the first one ends.
pub proof fn lemma_split_plan_keeps_stream(plan: SplitPlan, packet: Seq<u8>, junk_len: u8)
    requires
        hello_split(packet) is Some,
        !queue_fault(packet),
        is_split_plan(plan, packet, junk_len),
    ensures
        plan.first_payload@.subrange(0, junk_len as int) == junk(junk_len as int),
        plan.first_payload@.subrange(junk_len as int, plan.first_payload@.len() as int)
            + plan.second_payload@ == (hello_split(packet)->0).0,
        (plan.first_seq as int + junk_len as int) % 0x1_0000_0000 == plan.intercepted_seq as int,
        (plan.first_seq as int + plan.first_payload@.len()) % 0x1_0000_0000
            == plan.second_seq as int,
{
    let (payload, p) = hello_split(packet)->0;
    let n = junk_len as int;
    assert(plan.first_payload@.subrange(0, n) =~= junk(n));
    assert(plan.first_payload@.subrange(n, plan.first_payload@.len() as int) =~= payload.subrange(
        0,
        p,
    ));
    assert(payload.subrange(0, p) + payload.subrange(p, payload.len() as int) =~= payload);
}

/// The decision on a queued packet follows its TCP payload, whatever options
/// the TCP header carries: when the IPv4 payload holds a TCP segment of at
/// least 20 bytes, the packet is split exactly when the segment's payload
/// (after its data offset) looks like a TLS handshake record with a server
/// name, and then at that payload's split, with the junk and the payload's
/// two parts as the replacement payloads. A packet without such a segment
/// is let through.
pub proof fn lemma_decision_follows_tcp_payload(packet: Seq<u8>, junk_len: u8, d: QueueDecision)
    requires
        is_decision(d, packet, junk_len),
    ensures
        match ipv4_payload_of(packet) {
            Some(seg) => if seg.len() >= 20 {
                let payload = tcp_payload_of(seg)->0;
                &&& (d is Split <==> looks_like_tls_handshake(payload) && sni_split(payload) is Some)
                &&& d matches QueueDecision::Split(plan) ==> {
                    &&& plan.split == sni_split(payload)->0
                    &&& plan.first_payload@ == junk(junk_len as int) + payload.subrange(
                        0,
                        plan.split as int,
                    )
                    &&& plan.second_payload@ == payload.subrange(
                        plan.split as int,
                        payload.len() as int,
                    )
                }
            } else {
                d is Accept
            },
            None => d is Accept,
        },
{
}

} // verus!
