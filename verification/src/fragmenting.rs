//! The write side of a TCP stream that cuts the first write of a TLS
//! connection inside the server name and slips a fake segment in behind the
//! first part.
//!
//! The stream itself is I/O; this module holds the decisions: how much of a
//! write goes out, when the state flips, and which fake packet follows the
//! first part.
pub mod sni_parser;
pub mod fake_ttl;

use vstd::prelude::*;
use crate::tcp_ip::SocketV4;
use crate::random::{is_alphanumeric, random_alphanumeric, random_in_range};
use crate::fragmenting::sni_parser::{find_sni, sni_split};
use crate::fragmenting::fake_ttl::{MAX_FAKE_PAYLOAD, build_fake_packet, fake_packet};

verus! {

/// State of a fragmenting stream: whether the first part of a split write
/// has gone out, and what the fake segments are built from.
#[derive(Clone, Copy, Debug, PartialEq, Eq, Structural)]
pub struct FragmentingStream {
    pub first_write_done: bool,
    pub my_ip: SocketV4,
    pub server_ip: SocketV4,
    pub seq: u32,
    pub ack: u32,
    pub ttl: u8,
}

/// What a write sends of the buffer it is given.
#[derive(Clone, Copy, Debug, PartialEq, Eq, Structural)]
pub enum WritePlan {
    /// Only the first `n` bytes; a fake segment follows once they are out.
    Prefix(usize),
    /// The whole buffer.
    Whole,
}

/// Fewest and one past the most bytes of a fake payload.
pub const FAKE_PAYLOAD_MIN: usize = 10;
pub const FAKE_PAYLOAD_END: usize = 30;

/// Where a first write is cut: the middle of the server name, or half the
/// buffer when no server name is found or when the middle of the server
/// name would lie past the end of the buffer.
pub open spec fn split_point(buf: Seq<u8>) -> int {
    match sni_split(buf) {
        Some(p) => if p <= buf.len() {
            p
        } else {
            (buf.len() / 2) as int
        },
        None => (buf.len() / 2) as int,
    }
}

/// The plan for a write of `buf` in a state whose flag is `first_write_done`.
pub open spec fn plan_of(first_write_done: bool, buf: Seq<u8>) -> WritePlan {
    if !first_write_done && buf.len() > 1 {
        WritePlan::Prefix(split_point(buf) as usize)
    } else {
        WritePlan::Whole
    }
}

/// Whether `p` can be the payload of a fake segment: 10 to 29 ASCII letters
/// and digits.
pub open spec fn valid_fake_payload(p: Seq<u8>) -> bool {
    &&& FAKE_PAYLOAD_MIN <= p.len() < FAKE_PAYLOAD_END
    &&& forall|i: int| 0 <= i < p.len() ==> is_alphanumeric(#[trigger] p[i])
}

/// A random fake payload.
pub fn random_fake_payload() -> (r: Vec<u8>)
    ensures
        valid_fake_payload(r@),
{
    let n = random_in_range(FAKE_PAYLOAD_MIN, FAKE_PAYLOAD_END);
    let mut text: Vec<u8> = Vec::new();
    let mut i: usize = 0;
    while i < n
        invariant
            i <= n,
            n < FAKE_PAYLOAD_END,
            text@.len() == i,
            forall|j: int| 0 <= j < i ==> is_alphanumeric(#[trigger] text@[j]),
        decreases n - i,
    {
        let b = random_alphanumeric();
        text.push(b);
        i = i + 1;
    }
    text
}

impl FragmentingStream {
    /// A stream state whose first write has not happened yet.
    pub fn new(my_ip: SocketV4, server_ip: SocketV4, seq: u32, ack: u32, ttl: u8) -> (r: Self)
        ensures
            r == (FragmentingStream { first_write_done: false, my_ip, server_ip, seq, ack, ttl }),
    {
        FragmentingStream { first_write_done: false, my_ip, server_ip, seq, ack, ttl }
    }

    /// Decides what a write of `buf` sends. While no first part has gone
    /// out, a buffer of more than one byte is cut at `split_point`; every
    /// other write goes out whole. Planning changes nothing: the flag is set
    /// only once the first part is out (`prefix_written`).
    pub fn plan_write(&self, buf: &[u8]) -> (r: WritePlan)
        requires
            buf@.len() <= isize::MAX,
        ensures
            r == plan_of(self.first_write_done, buf@),
    {
        proof {
            crate::fragmenting::sni_parser::lemma_split_lies_after_header(buf@);
        }
        if !self.first_write_done && buf.len() > 1 {
            let half = buf.len() / 2;
            let n = match find_sni(buf) {
                Some(p) => if p <= buf.len() {
                    p
                } else {
                    half
                },
                None => half,
            };
            WritePlan::Prefix(n)
        } else {
            WritePlan::Whole
        }
    }

    /// The fake packet built from this state and `payload`: from `my_ip`
    /// to `server_ip` with the state's numbers and time to live.
    pub fn fake_packet_with(&self, payload: &[u8]) -> (r: Vec<u8>)
        requires
            payload@.len() <= MAX_FAKE_PAYLOAD,
        ensures
            r@ == fake_packet(self.my_ip, self.server_ip, self.seq, self.ack, self.ttl, payload@),
    {
        build_fake_packet(self.my_ip, self.server_ip, self.seq, self.ack, self.ttl, payload)
    }

    /// Records that the first part of a split write is out and returns the
    /// fake packet to send behind it, whose payload is a random
    /// `valid_fake_payload`.
    pub fn prefix_written(&mut self) -> (r: Vec<u8>)
        ensures
            *final(self) == (FragmentingStream { first_write_done: true, ..*old(self) }),
            exists|p: Seq<u8>|
                valid_fake_payload(p) && r@ == fake_packet(
                    old(self).my_ip,
                    old(self).server_ip,
                    old(self).seq,
                    old(self).ack,
                    old(self).ttl,
                    p,
                ),
    {
        self.first_write_done = true;
        let text = random_fake_payload();
        let packet = self.fake_packet_with(text.as_slice());
        assert(valid_fake_payload(text@));
        packet
    }
}

/// A write of more than one byte that is split sends at least one byte and
/// at most the whole buffer. It is cut in the middle of the server name when
/// that lies inside the buffer, and in half when there is no server name or
/// its middle lies past the end of the buffer.
pub proof fn lemma_split_point_bounds(buf: Seq<u8>)
    requires
        buf.len() > 1,
    ensures
        1 <= split_point(buf) <= buf.len(),
        sni_split(buf) is None ==> split_point(buf) == buf.len() / 2,
        sni_split(buf) matches Some(p) ==> (p <= buf.len() ==> split_point(buf) == p),
        sni_split(buf) matches Some(p) ==> (p > buf.len() ==> split_point(buf) == buf.len() / 2),
{
    crate::fragmenting::sni_parser::lemma_split_lies_after_header(buf);
}

/// Only the first write of a stream is split: once its first part is out,
/// the flag stays set, since planning never clears it, and every later write
/// goes out whole.
pub proof fn lemma_only_first_write_split(state: FragmentingStream, buf: Seq<u8>)
    requires
        state.first_write_done,
    ensures
        plan_of(state.first_write_done, buf) == WritePlan::Whole,
{
}

} // verus!
