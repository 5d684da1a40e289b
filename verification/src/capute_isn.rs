//! Recognising the server's SYN-ACK among the TCP segments that a raw
//! socket receives, to learn the sequence numbers of a new connection.
use vstd::prelude::*;
use crate::tcp_ip::{SocketV4, read_tcp_header, tcp_header_of};

verus! {

/// The SYN and ACK flags together, and nothing else.
pub const SYN_ACK: u8 = 0x12;

/// For a received segment, from the sender address `from` (`None` when it is
/// not an IPv4 address): when it is the SYN-ACK of `server` to `my_port`,
/// our next sequence number (its acknowledgement number) and the server's
/// initial sequence number (its sequence number).
pub open spec fn syn_ack_numbers_of(
    segment: Seq<u8>,
    from: Option<u32>,
    server: SocketV4,
    my_port: u16,
) -> Option<(u32, u32)> {
    let h = tcp_header_of(segment)->0;
    if from == Some(server.ip) && h.source == server.port && h.destination == my_port && h.flags
        == SYN_ACK {
        Some((h.acknowledgement, h.sequence))
    } else {
        None
    }
}

/// Checks one received segment as the capture loop does: it is the awaited
/// SYN-ACK when it comes from the server's address and port, goes to
/// `my_port` and carries exactly the SYN and ACK flags. Then the result is
/// our sequence number and the server's initial one, else `None`.
pub fn syn_ack_numbers(segment: &[u8], from: Option<u32>, server: SocketV4, my_port: u16) -> (r:
    Option<(u32, u32)>)
    requires
        segment@.len() >= 20,
    ensures
        r == syn_ack_numbers_of(segment@, from, server, my_port),
{
    let h = read_tcp_header(segment).unwrap();
    let is_from_server = match from {
        Some(ip) => ip == server.ip,
        None => false,
    };
    let is_right_port = h.source == server.port;
    let is_for_me = h.destination == my_port;
    let is_syn_ack = h.flags == SYN_ACK;
    if is_from_server && is_right_port && is_for_me && is_syn_ack {
        Some((h.acknowledgement, h.sequence))
    } else {
        None
    }
}

/// A segment is the awaited SYN-ACK exactly when it comes from the server's
/// address, its source port (bytes 0-1) is the server's port, its
/// destination port (bytes 2-3) is `my_port` and its flag byte (byte 13) is
/// SYN|ACK; then the numbers returned are its whole 32-bit acknowledgement
/// number (bytes 8-11), which is our next sequence number, and its whole
/// 32-bit sequence number (bytes 4-7), the server's initial one.
pub proof fn lemma_syn_ack_gives_both_numbers(
    segment: Seq<u8>,
    from: Option<u32>,
    server: SocketV4,
    my_port: u16,
)
    requires
        segment.len() >= 20,
    ensures
        syn_ack_numbers_of(segment, from, server, my_port) == (if from == Some(server.ip)
            && segment[0] as int * 256 + segment[1] as int == server.port as int && segment[2] as int
            * 256 + segment[3] as int == my_port as int && segment[13] == 0x12u8 {
            Some(
                (
                    (segment[8] as int * 16777216 + segment[9] as int * 65536 + segment[10] as int
                        * 256 + segment[11] as int) as u32,
                    (segment[4] as int * 16777216 + segment[5] as int * 65536 + segment[6] as int
                        * 256 + segment[7] as int) as u32,
                ),
            )
        } else {
            None
        }),
{
}

} // verus!
