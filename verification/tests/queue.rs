use dpi_bypass::fragmenting::fake_ttl::build_fake_packet;
use dpi_bypass::net_filter_queue::{
    handle_queued_packet, plan_queued_packet, queue_would_fault, replacement_packets, QueueDecision,
};
use dpi_bypass::tcp_ip::SocketV4;

fn client_hello(host: &[u8]) -> Vec<u8> {
    let mut v = vec![0x16, 0x03, 0x01, 0x00, 0x00, 0x01, 0x00, 0x00, 0x00, 0x03, 0x03];
    v.extend_from_slice(&[7u8; 32]);
    v.push(0);
    v.extend_from_slice(&[0x00, 0x02, 0x13, 0x01, 0x01, 0x00]);
    let name_len = host.len();
    let mut exts = vec![0x00, 0x00, 0x00, (name_len + 5) as u8, 0x00, (name_len + 3) as u8, 0x00, 0x00, name_len as u8];
    exts.extend_from_slice(host);
    v.extend_from_slice(&[0x00, exts.len() as u8]);
    v.extend_from_slice(&exts);
    v
}

const SRC: SocketV4 = SocketV4 { ip: 0xc0a8_0005, port: 51000 };
const DST: SocketV4 = SocketV4 { ip: 0x8efa_4a2e, port: 443 };

fn tcp_packet(seq: u32, payload: &[u8]) -> Vec<u8> {
    build_fake_packet(SRC, DST, seq, 0x5555_0000, 64, payload)
}

#[test]
fn client_hello_is_dropped_and_split() {
    let hello = client_hello(b"youtube.com");
    let split = hello.len() - 11 + 5;
    let packet = tcp_packet(1000, &hello);
    assert!(!queue_would_fault(&packet));
    match plan_queued_packet(&packet, 12) {
        QueueDecision::Split(plan) => {
            assert_eq!(plan.source, SRC);
            assert_eq!(plan.destination, DST);
            assert_eq!(plan.ack, 0x5555_0000);
            assert_eq!(plan.ttl, 64);
            assert_eq!(plan.intercepted_seq, 1000);
            assert_eq!(plan.split, split);
            assert_eq!(plan.first_seq, 1000 - 12);
            let mut expected = vec![0x41u8; 12];
            expected.extend_from_slice(&hello[..split]);
            assert_eq!(plan.first_payload, expected);
            assert_eq!(plan.second_seq, 1000 + split as u32);
            assert_eq!(plan.second_payload, hello[split..].to_vec());
            let (a, b) = replacement_packets(&plan);
            assert_eq!(a, build_fake_packet(SRC, DST, 988, 0x5555_0000, 64, &expected));
            assert_eq!(b, build_fake_packet(SRC, DST, 1000 + split as u32, 0x5555_0000, 64, &hello[split..]));
        }
        QueueDecision::Accept => panic!("a ClientHello must be split"),
    }
}

#[test]
fn junk_moves_the_first_sequence_number_back_modulo() {
    let hello = client_hello(b"example.com");
    let packet = tcp_packet(5, &hello);
    match plan_queued_packet(&packet, 30) {
        QueueDecision::Split(plan) => {
            assert_eq!(plan.first_seq, 5u32.wrapping_sub(30));
            assert_eq!(plan.first_seq.wrapping_add(30), 5);
            assert_eq!(
                plan.first_seq.wrapping_add(plan.first_payload.len() as u32),
                plan.second_seq
            );
        }
        QueueDecision::Accept => panic!("a ClientHello must be split"),
    }
}

#[test]
fn other_packets_are_accepted() {
    assert!(matches!(plan_queued_packet(&[0u8; 10], 10), QueueDecision::Accept));
    assert!(matches!(plan_queued_packet(&tcp_packet(1, b"GET / HTTP/1.1\r\n"), 10), QueueDecision::Accept));
    // TLS-looking, but five bytes only
    assert!(matches!(plan_queued_packet(&tcp_packet(1, &[0x16, 3, 1, 0, 0]), 10), QueueDecision::Accept));
    // TLS-looking without a server name
    let mut no_name = vec![0x16u8];
    no_name.extend_from_slice(&[0u8; 40]);
    assert!(matches!(plan_queued_packet(&tcp_packet(1, &no_name), 10), QueueDecision::Accept));
    // IPv4 header whose payload is too short for a TCP header
    let mut short = tcp_packet(1, &[]);
    short[3] = 30;
    assert!(matches!(plan_queued_packet(&short, 10), QueueDecision::Accept));
}

#[test]
fn faults_are_detected() {
    let mut hello = client_hello(b"example.com");
    let len = hello.len();
    hello[len - 12] = 0xff; // the split lies past the payload's end
    assert!(queue_would_fault(&tcp_packet(1, &hello)));
    let hello = client_hello(b"example.com");
    // the second segment's sequence number would pass u32::MAX
    assert!(queue_would_fault(&tcp_packet(u32::MAX - 10, &hello)));
    assert!(!queue_would_fault(&tcp_packet(u32::MAX - 200, &hello)));
    assert!(!queue_would_fault(&[0u8; 3]));
}

#[test]
fn handled_packets_get_ten_to_thirty_junk_bytes() {
    let hello = client_hello(b"youtube.com");
    let split = hello.len() - 11 + 5;
    let packet = tcp_packet(100_000, &hello);
    for _ in 0..100 {
        match handle_queued_packet(&packet) {
            QueueDecision::Split(plan) => {
                let junk = plan.first_payload.len() - split;
                assert!((10..=30).contains(&junk));
                assert!(plan.first_payload[..junk].iter().all(|&b| b == b'A'));
                assert_eq!(plan.first_seq, 100_000 - junk as u32);
            }
            QueueDecision::Accept => panic!("a ClientHello must be split"),
        }
    }
}
