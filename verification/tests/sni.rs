use dpi_bypass::fragmenting::sni_parser::{find_sni, sni_host};
use dpi_bypass::sni_parser::find_SNI;

/// A TLS record carrying a ClientHello with a session id of `sid` bytes,
/// one cipher suite, one compression method, an extension of type 0x000b
/// and then the server name extension for `host`.
fn client_hello(sid: usize, host: &[u8]) -> Vec<u8> {
    let mut v = vec![0x16, 0x03, 0x01, 0x00, 0x00];
    v.extend_from_slice(&[0x01, 0x00, 0x00, 0x00]);
    v.extend_from_slice(&[0x03, 0x03]);
    v.extend_from_slice(&[7u8; 32]);
    v.push(sid as u8);
    v.extend(std::iter::repeat(9u8).take(sid));
    v.extend_from_slice(&[0x00, 0x02, 0x13, 0x01]);
    v.extend_from_slice(&[0x01, 0x00]);
    let mut exts = vec![0x00, 0x0b, 0x00, 0x02, 0x01, 0x00];
    let name_len = host.len();
    let list_len = name_len + 3;
    let ext_len = list_len + 2;
    exts.extend_from_slice(&[0x00, 0x00, (ext_len >> 8) as u8, ext_len as u8]);
    exts.extend_from_slice(&[(list_len >> 8) as u8, list_len as u8, 0x00]);
    exts.extend_from_slice(&[(name_len >> 8) as u8, name_len as u8]);
    exts.extend_from_slice(host);
    v.extend_from_slice(&[(exts.len() >> 8) as u8, exts.len() as u8]);
    v.extend_from_slice(&exts);
    v
}

/// Offset of the host name in `client_hello(sid, _)`.
fn name_offset(sid: usize) -> usize {
    43 + 1 + sid + 2 + 2 + 2 + 2 + 6 + 4 + 2 + 1 + 2
}

#[test]
fn find_sni_splits_in_the_middle_of_the_host_name() {
    let hello = client_hello(0, b"example.com");
    let start = name_offset(0);
    assert_eq!(&hello[start..start + 11], b"example.com");
    assert_eq!(find_sni(&hello), Some(start + 5));
    assert_eq!(&hello[start..start + 5], b"examp");
}

#[test]
fn find_sni_follows_the_session_id_length() {
    let hello = client_hello(32, b"youtube.com");
    let start = name_offset(32);
    assert_eq!(find_sni(&hello), Some(start + 5));
}

#[test]
fn find_sni_of_a_two_byte_name_splits_between_them() {
    let hello = client_hello(0, b"ab");
    let start = name_offset(0);
    assert_eq!(find_sni(&hello), Some(start + 1));
}

#[test]
fn find_sni_fails_on_short_buffers() {
    assert_eq!(find_sni(&[]), None);
    assert_eq!(find_sni(&[0u8; 43]), None);
    let hello = client_hello(0, b"example.com");
    let start = name_offset(0);
    // cut just before the host name's length field is complete
    assert_eq!(find_sni(&hello[..start - 1]), None);
    // with the length field but not the name: the split still comes back
    assert_eq!(find_sni(&hello[..start]), Some(start + 5));
}

#[test]
fn find_sni_without_server_name_extension() {
    let mut hello = client_hello(0, b"example.com");
    // turn the server name extension into another type
    let ext_type_pos = name_offset(0) - 9;
    assert_eq!(hello[ext_type_pos], 0x00);
    assert_eq!(hello[ext_type_pos + 1], 0x00);
    hello[ext_type_pos + 1] = 0x10;
    assert_eq!(find_sni(&hello), None);
}

#[test]
fn find_sni_split_may_lie_past_the_buffer() {
    let mut hello = client_hello(0, b"example.com");
    let start = name_offset(0);
    // claim a 0x0400-byte name
    hello[start - 2] = 0x04;
    hello[start - 1] = 0x00;
    assert_eq!(find_sni(&hello), Some(start + 0x200));
    assert!(start + 0x200 > hello.len());
}

#[test]
fn find_sni_of_an_all_zero_buffer() {
    // every length field is zero: the first extension has type 0
    let buf = [0u8; 60];
    // extensions start at 43 + 1 + 2 + 1 + 2 = 49; name length at 49 + 7
    assert_eq!(find_sni(&buf), Some(58));
}

#[test]
fn find_unfinished_sni_returns_none_on_short_buffers() {
    assert_eq!(find_SNI(&[]), None);
    assert_eq!(find_SNI(&[0u8; 43]), None);
    assert_eq!(find_SNI(&[0u8; 50]), None);
    // the first extension's fields end one byte short
    assert_eq!(find_SNI(&[0u8; 52]), None);
}

#[test]
fn sni_host_gives_offset_and_length_of_the_name() {
    let hello = client_hello(0, b"example.com");
    let start = name_offset(0);
    assert_eq!(sni_host(&hello), Some((start, 11)));
    assert_eq!(&hello[start..start + 11], b"example.com");
    assert_eq!(sni_host(&hello[..start - 1]), None);
    assert_eq!(sni_host(&[0u8; 60]), Some((58, 0)));
}

#[test]
fn split_ignores_the_characters_of_the_host_name() {
    let a = client_hello(0, b"example.com");
    let b = client_hello(0, b"zzzzzzzzzzz");
    assert_eq!(find_sni(&a), find_sni(&b));
    assert_eq!(sni_host(&a), sni_host(&b));
}
