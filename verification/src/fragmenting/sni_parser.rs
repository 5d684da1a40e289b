//! Locating the server name inside a TLS record that carries a ClientHello.
//!
//! The parser walks a fixed-layout prefix (record header, handshake header,
//! client version, random), then the length-prefixed session id, cipher
//! suites and compression methods, skips the extensions' total length and
//! scans the extensions one by one until it meets the `server_name`
//! extension (type 0).
use vstd::prelude::*;

verus! {

/// Offset of the session id length byte: 5 (record header) + 4 (handshake
/// header) + 2 (client version) + 32 (random).
pub const SESSION_ID_OFFSET: usize = 43;

/// The big-endian 16-bit number stored at `s[i]`, `s[i + 1]`.
pub open spec fn be16_at(s: Seq<u8>, i: int) -> int {
    s[i] as int * 256 + s[i + 1] as int
}

/// Offset of the first extension in a ClientHello record, or `None` when the
/// buffer ends before one of the length fields that lead to it.
pub open spec fn extensions_start(s: Seq<u8>) -> Option<int> {
    let sid = SESSION_ID_OFFSET as int;
    if sid >= s.len() {
        None
    } else {
        let suites = sid + 1 + s[sid] as int;
        if suites + 1 >= s.len() {
            None
        } else {
            let compression = suites + 2 + be16_at(s, suites);
            if compression >= s.len() {
                None
            } else {
                let total = compression + 1 + s[compression] as int;
                if total + 1 >= s.len() {
                    None
                } else {
                    Some(total + 2)
                }
            }
        }
    }
}

/// Scans the extensions from offset `pos` on. The result is the offset of
/// the host name and the length field that precedes it, read from the first
/// extension of type 0; `None` when the buffer ends first.
pub open spec fn server_name_from(s: Seq<u8>, pos: int) -> Option<(int, int)>
    decreases s.len() - pos,
{
    if pos < 0 || pos + 3 >= s.len() {
        None
    } else if be16_at(s, pos) == 0 {
        let name_len_pos = pos + 7;
        if name_len_pos + 1 >= s.len() {
            None
        } else {
            Some((name_len_pos + 2, be16_at(s, name_len_pos)))
        }
    } else {
        let next = pos + 4 + be16_at(s, pos + 2);
        if next + 3 >= s.len() {
            None
        } else {
            server_name_from(s, next)
        }
    }
}

/// Where the host name of the `server_name` extension starts and the length
/// that its length field gives.
pub open spec fn server_name(s: Seq<u8>) -> Option<(int, int)> {
    match extensions_start(s) {
        Some(p) => server_name_from(s, p),
        None => None,
    }
}

/// The split position: the middle of the host name.
pub open spec fn sni_split(s: Seq<u8>) -> Option<int> {
    match server_name(s) {
        Some((start, len)) => Some(start + len / 2),
        None => None,
    }
}

fn be16(buf: &[u8], i: usize) -> (r: usize)
    requires
        i + 1 < buf@.len(),
    ensures
        r == be16_at(buf@, i as int),
        r <= 65535,
{
    (buf[i] as usize) * 256 + (buf[i + 1] as usize)
}

/// Offset of the first extension, computed as `extensions_start` states.
pub fn find_extensions(buf: &[u8]) -> (r: Option<usize>)
    requires
        buf@.len() <= isize::MAX,
    ensures
        r == (match extensions_start(buf@) {
            Some(p) => Some(p as usize),
            None => None::<usize>,
        }),
        r matches Some(p) ==> p <= buf@.len(),
{
    let len = buf.len();
    let sid = SESSION_ID_OFFSET;
    if sid >= len {
        return None;
    }
    let suites = sid + 1 + buf[sid] as usize;
    if suites + 1 >= len {
        return None;
    }
    let compression = suites + 2 + be16(buf, suites);
    if compression >= len {
        return None;
    }
    let total = compression + 1 + buf[compression] as usize;
    if total + 1 >= len {
        return None;
    }
    Some(total + 2)
}

/// Finds the host name of the `server_name` extension of a ClientHello
/// record: its offset and the length that its length field gives, as
/// `server_name` states. The name may run past the end of `buf`.
pub fn sni_host(buf: &[u8]) -> (r: Option<(usize, usize)>)
    requires
        buf@.len() <= isize::MAX,
    ensures
        r is Some <==> server_name(buf@) is Some,
        r matches Some((start, len)) ==> server_name(buf@) == Some((start as int, len as int)),
        r matches Some((start, len)) ==> len <= 65535,
{
    proof {
        lemma_split_lies_after_header(buf@);
        match extensions_start(buf@) {
            Some(e) => lemma_name_after_extension(buf@, e),
            None => {},
        }
    }
    let len = buf.len();
    let mut pos = match find_extensions(buf) {
        Some(p) => p,
        None => return None,
    };
    loop
        invariant
            len == buf@.len(),
            len <= isize::MAX,
            pos <= len,
            extensions_start(buf@) is Some,
            server_name(buf@) == server_name_from(buf@, pos as int),
        decreases len - pos,
    {
        if len - pos <= 3 {
            return None;
        }
        let ext_type = be16(buf, pos);
        let ext_len = be16(buf, pos + 2);
        let ext_data_start = pos + 4;
        if ext_type == 0 {
            let name_len_pos = ext_data_start + 3;
            if name_len_pos + 1 >= len {
                return None;
            }
            let name_len = be16(buf, name_len_pos);
            let name_start = name_len_pos + 2;
            return Some((name_start, name_len));
        }
        let next = ext_data_start + ext_len;
        if next + 3 >= len {
            return None;
        }
        pos = next;
    }
}

/// Finds where to split a ClientHello record so that the host name of its
/// `server_name` extension is cut in two: the offset of the host name plus
/// half its length. `None` when the buffer ends before the extension, its
/// type and length fields, or the host name's length field have been read.
/// The offset may lie beyond the end of `buf` when the length field claims
/// more bytes than the buffer holds.
pub fn find_sni(buf: &[u8]) -> (r: Option<usize>)
    requires
        buf@.len() <= isize::MAX,
    ensures
        r is Some <==> sni_split(buf@) is Some,
        r matches Some(x) ==> sni_split(buf@) == Some(x as int),
{
    proof {
        lemma_split_lies_after_header(buf@);
    }
    match sni_host(buf) {
        Some((start, len)) => Some(start + len / 2),
        None => None,
    }
}

proof fn lemma_name_after_extension(s: Seq<u8>, pos: int)
    ensures
        server_name_from(s, pos) matches Some((start, len)) ==> pos + 9 <= start <= s.len() && 0
            <= len <= 65535,
    decreases s.len() - pos,
{
    if !(pos < 0 || pos + 3 >= s.len()) && be16_at(s, pos) != 0 {
        let next = pos + 4 + be16_at(s, pos + 2);
        if next + 3 < s.len() {
            lemma_name_after_extension(s, next);
        }
    }
}

/// The split, when there is one, lies past the fixed part of the record,
/// the length fields and the first extension's header.
pub proof fn lemma_split_lies_after_header(s: Seq<u8>)
    ensures
        sni_split(s) matches Some(p) ==> 58 <= p <= s.len() + 32767,
{
    match extensions_start(s) {
        Some(e) => {
            assert(e >= 49);
            lemma_name_after_extension(s, e);
        },
        None => {},
    }
}

/// The split falls strictly inside the host name whenever the name is at
/// least two bytes long, and inside the buffer whenever the whole name is.
pub proof fn lemma_split_inside_server_name(s: Seq<u8>, start: int, len: int)
    requires
        server_name(s) == Some((start, len)),
        len >= 2,
    ensures
        sni_split(s) == Some(start + len / 2),
        start < start + len / 2 < start + len,
        start + len <= s.len() ==> start + len / 2 < s.len(),
{
}

proof fn lemma_name_search_reads_before_name(a: Seq<u8>, b: Seq<u8>, pos: int, start: int)
    requires
        a.len() == b.len(),
        forall|i: int| 0 <= i < start ==> a[i] == b[i],
        server_name_from(a, pos) matches Some((st, _)) && st == start,
    ensures
        server_name_from(b, pos) == server_name_from(a, pos),
    decreases a.len() - pos,
{
    lemma_name_after_extension(a, pos);
    assert(a[pos] == b[pos] && a[pos + 1] == b[pos + 1]);
    assert(a[pos + 2] == b[pos + 2] && a[pos + 3] == b[pos + 3]);
    if be16_at(a, pos) == 0 {
        assert(a[pos + 7] == b[pos + 7] && a[pos + 8] == b[pos + 8]);
    } else {
        let next = pos + 4 + be16_at(a, pos + 2);
        lemma_name_search_reads_before_name(a, b, next, start);
    }
}

/// The split depends on the host name's length only: changing the bytes of
/// the host name, and nothing else, leaves it where it was.
pub proof fn lemma_split_ignores_host_name(a: Seq<u8>, b: Seq<u8>, start: int, len: int)
    requires
        server_name(a) == Some((start, len)),
        a.len() == b.len(),
        forall|i: int| 0 <= i < a.len() && !(start <= i < start + len) ==> a[i] == b[i],
    ensures
        server_name(b) == server_name(a),
        sni_split(b) == sni_split(a),
{
    let e = extensions_start(a)->0;
    lemma_name_after_extension(a, e);
    assert forall|i: int| 0 <= i < start implies a[i] == b[i] by {
        assert(0 <= i < a.len());
    }
    let sid = SESSION_ID_OFFSET as int;
    assert(a[sid] == b[sid]);
    let suites = sid + 1 + a[sid] as int;
    assert(a[suites] == b[suites] && a[suites + 1] == b[suites + 1]);
    let compression = suites + 2 + be16_at(a, suites);
    assert(a[compression] == b[compression]);
    assert(extensions_start(b) == extensions_start(a));
    lemma_name_search_reads_before_name(a, b, e, start);
}

/// Offset of the first extension as the record's fixed prefix and its three
/// length-prefixed fields place it: the session id length byte at 43, then
/// the session id, the cipher suites with their 2-byte length, the
/// compression methods with their 1-byte length, and the extensions' 2-byte
/// total length.
pub open spec fn first_extension_offset(s: Seq<u8>) -> int {
    let suites = 44 + s[43] as int;
    let compression = suites + 2 + (s[suites] as int * 256 + s[suites + 1] as int);
    compression + 1 + s[compression] as int + 2
}

proof fn lemma_walk_reaches_name(s: Seq<u8>, offs: Seq<int>, j: int)
    requires
        0 <= j < offs.len(),
        offs[j] >= 0,
        forall|i: int| 0 <= i < offs.len() ==> #[trigger] offs[i] + 3 < s.len(),
        forall|i: int|
            0 <= i < offs.len() - 1 ==> be16_at(s, #[trigger] offs[i]) != 0 && offs[i + 1]
                == offs[i] + 4 + be16_at(s, offs[i] + 2),
        be16_at(s, offs.last()) == 0,
        offs.last() + 8 < s.len(),
    ensures
        server_name_from(s, offs[j]) == Some(
            (offs.last() + 9, be16_at(s, offs.last() + 7)),
        ),
    decreases offs.len() - j,
{
    if j < offs.len() - 1 {
        assert(be16_at(s, offs[j]) != 0);
        assert(offs[j + 1] + 3 < s.len());
        lemma_walk_reaches_name(s, offs, j + 1);
    }
}

/// The scan steps over every extension before the first one of type 0 by
/// its 4 header bytes and its length, whatever that length is, 0 included.
/// With `offs[0]` the first extension's offset and each next offset the
/// previous one plus 4 plus its length field, the host name is the one of
/// the first type-0 extension on the way: it starts 9 bytes after that
/// extension, its length field sits 7 bytes after it, and the record is cut
/// at the name's start plus half that length.
pub proof fn lemma_scan_steps_over_extensions(s: Seq<u8>, offs: Seq<int>)
    requires
        offs.len() >= 1,
        offs[0] == first_extension_offset(s),
        forall|i: int| 0 <= i < offs.len() ==> #[trigger] offs[i] + 3 < s.len(),
        forall|i: int|
            0 <= i < offs.len() - 1 ==> be16_at(s, #[trigger] offs[i]) != 0 && offs[i + 1]
                == offs[i] + 4 + be16_at(s, offs[i] + 2),
        be16_at(s, offs.last()) == 0,
        offs.last() + 8 < s.len(),
    ensures
        server_name(s) == Some((offs.last() + 9, be16_at(s, offs.last() + 7))),
        sni_split(s) == Some(offs.last() + 9 + be16_at(s, offs.last() + 7) / 2),
{
    assert(offs[0] + 3 < s.len());
    assert(extensions_start(s) == Some(offs[0]));
    lemma_walk_reaches_name(s, offs, 0);
}

} // verus!
